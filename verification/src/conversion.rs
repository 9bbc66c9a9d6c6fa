//! The conversion of one file to a target format, as a state machine.
//!
//! A conversion is tried directly when a direct conversion exists between
//! the two formats; otherwise it goes through an intermediate format of the
//! source's family, recursively. Each pair (source format, target format) is
//! tried at most once, which keeps the search finite. The state machine makes
//! every decision; the program around it performs the direct conversions that
//! it asks for (`Step::Run`) and hands back their outcome.
use vstd::prelude::*;
use vstd::set_lib::lemma_len_subset;
use crate::category::{FileCategory, categorize, category_of, known_exts, lemma_known_ext};
use crate::paths::{ext_of, get_ext};
use crate::route::{DirectKind, direct_route, direct_conversion, intermediates, intermediate, intermediate_count};
use crate::text::{ascii_lowercase, lemma_ascii_lowercase_idempotent, opt_str, opt_text, to_ascii_lowercase};

verus! {

/// A direct conversion that the state machine asks to be performed.
pub struct JobView {
    pub kind: DirectKind,
    /// The file to convert.
    pub src: Seq<char>,
    /// The target format, in lower case.
    pub target: Seq<char>,
    /// The folder that receives the result, if one was given.
    pub output_dir: Option<Seq<char>>,
    /// The file whose name the result takes: the one the whole conversion
    /// started from.
    pub name: Seq<char>,
}

/// A direct conversion to perform: the file `src` is converted to the format
/// `target` by the means `kind`; the result goes into `output_dir` when one is
/// given, else beside `src`, and is named after `name`, the file the whole
/// conversion started from.
pub struct Job {
    pub kind: DirectKind,
    pub src: String,
    pub target: String,
    pub output_dir: Option<String>,
    pub name: String,
}

impl View for Job {
    type V = JobView;

    open spec fn view(&self) -> JobView {
        JobView {
            kind: self.kind,
            src: self.src@,
            target: self.target@,
            output_dir: opt_text(self.output_dir),
            name: self.name@,
        }
    }
}

/// What the state machine reports when it stops.
pub enum StepView {
    Run(JobView),
    Finished(Option<Seq<char>>),
}

/// What the state machine reports when it stops: a direct conversion to
/// perform, or the end of the conversion with the path of the converted file
/// (`None` when the conversion failed or is not supported).
pub enum Step {
    Run(Job),
    Finished(Option<String>),
}

impl View for Step {
    type V = StepView;

    open spec fn view(&self) -> StepView {
        match self {
            Step::Run(j) => StepView::Run(j@),
            Step::Finished(p) => StepView::Finished(opt_text(*p)),
        }
    }
}

/// A pending conversion through intermediate formats: the file `src` (with
/// extension `src_ext` of family `category`) is being converted to `target`;
/// `next` is the index of the intermediate format being tried, and `second`
/// tells whether the first leg (to the intermediate format) succeeded and the
/// second leg (from it to `target`) is under way; `name` is the file whose
/// name the results take.
pub struct FrameView {
    pub src: Seq<char>,
    pub src_ext: Seq<char>,
    pub target: Seq<char>,
    pub category: FileCategory,
    pub next: nat,
    pub second: bool,
    pub name: Seq<char>,
}

/// What the state machine does next.
pub enum ModeView {
    /// Start the conversion of `src` to `target`, with results named after `name`.
    Enter { src: Seq<char>, target: Seq<char>, name: Seq<char> },
    /// Look for the next intermediate format of the innermost pending conversion.
    Scan,
    /// The innermost conversion ended with this result.
    Return(Option<Seq<char>>),
    /// Waiting for the outcome of a direct conversion.
    Waiting(JobView),
    /// The whole conversion ended with this result.
    Done(Option<Seq<char>>),
}

/// The state of a conversion: the pairs (source format, target format)
/// already tried, the pending conversions through intermediate formats
/// (innermost last), what comes next, the output folder, the target format
/// that was asked for, and the file the conversion started from.
pub struct ConversionView {
    pub attempts: Seq<(Seq<char>, Seq<char>)>,
    pub frames: Seq<FrameView>,
    pub mode: ModeView,
    pub output_dir: Option<Seq<char>>,
    pub root: Seq<char>,
    pub origin: Seq<char>,
}

/// The target formats that can occur in one conversion, before lower-casing:
/// the one asked for and the intermediate formats.
pub open spec fn raw_targets(root: Seq<char>) -> Seq<Seq<char>> {
    seq![root, "png"@, "jpg"@, "bmp"@, "wav"@, "mp3"@, "flac"@, "mp4"@, "mkv"@, "txt"@, "pdf"@]
}

/// The target formats that can occur in one conversion.
pub open spec fn targets(root: Seq<char>) -> Seq<Seq<char>> {
    raw_targets(root).map_values(|x: Seq<char>| ascii_lowercase(x))
}

/// The number of pairs (source format, target format) that one conversion
/// can try: supported extensions times possible targets.
pub open spec fn attempt_bound() -> nat {
    462
}

/// All pairs that one conversion can try.
pub open spec fn key_universe(root: Seq<char>) -> Seq<(Seq<char>, Seq<char>)> {
    Seq::new(attempt_bound(), |i: int| (known_exts()[i / 11], targets(root)[i % 11]))
}

/// What a pending frame can still cost before it is gone.
pub open spec fn frame_potential(f: FrameView) -> nat {
    let left: nat = if f.next <= 3 { (3 - f.next) as nat } else { 0 };
    10 * left + if f.second { 0nat } else { 5nat }
}

/// The sum of `frame_potential` over the frames.
pub open spec fn frames_potential(fs: Seq<FrameView>) -> nat
    decreases fs.len(),
{
    if fs.len() == 0 {
        0
    } else {
        frames_potential(fs.drop_last()) + frame_potential(fs.last())
    }
}

/// A rank of each mode, in the order the modes lead to one another.
pub open spec fn mode_rank(m: ModeView) -> nat {
    match m {
        ModeView::Done(_) => 0,
        ModeView::Return(_) => 1,
        ModeView::Waiting(_) => 2,
        ModeView::Enter { .. } => 3,
        ModeView::Scan => 4,
    }
}

impl ConversionView {
    /// A frame is consistent with the state.
    pub open spec fn frame_ok(self, f: FrameView) -> bool {
        &&& category_of(f.src_ext) == Some(f.category)
        &&& f.next <= intermediates(f.category).len()
        &&& f.second ==> f.next < intermediates(f.category).len()
        &&& targets(self.root).contains(f.target)
    }

    /// The invariant of the state machine.
    pub open spec fn wf(self) -> bool {
        &&& self.attempts.no_duplicates()
        &&& forall|i: int|
            0 <= i < self.attempts.len() ==> {
                &&& category_of(#[trigger] self.attempts[i].0) is Some
                &&& targets(self.root).contains(self.attempts[i].1)
            }
        &&& forall|i: int| 0 <= i < self.frames.len() ==> self.frame_ok(#[trigger] self.frames[i])
        &&& forall|i: int|
            0 <= i < self.frames.len() && (i < self.frames.len() - 1 || !(self.mode is Scan))
                ==> (#[trigger] self.frames[i]).next < intermediates(self.frames[i].category).len()
        &&& self.mode is Scan ==> self.frames.len() > 0 && !self.frames.last().second
        &&& (self.mode matches ModeView::Enter { target, .. } ==> targets(self.root).contains(
            ascii_lowercase(target),
        ))
        &&& self.mode is Done ==> self.frames.len() == 0
        &&& forall|i: int| 0 <= i < self.frames.len() ==> (#[trigger] self.frames[i]).name == self.origin
        &&& (self.mode matches ModeView::Enter { name, .. } ==> name == self.origin)
        &&& (self.mode matches ModeView::Waiting(j) ==> j.name == self.origin)
        &&& (self.mode matches ModeView::Waiting(j) ==> j.output_dir == self.output_dir)
        &&& (self.mode matches ModeView::Waiting(j) ==> (ext_of(j.src) matches Some(e)
            && direct_route(e, j.target) == Some(j.kind)))
    }

    /// Whether the machine waits for the outside world, or is done.
    pub open spec fn is_stable(self) -> bool {
        self.mode is Waiting || self.mode is Done
    }

    /// The start of the conversion of `src` to `target`, with results named
    /// after `name`.
    pub open spec fn enter(self, src: Seq<char>, target: Seq<char>, name: Seq<char>) -> ConversionView {
        match ext_of(src) {
            None => ConversionView { mode: ModeView::Return(None), ..self },
            Some(e) => {
                let t = ascii_lowercase(target);
                if self.attempts.contains((e, t)) {
                    ConversionView { mode: ModeView::Return(None), ..self }
                } else {
                    let a = self.attempts.push((e, t));
                    if e == t {
                        ConversionView { attempts: a, mode: ModeView::Return(Some(src)), ..self }
                    } else {
                        match direct_route(e, t) {
                            Some(k) => ConversionView {
                                attempts: a,
                                mode: ModeView::Waiting(
                                    JobView { kind: k, src, target: t, output_dir: self.output_dir, name },
                                ),
                                ..self
                            },
                            None => if category_of(t) is None {
                                ConversionView { attempts: a, mode: ModeView::Return(None), ..self }
                            } else {
                                ConversionView {
                                    attempts: a,
                                    frames: self.frames.push(
                                        FrameView {
                                            src,
                                            src_ext: e,
                                            target: t,
                                            category: category_of(e)->0,
                                            next: 0,
                                            second: false,
                                            name,
                                        },
                                    ),
                                    mode: ModeView::Scan,
                                    ..self
                                }
                            },
                        }
                    }
                }
            },
        }
    }

    /// The search for the next intermediate format of the innermost frame.
    pub open spec fn scan(self) -> ConversionView {
        let top = self.frames.len() - 1;
        let f = self.frames.last();
        let mids = intermediates(f.category);
        if f.next >= mids.len() {
            ConversionView { frames: self.frames.drop_last(), mode: ModeView::Return(None), ..self }
        } else if mids[f.next as int] == f.src_ext || mids[f.next as int] == f.target {
            ConversionView {
                frames: self.frames.update(top, FrameView { next: f.next + 1, ..f }),
                mode: ModeView::Scan,
                ..self
            }
        } else {
            ConversionView {
                mode: ModeView::Enter { src: f.src, target: mids[f.next as int], name: f.name },
                ..self
            }
        }
    }

    /// The handling of the result `v` of the innermost conversion.
    pub open spec fn ret(self, v: Option<Seq<char>>) -> ConversionView {
        if self.frames.len() == 0 {
            ConversionView { mode: ModeView::Done(v), ..self }
        } else {
            let top = self.frames.len() - 1;
            let f = self.frames.last();
            if !f.second {
                match v {
                    Some(p) => ConversionView {
                        frames: self.frames.update(top, FrameView { second: true, ..f }),
                        mode: ModeView::Enter { src: p, target: f.target, name: f.name },
                        ..self
                    },
                    None => ConversionView {
                        frames: self.frames.update(top, FrameView { next: f.next + 1, ..f }),
                        mode: ModeView::Scan,
                        ..self
                    },
                }
            } else {
                match v {
                    Some(p) => ConversionView {
                        frames: self.frames.drop_last(),
                        mode: ModeView::Return(Some(p)),
                        ..self
                    },
                    None => ConversionView {
                        frames: self.frames.update(
                            top,
                            FrameView { next: f.next + 1, second: false, ..f },
                        ),
                        mode: ModeView::Scan,
                        ..self
                    },
                }
            }
        }
    }

    /// One step of the machine that needs nothing from outside.
    pub open spec fn micro(self) -> ConversionView {
        match self.mode {
            ModeView::Enter { src, target, name } => self.enter(src, target, name),
            ModeView::Scan => self.scan(),
            ModeView::Return(v) => self.ret(v),
            _ => self,
        }
    }

    /// The outcome of a direct conversion handed in; ignored unless the
    /// machine waits for one.
    pub open spec fn feed(self, outcome: Option<Seq<char>>) -> ConversionView {
        if self.mode is Waiting {
            ConversionView { mode: ModeView::Return(outcome), ..self }
        } else {
            self
        }
    }

    /// A measure that every step decreases.
    pub open spec fn measure(self) -> nat {
        let left: nat = if self.attempts.len() <= attempt_bound() {
            (attempt_bound() - self.attempts.len()) as nat
        } else {
            0
        };
        40 * left + frames_potential(self.frames) + mode_rank(self.mode)
    }

    /// What the machine reports in a stable state.
    pub open spec fn report(self) -> StepView {
        match self.mode {
            ModeView::Waiting(j) => StepView::Run(j),
            ModeView::Done(v) => StepView::Finished(v),
            _ => StepView::Finished(None),
        }
    }
}

/// The state in which the conversion of `src` to `target` starts; every
/// result is named after `src`.
pub open spec fn initial(src: Seq<char>, target: Seq<char>, output_dir: Option<Seq<char>>) -> ConversionView {
    ConversionView {
        attempts: Seq::empty(),
        frames: Seq::empty(),
        mode: ModeView::Enter { src, target, name: src },
        output_dir,
        root: target,
        origin: src,
    }
}

/// The stable state that the machine reaches from `s` by steps that need
/// nothing from outside.
pub open spec fn settle(s: ConversionView) -> ConversionView
    decreases s.measure(),
    when s.wf()
    via settle_terminates
{
    if s.is_stable() {
        s
    } else {
        settle(s.micro())
    }
}

#[via_fn]
proof fn settle_terminates(s: ConversionView) {
    if !s.is_stable() {
        lemma_micro_decreases(s);
    }
}

proof fn lemma_targets_lower(root: Seq<char>, x: Seq<char>)
    requires
        targets(root).contains(x),
    ensures
        ascii_lowercase(x) == x,
{
    let i = choose|i: int| 0 <= i < targets(root).len() && targets(root)[i] == x;
    lemma_ascii_lowercase_idempotent(raw_targets(root)[i]);
}

proof fn lemma_intermediate_target(root: Seq<char>, c: FileCategory, i: int)
    requires
        0 <= i < intermediates(c).len(),
    ensures
        targets(root).contains(ascii_lowercase(intermediates(c)[i])),
{
    let raw = raw_targets(root);
    let ts = targets(root);
    let m = intermediates(c)[i];
    let j: int = match c {
        FileCategory::Image => i + 1,
        FileCategory::Audio => i + 4,
        FileCategory::Video => i + 7,
        FileCategory::Document => i + 9,
    };
    assert(raw[j] == m);
    assert(ts[j] == ascii_lowercase(m));
}

proof fn lemma_frames_potential_push(fs: Seq<FrameView>, f: FrameView)
    ensures
        frames_potential(fs.push(f)) == frames_potential(fs) + frame_potential(f),
{
    assert(fs.push(f).drop_last() =~= fs);
}

proof fn lemma_frames_potential_update(fs: Seq<FrameView>, f: FrameView)
    requires
        fs.len() > 0,
    ensures
        frames_potential(fs.update(fs.len() - 1, f)) == frames_potential(fs.drop_last())
            + frame_potential(f),
        frames_potential(fs) == frames_potential(fs.drop_last()) + frame_potential(fs.last()),
{
    assert(fs.update(fs.len() - 1, f).drop_last() =~= fs.drop_last());
}

/// One conversion tries at most `attempt_bound()` pairs.
pub proof fn lemma_attempts_bounded(s: ConversionView)
    requires
        s.wf(),
    ensures
        s.attempts.len() <= attempt_bound(),
{
    let u = key_universe(s.root);
    let ks = known_exts();
    let ts = targets(s.root);
    assert(ks.len() == 42);
    assert(ts.len() == 11);
    assert forall|k: (Seq<char>, Seq<char>)| s.attempts.to_set().contains(k) implies u.to_set().contains(
        k,
    ) by {
        let i = choose|i: int| 0 <= i < s.attempts.len() && s.attempts[i] == k;
        assert(category_of(s.attempts[i].0) is Some);
        lemma_known_ext(k.0);
        let a = choose|a: int| 0 <= a < ks.len() && ks[a] == k.0;
        let b = choose|b: int| 0 <= b < ts.len() && ts[b] == k.1;
        let idx = a * 11 + b;
        assert(idx / 11 == a && idx % 11 == b && 0 <= idx < 462) by (nonlinear_arith)
            requires
                0 <= a < 42,
                0 <= b < 11,
                idx == a * 11 + b,
        ;
        assert(u[idx] == k);
        assert(u.contains(k));
    }
    s.attempts.unique_seq_to_set();
    u.lemma_cardinality_of_set();
    lemma_len_subset(s.attempts.to_set(), u.to_set());
}

/// Every step that needs nothing from outside keeps the invariant.
pub proof fn lemma_micro_preserves_wf(s: ConversionView)
    requires
        s.wf(),
        !s.is_stable(),
    ensures
        s.micro().wf(),
{
    let n = s.micro();
    match s.mode {
        ModeView::Enter { src, target, name } => {
            if let Some(e) = ext_of(src) {
                let t = ascii_lowercase(target);
                if !s.attempts.contains((e, t)) {
                    let a = s.attempts.push((e, t));
                    assert(a.no_duplicates()) by {
                        assert forall|i: int, j: int|
                            0 <= i < a.len() && 0 <= j < a.len() && i != j implies a[i] != a[j] by {
                            if i < s.attempts.len() && j < s.attempts.len() {
                            } else if i < s.attempts.len() {
                                assert(s.attempts[i] != (e, t));
                            } else {
                                assert(s.attempts[j] != (e, t));
                            }
                        }
                    }
                    assert(category_of(e) is Some);
                    assert forall|i: int| 0 <= i < a.len() implies {
                        &&& category_of(#[trigger] a[i].0) is Some
                        &&& targets(s.root).contains(a[i].1)
                    } by {
                        if i < s.attempts.len() {
                            assert(a[i] == s.attempts[i]);
                        }
                    }
                    if e != t && direct_route(e, t) is None && category_of(t) is Some {
                        let fr = FrameView {
                            src,
                            src_ext: e,
                            target: t,
                            category: category_of(e)->0,
                            next: 0,
                            second: false,
                            name,
                        };
                        assert(n.frames == s.frames.push(fr));
                        assert forall|i: int| 0 <= i < n.frames.len() implies n.frame_ok(
                            #[trigger] n.frames[i],
                        ) by {
                            if i < s.frames.len() {
                                assert(n.frames[i] == s.frames[i]);
                                assert(s.frame_ok(s.frames[i]));
                            }
                        }
                        assert forall|i: int|
                            0 <= i < n.frames.len() && (i < n.frames.len() - 1 || !(n.mode is Scan))
                                implies (#[trigger] n.frames[i]).next < intermediates(
                            n.frames[i].category,
                        ).len() by {
                            assert(n.frames[i] == s.frames[i]);
                        }
                    }
                }
            }
        },
        ModeView::Scan => {
            let top = s.frames.len() - 1;
            let f = s.frames.last();
            let mids = intermediates(f.category);
            assert(s.frame_ok(s.frames[top]));
            if f.next >= mids.len() {
                assert forall|i: int| 0 <= i < n.frames.len() implies n.frame_ok(
                    #[trigger] n.frames[i],
                ) by {
                    assert(n.frames[i] == s.frames[i]);
                    assert(s.frame_ok(s.frames[i]));
                }
                assert forall|i: int|
                    0 <= i < n.frames.len() && (i < n.frames.len() - 1 || !(n.mode is Scan))
                        implies (#[trigger] n.frames[i]).next < intermediates(
                    n.frames[i].category,
                ).len() by {
                    assert(n.frames[i] == s.frames[i]);
                }
            } else if mids[f.next as int] == f.src_ext || mids[f.next as int] == f.target {
                assert forall|i: int| 0 <= i < n.frames.len() implies n.frame_ok(
                    #[trigger] n.frames[i],
                ) by {
                    assert(s.frame_ok(s.frames[i]));
                }
            } else {
                lemma_intermediate_target(s.root, f.category, f.next as int);
                assert forall|i: int|
                    0 <= i < n.frames.len() && (i < n.frames.len() - 1 || !(n.mode is Scan))
                        implies (#[trigger] n.frames[i]).next < intermediates(
                    n.frames[i].category,
                ).len() by {
                    if i < top {
                    }
                }
            }
        },
        ModeView::Return(v) => {
            if s.frames.len() > 0 {
                let top = s.frames.len() - 1;
                let f = s.frames.last();
                assert(s.frame_ok(s.frames[top]));
                assert(f.next < intermediates(f.category).len());
                assert forall|i: int| 0 <= i < n.frames.len() implies n.frame_ok(
                    #[trigger] n.frames[i],
                ) by {
                    assert(s.frame_ok(s.frames[i]));
                }
                assert forall|i: int|
                    0 <= i < n.frames.len() && (i < n.frames.len() - 1 || !(n.mode is Scan))
                        implies (#[trigger] n.frames[i]).next < intermediates(
                    n.frames[i].category,
                ).len() by {
                    assert(s.frames[i].next < intermediates(s.frames[i].category).len());
                }
                if !f.second && v is Some {
                    lemma_targets_lower(s.root, f.target);
                }
            }
        },
        _ => {},
    }
}

/// Every step that needs nothing from outside decreases the measure.
pub proof fn lemma_micro_decreases(s: ConversionView)
    requires
        s.wf(),
        !s.is_stable(),
    ensures
        s.micro().measure() < s.measure(),
{
    lemma_micro_preserves_wf(s);
    lemma_attempts_bounded(s);
    lemma_attempts_bounded(s.micro());
    match s.mode {
        ModeView::Enter { src, target, name } => {
            if let Some(e) = ext_of(src) {
                let t = ascii_lowercase(target);
                if !s.attempts.contains((e, t)) && e != t && direct_route(e, t) is None
                    && category_of(t) is Some {
                    let fr = FrameView {
                        src,
                        src_ext: e,
                        target: t,
                        category: category_of(e)->0,
                        next: 0,
                        second: false,
                        name,
                    };
                    lemma_frames_potential_push(s.frames, fr);
                }
            }
        },
        ModeView::Scan => {
            let top = s.frames.len() - 1;
            let f = s.frames.last();
            assert(s.frame_ok(s.frames[top]));
            lemma_frames_potential_update(s.frames, FrameView { next: f.next + 1, ..f });
        },
        ModeView::Return(v) => {
            if s.frames.len() > 0 {
                let top = s.frames.len() - 1;
                let f = s.frames.last();
                assert(s.frame_ok(s.frames[top]));
                assert(f.next < intermediates(f.category).len());
                lemma_frames_potential_update(s.frames, FrameView { second: true, ..f });
                lemma_frames_potential_update(s.frames, FrameView { next: f.next + 1, ..f });
                lemma_frames_potential_update(
                    s.frames,
                    FrameView { next: f.next + 1, second: false, ..f },
                );
            }
        },
        _ => {},
    }
}

struct Frame {
    src: String,
    src_ext: String,
    target: String,
    category: FileCategory,
    next: usize,
    second: bool,
    name: String,
}

impl View for Frame {
    type V = FrameView;

    closed spec fn view(&self) -> FrameView {
        FrameView {
            src: self.src@,
            src_ext: self.src_ext@,
            target: self.target@,
            category: self.category,
            next: self.next as nat,
            second: self.second,
            name: self.name@,
        }
    }
}

enum Mode {
    Enter(String, String, String),
    Scan,
    Return(Option<String>),
    Waiting(Job),
    Done(Option<String>),
}

impl View for Mode {
    type V = ModeView;

    closed spec fn view(&self) -> ModeView {
        match self {
            Mode::Enter(src, target, name) => ModeView::Enter {
                src: src@,
                target: target@,
                name: name@,
            },
            Mode::Scan => ModeView::Scan,
            Mode::Return(v) => ModeView::Return(opt_text(*v)),
            Mode::Waiting(j) => ModeView::Waiting(j@),
            Mode::Done(v) => ModeView::Done(opt_text(*v)),
        }
    }
}

/// The state of a conversion as the machine keeps it.
struct Machine {
    attempts: Vec<(String, String)>,
    frames: Vec<Frame>,
    mode: Mode,
    output_dir: Option<String>,
    root: String,
    origin: String,
}

pub open spec fn key_view(p: (String, String)) -> (Seq<char>, Seq<char>) {
    (p.0@, p.1@)
}

impl View for Machine {
    type V = ConversionView;

    closed spec fn view(&self) -> ConversionView {
        ConversionView {
            attempts: self.attempts@.map_values(|p: (String, String)| key_view(p)),
            frames: self.frames@.map_values(|f: Frame| f@),
            mode: self.mode@,
            output_dir: opt_text(self.output_dir),
            root: self.root@,
            origin: self.origin@,
        }
    }
}

fn copy_text(o: &Option<String>) -> (r: Option<String>)
    ensures
        opt_text(r) == opt_text(*o),
{
    match o {
        Some(s) => Some(s.clone()),
        None => None,
    }
}

fn copy_job(j: &Job) -> (r: Job)
    ensures
        r@ == j@,
{
    Job {
        kind: j.kind,
        src: j.src.clone(),
        target: j.target.clone(),
        output_dir: copy_text(&j.output_dir),
        name: j.name.clone(),
    }
}

/// Starts the conversion of the file at `src` to the format `target_fmt`;
/// the result is to go into `output_dir` when one is given, else beside the
/// source. The returned machine is driven by `Conversion::advance`.
pub fn convert(src: &str, target_fmt: &str, output_dir: Option<&str>) -> (c: Conversion)
    ensures
        c@.wf(),
        c@ == initial(src@, target_fmt@, opt_str(output_dir)),
{
    let od = match output_dir {
        Some(d) => Some(d.to_owned()),
        None => None,
    };
    let m = Machine {
        attempts: Vec::new(),
        frames: Vec::new(),
        mode: Mode::Enter(src.to_owned(), target_fmt.to_owned(), src.to_owned()),
        output_dir: od,
        root: target_fmt.to_owned(),
        origin: src.to_owned(),
    };
    proof {
        assert(m@.attempts =~= Seq::<(Seq<char>, Seq<char>)>::empty());
        assert(m@.frames =~= Seq::<FrameView>::empty());
        assert(targets(m@.root)[0] == ascii_lowercase(target_fmt@));
    }
    Conversion { machine: m }
}

impl Machine {
    /// A machine whose conversion is over, with no result.
    fn finished() -> (m: Machine)
        ensures
            m@.wf(),
            m@.mode == ModeView::Done(None),
    {
        let m = Machine {
            attempts: Vec::new(),
            frames: Vec::new(),
            mode: Mode::Done(None),
            output_dir: None,
            root: String::new(),
            origin: String::new(),
        };
        proof {
            assert(m@.attempts =~= Seq::<(Seq<char>, Seq<char>)>::empty());
            assert(m@.frames =~= Seq::<FrameView>::empty());
        }
        m
    }

    fn attempted(&self, e: &String, t: &String) -> (r: bool)
        ensures
            r == self@.attempts.contains((e@, t@)),
    {
        let ghost keys = self@.attempts;
        let mut i: usize = 0;
        while i < self.attempts.len()
            invariant
                i <= self.attempts.len(),
                keys == self@.attempts,
                keys.len() == self.attempts@.len(),
                forall|j: int| 0 <= j < i ==> keys[j] != (e@, t@),
            decreases self.attempts.len() - i,
        {
            if self.attempts[i].0 == *e && self.attempts[i].1 == *t {
                assert(keys[i as int] == (e@, t@));
                return true;
            }
            i = i + 1;
        }
        false
    }

    fn do_enter(&mut self, src: String, target: String, name: String)
        ensures
            final(self)@ == old(self)@.enter(src@, target@, name@),
    {
        let e = match get_ext(src.as_str()) {
            Some(e) => e,
            None => {
                self.mode = Mode::Return(None);
                return ;
            },
        };
        let t = to_ascii_lowercase(target.as_str());
        if self.attempted(&e, &t) {
            self.mode = Mode::Return(None);
            return ;
        }
        let ghost before = self@;
        self.attempts.push((e.clone(), t.clone()));
        proof {
            assert(self@.attempts =~= before.attempts.push((e@, t@)));
        }
        if e == t {
            self.mode = Mode::Return(Some(src));
            return ;
        }
        match direct_conversion(e.as_str(), t.as_str()) {
            Some(k) => {
                let od = copy_text(&self.output_dir);
                self.mode = Mode::Waiting(Job { kind: k, src, target: t, output_dir: od, name });
            },
            None => {
                if categorize(t.as_str()).is_none() {
                    self.mode = Mode::Return(None);
                } else {
                    let c = categorize(e.as_str()).unwrap();
                    let ghost fs = self@.frames;
                    self.frames.push(
                        Frame {
                            src,
                            src_ext: e,
                            target: t,
                            category: c,
                            next: 0,
                            second: false,
                            name,
                        },
                    );
                    self.mode = Mode::Scan;
                    proof {
                        assert(self@.frames =~= fs.push(
                            FrameView {
                                src: src@,
                                src_ext: e@,
                                target: t@,
                                category: c,
                                next: 0,
                                second: false,
                                name: name@,
                            },
                        ));
                    }
                }
            },
        }
    }

    fn do_scan(&mut self)
        requires
            old(self)@.wf(),
            old(self)@.mode is Scan,
        ensures
            final(self)@ == old(self)@.scan(),
    {
        let ghost before = self@;
        let mut f = self.frames.pop().unwrap();
        proof {
            assert(self@.frames =~= before.frames.drop_last());
            assert(before.frame_ok(before.frames[before.frames.len() - 1]));
        }
        let count = intermediate_count(f.category);
        if f.next >= count {
            self.mode = Mode::Return(None);
            return ;
        }
        let mid = intermediate(f.category, f.next);
        if mid == f.src_ext || mid == f.target {
            f.next = f.next + 1;
            self.frames.push(f);
            proof {
                assert(self@.frames =~= before.frames.update(
                    before.frames.len() - 1,
                    FrameView { next: before.frames.last().next + 1, ..before.frames.last() },
                ));
            }
        } else {
            let src = f.src.clone();
            let name = f.name.clone();
            self.frames.push(f);
            self.mode = Mode::Enter(src, mid, name);
            proof {
                assert(self@.frames =~= before.frames);
            }
        }
    }

    fn do_return(&mut self, v: Option<String>)
        requires
            old(self)@.frames.len() > 0 ==> old(self)@.frames.last().next < 3,
        ensures
            final(self)@ == old(self)@.ret(opt_text(v)),
    {
        let ghost before = self@;
        if self.frames.len() == 0 {
            self.mode = Mode::Done(v);
            return ;
        }
        let mut f = self.frames.pop().unwrap();
        let ghost top = before.frames.len() - 1;
        let ghost fv = before.frames.last();
        proof {
            assert(self@.frames =~= before.frames.drop_last());
        }
        if !f.second {
            match v {
                Some(p) => {
                    let t = f.target.clone();
                    let name = f.name.clone();
                    f.second = true;
                    self.frames.push(f);
                    self.mode = Mode::Enter(p, t, name);
                    proof {
                        assert(self@.frames =~= before.frames.update(
                            top,
                            FrameView { second: true, ..fv },
                        ));
                    }
                },
                None => {
                    f.next = f.next + 1;
                    self.frames.push(f);
                    self.mode = Mode::Scan;
                    proof {
                        assert(self@.frames =~= before.frames.update(
                            top,
                            FrameView { next: fv.next + 1, ..fv },
                        ));
                    }
                },
            }
        } else {
            match v {
                Some(p) => {
                    self.mode = Mode::Return(Some(p));
                },
                None => {
                    f.next = f.next + 1;
                    f.second = false;
                    self.frames.push(f);
                    self.mode = Mode::Scan;
                    proof {
                        assert(self@.frames =~= before.frames.update(
                            top,
                            FrameView { next: fv.next + 1, second: false, ..fv },
                        ));
                    }
                },
            }
        }
    }

    fn micro_step(&mut self)
        requires
            old(self)@.wf(),
            !old(self)@.is_stable(),
        ensures
            final(self)@ == old(self)@.micro(),
    {
        let ghost before = self@;
        let mut mode = Mode::Scan;
        std::mem::swap(&mut mode, &mut self.mode);
        proof {
            if before.frames.len() > 0 && !(before.mode is Scan) {
                let top = before.frames.len() - 1;
                assert(before.frames[top].next < intermediates(before.frames[top].category).len());
            }
        }
        match mode {
            Mode::Enter(src, target, name) => self.do_enter(src, target, name),
            Mode::Scan => self.do_scan(),
            Mode::Return(v) => self.do_return(v),
            Mode::Waiting(j) => {
                self.mode = Mode::Waiting(j);
            },
            Mode::Done(v) => {
                self.mode = Mode::Done(v);
            },
        }
    }

    fn is_stable(&self) -> (r: bool)
        ensures
            r == self@.is_stable(),
    {
        match self.mode {
            Mode::Waiting(_) => true,
            Mode::Done(_) => true,
            _ => false,
        }
    }

    fn run(&mut self, outcome: Option<String>) -> (step: Step)
        requires
            old(self)@.wf(),
        ensures
            final(self)@.wf(),
            final(self)@ == settle(old(self)@.feed(opt_text(outcome))),
            final(self)@.is_stable(),
            step@ == final(self)@.report(),
            final(self)@.origin == old(self)@.origin,
            final(self)@.output_dir == old(self)@.output_dir,
    {
        let waiting = match self.mode {
            Mode::Waiting(_) => true,
            _ => false,
        };
        if waiting {
            self.mode = Mode::Return(outcome);
        }
        let ghost start = self@;
        proof {
            assert(start == old(self)@.feed(opt_text(outcome)));
        }
        while !self.is_stable()
            invariant
                self@.wf(),
                settle(self@) == settle(start),
                self@.origin == start.origin,
                self@.output_dir == start.output_dir,
            decreases self@.measure(),
        {
            proof {
                lemma_micro_preserves_wf(self@);
                lemma_micro_decreases(self@);
            }
            self.micro_step();
        }
        match &self.mode {
            Mode::Waiting(j) => Step::Run(copy_job(j)),
            Mode::Done(v) => Step::Finished(copy_text(v)),
            _ => Step::Finished(None),
        }
    }
}

/// The conversion of one file to a target format, under way. Its state
/// always satisfies the machine's invariant.
pub struct Conversion {
    machine: Machine,
}

impl Conversion {
    #[verifier::type_invariant]
    spec fn inv(self) -> bool {
        self.machine@.wf()
    }
}

impl View for Conversion {
    type V = ConversionView;

    closed spec fn view(&self) -> ConversionView {
        self.machine@
    }
}

impl Conversion {
    /// Hands in the outcome of the direct conversion that was asked for last
    /// (`outcome` is ignored when none is pending), then makes every decision
    /// that follows until a direct conversion has to be performed or the
    /// conversion is over, and reports which. A direct conversion asked for
    /// always names its result after the file the conversion started from.
    pub fn advance(&mut self, outcome: Option<String>) -> (step: Step)
        ensures
            final(self)@.wf(),
            final(self)@ == settle(old(self)@.feed(opt_text(outcome))),
            final(self)@.is_stable(),
            step@ == final(self)@.report(),
            step@ matches StepView::Run(j) ==> j.name == old(self)@.origin,
            step@ matches StepView::Run(j) ==> j.output_dir == old(self)@.output_dir,
            step@ matches StepView::Run(j) ==> (ext_of(j.src) matches Some(e) && direct_route(
                e,
                j.target,
            ) == Some(j.kind)),
            final(self)@.output_dir == old(self)@.output_dir,
            final(self)@.origin == old(self)@.origin,
    {
        proof {
            use_type_invariant(&*self);
        }
        let mut m = Machine::finished();
        std::mem::swap(&mut m, &mut self.machine);
        let step = m.run(outcome);
        self.machine = m;
        step
    }
}

} // verus!
