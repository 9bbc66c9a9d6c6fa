//! The conversion procedure written as a recursive search, and the proof that
//! the state machine of `conversion` carries it out.
//!
//! The outside world is described by `world`, the outcome of each direct
//! conversion. Within one conversion no direct conversion is asked for twice
//! (each asks for a pair of formats not tried before), so an outcome per job
//! describes every way the outside world can answer.
use vstd::prelude::*;
use crate::category::category_of;
use crate::conversion::{
    ConversionView, FrameView, JobView, ModeView, attempt_bound, initial, lemma_attempts_bounded,
    lemma_micro_preserves_wf, settle,
};
use crate::paths::{ext_of, lemma_ext_of_normalized};
use crate::route::{direct_route, intermediates};
use crate::text::{ascii_lowercase, lemma_ascii_lowercase_idempotent};

verus! {

/// The conversion of `src` to `target`, with every result named after
/// `name`, given the pairs `tried` already tried: the result, and the pairs
/// tried afterwards. The source's
/// extension must be supported; a pair already tried fails; a source already
/// in the target format is its own result; a direct conversion gives what
/// the outside world answers; otherwise the intermediate formats are tried
/// in turn (`through`). `fuel` bounds the depth of the search.
pub open spec fn convert_rec(
    fuel: nat,
    src: Seq<char>,
    target: Seq<char>,
    name: Seq<char>,
    tried: Seq<(Seq<char>, Seq<char>)>,
    output_dir: Option<Seq<char>>,
    world: spec_fn(JobView) -> Option<Seq<char>>,
) -> (Option<Seq<char>>, Seq<(Seq<char>, Seq<char>)>)
    decreases fuel, 0nat,
{
    if fuel == 0 {
        (None, tried)
    } else {
        match ext_of(src) {
            None => (None, tried),
            Some(e) => {
                let t = ascii_lowercase(target);
                if tried.contains((e, t)) {
                    (None, tried)
                } else {
                    let tried1 = tried.push((e, t));
                    if e == t {
                        (Some(src), tried1)
                    } else {
                        match direct_route(e, t) {
                            Some(k) => (
                                world(JobView { kind: k, src, target: t, output_dir, name }),
                                tried1,
                            ),
                            None => if category_of(t) is None {
                                (None, tried1)
                            } else {
                                through(
                                    (fuel - 1) as nat,
                                    FrameView {
                                        src,
                                        src_ext: e,
                                        target: t,
                                        category: category_of(e)->0,
                                        next: 0,
                                        second: false,
                                        name,
                                    },
                                    tried1,
                                    output_dir,
                                    world,
                                )
                            },
                        }
                    }
                }
            },
        }
    }
}

/// The conversion of `f.src` to `f.target` through the intermediate formats
/// of its family, from the `f.next`-th on: a format equal to the source's or
/// to the target is skipped; otherwise the source is converted to it, and
/// that result to the target; the first success is the result.
pub open spec fn through(
    fuel: nat,
    f: FrameView,
    tried: Seq<(Seq<char>, Seq<char>)>,
    output_dir: Option<Seq<char>>,
    world: spec_fn(JobView) -> Option<Seq<char>>,
) -> (Option<Seq<char>>, Seq<(Seq<char>, Seq<char>)>)
    decreases fuel, 1nat,
{
    if fuel == 0 {
        (None, tried)
    } else {
        let mids = intermediates(f.category);
        let g = FrameView { next: f.next + 1, ..f };
        if f.next >= mids.len() {
            (None, tried)
        } else if mids[f.next as int] == f.src_ext || mids[f.next as int] == f.target {
            through((fuel - 1) as nat, g, tried, output_dir, world)
        } else {
            let (r1, tried1) = convert_rec(
                (fuel - 1) as nat,
                f.src,
                mids[f.next as int],
                f.name,
                tried,
                output_dir,
                world,
            );
            match r1 {
                Some(p) => {
                    let (r2, tried2) = convert_rec(
                        (fuel - 1) as nat,
                        p,
                        f.target,
                        f.name,
                        tried1,
                        output_dir,
                        world,
                    );
                    match r2 {
                        Some(q) => (Some(q), tried2),
                        None => through((fuel - 1) as nat, g, tried2, output_dir, world),
                    }
                },
                None => through((fuel - 1) as nat, g, tried1, output_dir, world),
            }
        }
    }
}

/// A pair that a conversion may record as tried: its source format is a
/// supported extension, and never `jpeg` (which is read as `jpg`).
pub open spec fn supported_pair(p: (Seq<char>, Seq<char>)) -> bool {
    &&& category_of(p.0) is Some
    &&& p.0 != "jpeg"@
}

/// `after` keeps the pairs of `before`, in their order, and only adds
/// supported pairs behind them.
pub open spec fn grows_by_supported(
    before: Seq<(Seq<char>, Seq<char>)>,
    after: Seq<(Seq<char>, Seq<char>)>,
) -> bool {
    &&& before.len() <= after.len()
    &&& after.subrange(0, before.len() as int) == before
    &&& forall|i: int| before.len() <= i < after.len() ==> supported_pair(#[trigger] after[i])
}

proof fn lemma_grows_refl(a: Seq<(Seq<char>, Seq<char>)>)
    ensures
        grows_by_supported(a, a),
{
    assert(a.subrange(0, a.len() as int) =~= a);
}

proof fn lemma_grows_push(a: Seq<(Seq<char>, Seq<char>)>, p: (Seq<char>, Seq<char>))
    requires
        supported_pair(p),
    ensures
        grows_by_supported(a, a.push(p)),
        a.push(p)[a.len() as int] == p,
{
    assert(a.push(p).subrange(0, a.len() as int) =~= a);
}

proof fn lemma_grows_trans(
    a: Seq<(Seq<char>, Seq<char>)>,
    b: Seq<(Seq<char>, Seq<char>)>,
    c: Seq<(Seq<char>, Seq<char>)>,
)
    requires
        grows_by_supported(a, b),
        grows_by_supported(b, c),
    ensures
        grows_by_supported(a, c),
        forall|i: int| 0 <= i < b.len() ==> c[i] == b[i],
{
    assert forall|i: int| 0 <= i < b.len() implies c[i] == b[i] by {
        assert(c.subrange(0, b.len() as int)[i] == c[i]);
    }
    assert forall|i: int| 0 <= i < a.len() implies c.subrange(0, a.len() as int)[i] == a[i] by {
        assert(b.subrange(0, a.len() as int)[i] == b[i]);
    }
    assert(c.subrange(0, a.len() as int) =~= a);
    assert forall|i: int| a.len() <= i < c.len() implies supported_pair(#[trigger] c[i]) by {
        if i < b.len() {
            assert(supported_pair(b[i]));
        }
    }
}

/// The case of the target format does not matter: a conversion to `target`
/// and one to its lower-case form give the same result and try the same
/// pairs, whatever the outside world answers.
pub proof fn lemma_target_case_irrelevant(
    fuel: nat,
    src: Seq<char>,
    target: Seq<char>,
    name: Seq<char>,
    tried: Seq<(Seq<char>, Seq<char>)>,
    output_dir: Option<Seq<char>>,
    world: spec_fn(JobView) -> Option<Seq<char>>,
)
    ensures
        convert_rec(fuel, src, target, name, tried, output_dir, world) == convert_rec(
            fuel,
            src,
            ascii_lowercase(target),
            name,
            tried,
            output_dir,
            world,
        ),
{
    lemma_ascii_lowercase_idempotent(target);
}

/// The pairs tried only grow: a conversion keeps every pair tried before it,
/// in order, and adds only pairs whose source format is supported (and not
/// `jpeg`). A source without a supported extension adds nothing; one with
/// supported extension `e` leaves the pair (`e`, lower-cased target) among
/// the pairs tried.
pub proof fn lemma_convert_rec_tried(
    fuel: nat,
    src: Seq<char>,
    target: Seq<char>,
    name: Seq<char>,
    tried: Seq<(Seq<char>, Seq<char>)>,
    output_dir: Option<Seq<char>>,
    world: spec_fn(JobView) -> Option<Seq<char>>,
)
    ensures
        grows_by_supported(tried, convert_rec(fuel, src, target, name, tried, output_dir, world).1),
        ext_of(src) is None ==> convert_rec(fuel, src, target, name, tried, output_dir, world).1
            == tried,
        fuel > 0 && ext_of(src) is Some ==> convert_rec(
            fuel,
            src,
            target,
            name,
            tried,
            output_dir,
            world,
        ).1.contains((ext_of(src)->0, ascii_lowercase(target))),
    decreases fuel, 0nat,
{
    lemma_grows_refl(tried);
    let out = convert_rec(fuel, src, target, name, tried, output_dir, world).1;
    if fuel > 0 {
        if let Some(e) = ext_of(src) {
            lemma_ext_of_normalized(src);
            let t = ascii_lowercase(target);
            if !tried.contains((e, t)) {
                let tried1 = tried.push((e, t));
                lemma_grows_push(tried, (e, t));
                if e != t && direct_route(e, t) is None && category_of(t) is Some {
                    let fr = FrameView {
                        src,
                        src_ext: e,
                        target: t,
                        category: category_of(e)->0,
                        next: 0,
                        second: false,
                        name,
                    };
                    lemma_through_tried((fuel - 1) as nat, fr, tried1, output_dir, world);
                    lemma_grows_trans(tried, tried1, out);
                    assert(out[tried.len() as int] == (e, t));
                } else {
                    assert(out[tried.len() as int] == (e, t));
                }
            }
        }
    }
}

/// The pairs tried only grow, for the conversions that the machine carries
/// out (at full search depth): every pair tried before is kept, in order;
/// only supported pairs (source format supported, never `jpeg`) are added;
/// a source without a supported extension adds nothing; one with supported
/// extension `e` leaves (`e`, lower-cased target) among the pairs tried.
pub proof fn lemma_conversion_tried(
    src: Seq<char>,
    target: Seq<char>,
    name: Seq<char>,
    tried: Seq<(Seq<char>, Seq<char>)>,
    output_dir: Option<Seq<char>>,
    world: spec_fn(JobView) -> Option<Seq<char>>,
)
    ensures
        ({
            let after = convert_rec(full_fuel(), src, target, name, tried, output_dir, world).1;
            &&& grows_by_supported(tried, after)
            &&& ext_of(src) is None ==> after == tried
            &&& ext_of(src) matches Some(e) ==> after.contains((e, ascii_lowercase(target)))
        }),
{
    lemma_convert_rec_tried(full_fuel(), src, target, name, tried, output_dir, world);
}

/// The pairs tried only grow through the intermediate formats as well:
/// `through` keeps every pair tried before it, in order, and adds only
/// supported pairs.
pub proof fn lemma_through_tried(
    fuel: nat,
    f: FrameView,
    tried: Seq<(Seq<char>, Seq<char>)>,
    output_dir: Option<Seq<char>>,
    world: spec_fn(JobView) -> Option<Seq<char>>,
)
    ensures
        grows_by_supported(tried, through(fuel, f, tried, output_dir, world).1),
    decreases fuel, 1nat,
{
    lemma_grows_refl(tried);
    if fuel > 0 {
        let mids = intermediates(f.category);
        let g = FrameView { next: f.next + 1, ..f };
        let out = through(fuel, f, tried, output_dir, world).1;
        if f.next >= mids.len() {
        } else if mids[f.next as int] == f.src_ext || mids[f.next as int] == f.target {
            lemma_through_tried((fuel - 1) as nat, g, tried, output_dir, world);
        } else {
            let mid = mids[f.next as int];
            let (r1, tried1) = convert_rec((fuel - 1) as nat, f.src, mid, f.name, tried, output_dir, world);
            lemma_convert_rec_tried((fuel - 1) as nat, f.src, mid, f.name, tried, output_dir, world);
            match r1 {
                Some(p) => {
                    let (r2, tried2) = convert_rec(
                        (fuel - 1) as nat,
                        p,
                        f.target,
                        f.name,
                        tried1,
                        output_dir,
                        world,
                    );
                    lemma_convert_rec_tried((fuel - 1) as nat, p, f.target, f.name, tried1, output_dir, world);
                    lemma_grows_trans(tried, tried1, tried2);
                    if r2 is None {
                        lemma_through_tried((fuel - 1) as nat, g, tried2, output_dir, world);
                        lemma_grows_trans(tried, tried2, out);
                    }
                },
                None => {
                    lemma_through_tried((fuel - 1) as nat, g, tried1, output_dir, world);
                    lemma_grows_trans(tried, tried1, out);
                },
            }
        }
    }
}

/// One step of the machine when the outside world answers as `world` does.
pub open spec fn step_with(s: ConversionView, world: spec_fn(JobView) -> Option<Seq<char>>) -> ConversionView {
    match s.mode {
        ModeView::Waiting(j) => s.feed(world(j)),
        _ => s.micro(),
    }
}

/// `n` steps of the machine when the outside world answers as `world` does.
pub open spec fn steps_with(
    s: ConversionView,
    world: spec_fn(JobView) -> Option<Seq<char>>,
    n: nat,
) -> ConversionView
    decreases n,
{
    if n == 0 {
        s
    } else {
        steps_with(step_with(s, world), world, (n - 1) as nat)
    }
}

proof fn lemma_steps_add(s: ConversionView, world: spec_fn(JobView) -> Option<Seq<char>>, a: nat, b: nat)
    ensures
        steps_with(s, world, a + b) == steps_with(steps_with(s, world, a), world, b),
    decreases a,
{
    if a > 0 {
        lemma_steps_add(step_with(s, world), world, (a - 1) as nat, b);
        assert((a + b - 1) as nat == (a - 1) as nat + b);
    }
}

proof fn lemma_step_wf(s: ConversionView, world: spec_fn(JobView) -> Option<Seq<char>>)
    requires
        s.wf(),
    ensures
        step_with(s, world).wf(),
{
    if !s.is_stable() {
        lemma_micro_preserves_wf(s);
    } else if s.mode is Waiting {
        let n = step_with(s, world);
        assert forall|i: int|
            0 <= i < n.frames.len() && (i < n.frames.len() - 1 || !(n.mode is Scan))
                implies (#[trigger] n.frames[i]).next < intermediates(n.frames[i].category).len() by {
            assert(s.frames[i] == n.frames[i]);
        }
    }
}

proof fn lemma_steps_wf(s: ConversionView, world: spec_fn(JobView) -> Option<Seq<char>>, n: nat)
    requires
        s.wf(),
    ensures
        steps_with(s, world, n).wf(),
    decreases n,
{
    if n > 0 {
        lemma_step_wf(s, world);
        lemma_steps_wf(step_with(s, world), world, (n - 1) as nat);
    }
}

/// The fuel that a search needs, given the pairs tried so far.
pub open spec fn fuel_needed(tried: Seq<(Seq<char>, Seq<char>)>) -> int {
    20 * (attempt_bound() - tried.len()) + 10
}

/// From the start of the conversion of `src` to `target`, the machine comes
/// to the end of that conversion, with the result and the pairs tried that
/// `convert_rec` gives, and with its pending frames as they were.
proof fn lemma_enter(
    fuel: nat,
    s: ConversionView,
    src: Seq<char>,
    target: Seq<char>,
    name: Seq<char>,
    world: spec_fn(JobView) -> Option<Seq<char>>,
)
    requires
        s.wf(),
        s.mode == (ModeView::Enter { src, target, name }),
        fuel >= fuel_needed(s.attempts),
    ensures
        ({
            let (r, tried) = convert_rec(fuel, src, target, name, s.attempts, s.output_dir, world);
            &&& tried.len() >= s.attempts.len()
            &&& exists|n: nat|
                steps_with(s, world, n) == (ConversionView {
                    attempts: tried,
                    mode: ModeView::Return(r),
                    ..s
                })
        }),
    decreases fuel, 0nat,
{
    lemma_attempts_bounded(s);
    let n1 = s.micro();
    lemma_micro_preserves_wf(s);
    assert(steps_with(s, world, 1) == n1) by {
        assert(steps_with(n1, world, 0) == n1);
    }
    match ext_of(src) {
        None => {},
        Some(e) => {
            let t = ascii_lowercase(target);
            if !s.attempts.contains((e, t)) && e != t {
                match direct_route(e, t) {
                    Some(k) => {
                        let n2 = step_with(n1, world);
                        assert(steps_with(s, world, 2) == n2) by {
                            assert(steps_with(n1, world, 1) == n2) by {
                                assert(steps_with(n2, world, 0) == n2);
                            }
                        }
                        assert(n2 == (ConversionView {
                            attempts: s.attempts.push((e, t)),
                            mode: ModeView::Return(world(JobView { kind: k, src, target: t, output_dir: s.output_dir, name })),
                            ..s
                        }));
                    },
                    None => {
                        if category_of(t) is Some {
                            let fr = FrameView {
                                src,
                                src_ext: e,
                                target: t,
                                category: category_of(e)->0,
                                next: 0,
                                second: false,
                                name,
                            };
                            assert(n1.frames == s.frames.push(fr));
                            assert(n1.frames.last() == fr);
                            lemma_through((fuel - 1) as nat, n1, world);
                            let (r, tried) = through((fuel - 1) as nat, fr, n1.attempts, s.output_dir, world);
                            let m = choose|m: nat|
                                steps_with(n1, world, m) == (ConversionView {
                                    attempts: tried,
                                    frames: n1.frames.drop_last(),
                                    mode: ModeView::Return(r),
                                    ..n1
                                });
                            lemma_steps_add(s, world, 1, m);
                            assert(n1.frames.drop_last() =~= s.frames);
                            assert(steps_with(s, world, 1 + m) == (ConversionView {
                                attempts: tried,
                                mode: ModeView::Return(r),
                                ..s
                            }));
                        }
                    },
                }
            }
        },
    }
}

/// From a search for the next intermediate format of the innermost frame,
/// the machine comes to the end of that frame's conversion, with the result
/// and the pairs tried that `through` gives, and with the frame removed.
proof fn lemma_through(fuel: nat, s: ConversionView, world: spec_fn(JobView) -> Option<Seq<char>>)
    requires
        s.wf(),
        s.mode is Scan,
        fuel >= fuel_needed(s.attempts) + 3 - s.frames.last().next,
    ensures
        ({
            let (r, tried) = through(fuel, s.frames.last(), s.attempts, s.output_dir, world);
            &&& tried.len() >= s.attempts.len()
            &&& exists|n: nat|
                steps_with(s, world, n) == (ConversionView {
                    attempts: tried,
                    frames: s.frames.drop_last(),
                    mode: ModeView::Return(r),
                    ..s
                })
        }),
    decreases fuel, 1nat,
{
    lemma_attempts_bounded(s);
    let top = s.frames.len() - 1;
    let f = s.frames.last();
    assert(s.frame_ok(s.frames[top]));
    let mids = intermediates(f.category);
    let g = FrameView { next: f.next + 1, ..f };
    let n1 = s.micro();
    lemma_micro_preserves_wf(s);
    assert(steps_with(s, world, 1) == n1) by {
        assert(steps_with(n1, world, 0) == n1);
    }
    if f.next >= mids.len() {
    } else if mids[f.next as int] == f.src_ext || mids[f.next as int] == f.target {
        assert(n1.frames.last() == g);
        lemma_through((fuel - 1) as nat, n1, world);
        let (r, tried) = through((fuel - 1) as nat, g, s.attempts, s.output_dir, world);
        let m = choose|m: nat|
            steps_with(n1, world, m) == (ConversionView {
                attempts: tried,
                frames: n1.frames.drop_last(),
                mode: ModeView::Return(r),
                ..n1
            });
        lemma_steps_add(s, world, 1, m);
        assert(n1.frames.drop_last() =~= s.frames.drop_last());
    } else {
        // first leg: to the intermediate format
        let mid = mids[f.next as int];
        assert(n1.mode == (ModeView::Enter { src: f.src, target: mid, name: f.name }));
        lemma_enter((fuel - 1) as nat, n1, f.src, mid, f.name, world);
        let (r1, tried1) = convert_rec((fuel - 1) as nat, f.src, mid, f.name, s.attempts, s.output_dir, world);
        let m1 = choose|m: nat|
            steps_with(n1, world, m) == (ConversionView {
                attempts: tried1,
                mode: ModeView::Return(r1),
                ..n1
            });
        let s1 = steps_with(n1, world, m1);
        lemma_steps_add(s, world, 1, m1);
        lemma_steps_wf(n1, world, m1);
        lemma_attempts_bounded(s1);
        let s2 = s1.micro();
        lemma_micro_preserves_wf(s1);
        assert(steps_with(s1, world, 1) == s2) by {
            assert(steps_with(s2, world, 0) == s2);
        }
        lemma_steps_add(s, world, 1 + m1, 1);
        match r1 {
            Some(p) => {
                // second leg: from the intermediate result to the target
                let fs = FrameView { second: true, ..f };
                assert(s2.mode == (ModeView::Enter { src: p, target: f.target, name: f.name }));
                assert(s2.frames == s.frames.update(top, fs));
                lemma_enter((fuel - 1) as nat, s2, p, f.target, f.name, world);
                let (r2, tried2) = convert_rec((fuel - 1) as nat, p, f.target, f.name, tried1, s.output_dir, world);
                let m2 = choose|m: nat|
                    steps_with(s2, world, m) == (ConversionView {
                        attempts: tried2,
                        mode: ModeView::Return(r2),
                        ..s2
                    });
                let s3 = steps_with(s2, world, m2);
                lemma_steps_add(s, world, 2 + m1, m2);
                lemma_steps_wf(s2, world, m2);
                lemma_attempts_bounded(s3);
                let s4 = s3.micro();
                lemma_micro_preserves_wf(s3);
                assert(steps_with(s3, world, 1) == s4) by {
                    assert(steps_with(s4, world, 0) == s4);
                }
                lemma_steps_add(s, world, 2 + m1 + m2, 1);
                assert(s3.frames.last() == fs);
                match r2 {
                    Some(q) => {
                        assert(s4.frames =~= s.frames.drop_last());
                    },
                    None => {
                        assert(s4.frames == s.frames.update(top, g));
                        assert(s4.frames.last() == g);
                        lemma_through((fuel - 1) as nat, s4, world);
                        let (r, tried) = through((fuel - 1) as nat, g, tried2, s.output_dir, world);
                        let m3 = choose|m: nat|
                            steps_with(s4, world, m) == (ConversionView {
                                attempts: tried,
                                frames: s4.frames.drop_last(),
                                mode: ModeView::Return(r),
                                ..s4
                            });
                        lemma_steps_add(s, world, 3 + m1 + m2, m3);
                        assert(s4.frames.drop_last() =~= s.frames.drop_last());
                    },
                }
            },
            None => {
                assert(s2.frames == s.frames.update(top, g));
                assert(s2.frames.last() == g);
                lemma_through((fuel - 1) as nat, s2, world);
                let (r, tried) = through((fuel - 1) as nat, g, tried1, s.output_dir, world);
                let m3 = choose|m: nat|
                    steps_with(s2, world, m) == (ConversionView {
                        attempts: tried,
                        frames: s2.frames.drop_last(),
                        mode: ModeView::Return(r),
                        ..s2
                    });
                lemma_steps_add(s, world, 2 + m1, m3);
                assert(s2.frames.drop_last() =~= s.frames.drop_last());
            },
        }
    }
}

/// The fuel with which `convert_rec` never runs out in a conversion.
pub open spec fn full_fuel() -> nat {
    20 * attempt_bound() + 10
}

/// The state machine carries out the recursive search: when the outside
/// world answers each requested direct conversion as `world` does, the
/// conversion of `src` to `target` ends, after finitely many steps, with the
/// result that `convert_rec` gives.
pub proof fn lemma_conversion_result(
    src: Seq<char>,
    target: Seq<char>,
    output_dir: Option<Seq<char>>,
    world: spec_fn(JobView) -> Option<Seq<char>>,
)
    ensures
        exists|n: nat|
            steps_with(initial(src, target, output_dir), world, n).mode == ModeView::Done(
                convert_rec(full_fuel(), src, target, src, Seq::empty(), output_dir, world).0,
            ),
{
    let s = initial(src, target, output_dir);
    assert(s.wf()) by {
        assert(crate::conversion::targets(target)[0] == ascii_lowercase(target));
    }
    lemma_enter(full_fuel(), s, src, target, src, world);
    let (r, tried) = convert_rec(full_fuel(), src, target, src, Seq::empty(), output_dir, world);
    let m = choose|m: nat|
        steps_with(s, world, m) == (ConversionView {
            attempts: tried,
            mode: ModeView::Return(r),
            ..s
        });
    let s1 = steps_with(s, world, m);
    let s2 = step_with(s1, world);
    assert(steps_with(s1, world, 1) == s2) by {
        assert(steps_with(s2, world, 0) == s2);
    }
    lemma_steps_add(s, world, m, 1);
}

/// Whatever the outside world answers, the machine ends the conversion of
/// `src` to `target` with the same result as the conversion of `src` to the
/// lower-case form of `target`.
pub proof fn lemma_conversion_target_case(
    src: Seq<char>,
    target: Seq<char>,
    output_dir: Option<Seq<char>>,
    world: spec_fn(JobView) -> Option<Seq<char>>,
)
    ensures
        exists|n: nat, m: nat|
            {
                &&& #[trigger] steps_with(initial(src, target, output_dir), world, n).mode is Done
                &&& steps_with(initial(src, target, output_dir), world, n).mode == #[trigger] steps_with(
                    initial(src, ascii_lowercase(target), output_dir),
                    world,
                    m,
                ).mode
            },
{
    let lower = ascii_lowercase(target);
    lemma_conversion_result(src, target, output_dir, world);
    lemma_conversion_result(src, lower, output_dir, world);
    lemma_target_case_irrelevant(full_fuel(), src, target, src, Seq::empty(), output_dir, world);
    let r = convert_rec(full_fuel(), src, target, src, Seq::empty(), output_dir, world).0;
    let n = choose|n: nat| steps_with(initial(src, target, output_dir), world, n).mode == ModeView::Done(r);
    let m = choose|m: nat| steps_with(initial(src, lower, output_dir), world, m).mode == ModeView::Done(r);
    assert(steps_with(initial(src, target, output_dir), world, n).mode == steps_with(
        initial(src, lower, output_dir),
        world,
        m,
    ).mode);
}

proof fn lemma_steps_keep(s: ConversionView, world: spec_fn(JobView) -> Option<Seq<char>>, n: nat)
    ensures
        steps_with(s, world, n).output_dir == s.output_dir,
        steps_with(s, world, n).origin == s.origin,
    decreases n,
{
    if n > 0 {
        lemma_steps_keep(step_with(s, world), world, (n - 1) as nat);
    }
}

/// Every direct conversion that a conversion asks for, at any step and
/// whatever the outside world answers, writes into the output folder the
/// conversion was started with and names its result after the file it
/// started from; and it is the direct conversion that exists between the
/// format of its source and its target.
pub proof fn lemma_jobs_of_conversion(
    src: Seq<char>,
    target: Seq<char>,
    output_dir: Option<Seq<char>>,
    world: spec_fn(JobView) -> Option<Seq<char>>,
    n: nat,
)
    ensures
        steps_with(initial(src, target, output_dir), world, n).mode matches ModeView::Waiting(j)
            ==> {
            &&& j.output_dir == output_dir
            &&& j.name == src
            &&& ext_of(j.src) matches Some(e) && direct_route(e, j.target) == Some(j.kind)
        },
{
    let s = initial(src, target, output_dir);
    assert(s.wf()) by {
        assert(crate::conversion::targets(target)[0] == ascii_lowercase(target));
    }
    lemma_steps_wf(s, world, n);
    lemma_steps_keep(s, world, n);
}

/// What `Conversion::advance` computes is reached by the steps of the
/// machine: from a state that is not waiting, `settle` is some number of
/// steps away, whatever the outside world answers.
pub proof fn lemma_settle_is_steps(s: ConversionView, world: spec_fn(JobView) -> Option<Seq<char>>)
    requires
        s.wf(),
        !(s.mode is Waiting),
    ensures
        exists|n: nat| steps_with(s, world, n) == settle(s),
    decreases s.measure(),
{
    if s.is_stable() {
        assert(steps_with(s, world, 0) == settle(s));
    } else {
        lemma_micro_preserves_wf(s);
        crate::conversion::lemma_micro_decreases(s);
        let n1 = s.micro();
        if n1.mode is Waiting {
            assert(settle(n1) == n1);
            assert(steps_with(s, world, 1) == settle(s)) by {
                assert(steps_with(n1, world, 0) == n1);
            }
        } else {
            lemma_settle_is_steps(n1, world);
            let m = choose|m: nat| steps_with(n1, world, m) == settle(n1);
            assert(steps_with(s, world, m + 1) == settle(s)) by {
                assert((m + 1 - 1) as nat == m);
            }
        }
    }
}

/// Once the conversion is over, the machine stays as it is.
pub proof fn lemma_done_is_final(s: ConversionView, world: spec_fn(JobView) -> Option<Seq<char>>, n: nat)
    requires
        s.mode is Done,
    ensures
        steps_with(s, world, n) == s,
    decreases n,
{
    if n > 0 {
        lemma_done_is_final(s, world, (n - 1) as nat);
    }
}

/// A conversion of a file whose supported extension already is the target
/// format (in any case) ends at once, with the file itself as the result,
/// and asks for no direct conversion.
pub proof fn lemma_already_in_format(src: Seq<char>, target: Seq<char>, output_dir: Option<Seq<char>>)
    requires
        ext_of(src) == Some(ascii_lowercase(target)),
    ensures
        settle(initial(src, target, output_dir)).mode == ModeView::Done(Some(src)),
{
    let s = initial(src, target, output_dir);
    assert(s.wf()) by {
        assert(crate::conversion::targets(target)[0] == ascii_lowercase(target));
    }
    lemma_micro_preserves_wf(s);
    let s1 = s.micro();
    assert(s1.mode == ModeView::Return(Some(src)));
    lemma_micro_preserves_wf(s1);
    let s2 = s1.micro();
    assert(s2.mode == ModeView::Done(Some(src)));
    assert(settle(s2) == s2);
    assert(settle(s1) == settle(s2));
    assert(settle(s) == settle(s1));
}

/// A conversion of a file without a supported extension ends at once, with
/// no result, and asks for no direct conversion.
pub proof fn lemma_unsupported_source(src: Seq<char>, target: Seq<char>, output_dir: Option<Seq<char>>)
    requires
        ext_of(src) is None,
    ensures
        settle(initial(src, target, output_dir)).mode == ModeView::Done(None),
{
    let s = initial(src, target, output_dir);
    assert(s.wf()) by {
        assert(crate::conversion::targets(target)[0] == ascii_lowercase(target));
    }
    lemma_micro_preserves_wf(s);
    let s1 = s.micro();
    lemma_micro_preserves_wf(s1);
    let s2 = s1.micro();
    assert(s1.mode == ModeView::Return(None));
    assert(s2.mode == ModeView::Done(None));
    assert(settle(s2) == s2);
    assert(settle(s1) == settle(s2));
    assert(settle(s) == settle(s1));
}

/// Each direct conversion that the machine asks for is for a pair (source
/// format, target format) that it has not tried before, and the pair is
/// recorded as tried; so no direct conversion is asked for twice.
pub proof fn lemma_jobs_fresh(s: ConversionView)
    requires
        s.wf(),
        !s.is_stable(),
        s.micro().mode is Waiting,
    ensures
        ({
            let j = s.micro().mode->Waiting_0;
            let key = (ext_of(j.src)->0, j.target);
            &&& ext_of(j.src) is Some
            &&& !s.attempts.contains(key)
            &&& s.micro().attempts == s.attempts.push(key)
        }),
{
}

} // verus!
