//! The bookkeeping of a session: the paths the user enters, and the counts
//! of files converted.
use vstd::prelude::*;
use vstd::string::StrSliceExecFns;
use crate::text::{opt_str, same_text};

verus! {

/// Whether `c` is white space in the sense of Unicode's `White_Space`
/// property (the characters that `str::trim` removes).
pub open spec fn is_white_space(c: char) -> bool {
    let v = c as u32;
    ||| 0x9 <= v <= 0xd
    ||| v == 0x20
    ||| v == 0x85
    ||| v == 0xa0
    ||| v == 0x1680
    ||| 0x2000 <= v <= 0x200a
    ||| v == 0x2028
    ||| v == 0x2029
    ||| v == 0x202f
    ||| v == 0x205f
    ||| v == 0x3000
}

/// Whether `c` is removed at the ends of a text: a double quote when
/// `quotes`, white space otherwise.
pub open spec fn is_stripped(c: char, quotes: bool) -> bool {
    if quotes {
        c == '"'
    } else {
        is_white_space(c)
    }
}

/// `s` without its leading removed characters.
pub open spec fn strip_leading(s: Seq<char>, quotes: bool) -> Seq<char>
    decreases s.len(),
{
    if s.len() > 0 && is_stripped(s[0], quotes) {
        strip_leading(s.drop_first(), quotes)
    } else {
        s
    }
}

/// `s` without its trailing removed characters.
pub open spec fn strip_trailing(s: Seq<char>, quotes: bool) -> Seq<char>
    decreases s.len(),
{
    if s.len() > 0 && is_stripped(s.last(), quotes) {
        strip_trailing(s.drop_last(), quotes)
    } else {
        s
    }
}

/// `s` without leading and trailing white space, as `str::trim` gives it.
pub open spec fn trimmed(s: Seq<char>) -> Seq<char> {
    strip_trailing(strip_leading(s, false), false)
}

/// `s` without its leading and trailing double quotes, as
/// `str::trim_matches('"')` gives it.
pub open spec fn strip_quotes(s: Seq<char>) -> Seq<char> {
    strip_trailing(strip_leading(s, true), true)
}

fn stripped_char(c: char, quotes: bool) -> (r: bool)
    ensures
        r == is_stripped(c, quotes),
{
    if quotes {
        c == '"'
    } else {
        let v = c as u32;
        (0x9 <= v && v <= 0xd) || v == 0x20 || v == 0x85 || v == 0xa0 || v == 0x1680 || (0x2000
            <= v && v <= 0x200a) || v == 0x2028 || v == 0x2029 || v == 0x202f || v == 0x205f || v
            == 0x3000
    }
}

/// The text `s` with its leading and trailing removed characters (double
/// quotes when `quotes`, white space otherwise) taken away.
fn strip_ends(s: &str, quotes: bool) -> (r: String)
    ensures
        r@ == strip_trailing(strip_leading(s@, quotes), quotes),
{
    let n = s.unicode_len();
    assert(s@.subrange(0, n as int) =~= s@);
    let mut i: usize = 0;
    while i < n
        invariant
            n == s@.len(),
            i <= n,
            strip_leading(s@, quotes) == strip_leading(s@.subrange(i as int, n as int), quotes),
        ensures
            i <= n,
            strip_leading(s@, quotes) == s@.subrange(i as int, n as int),
        decreases n - i,
    {
        let ghost rest = s@.subrange(i as int, n as int);
        if !stripped_char(s.get_char(i), quotes) {
            assert(rest[0] == s@[i as int]);
            break;
        }
        assert(rest[0] == s@[i as int]);
        assert(rest.drop_first() =~= s@.subrange(i + 1, n as int));
        i = i + 1;
    }
    proof {
        if i == n {
            assert(s@.subrange(i as int, n as int).len() == 0);
        }
    }
    let mut j: usize = n;
    while j > i
        invariant
            n == s@.len(),
            i <= j <= n,
            strip_trailing(s@.subrange(i as int, n as int), quotes) == strip_trailing(
                s@.subrange(i as int, j as int),
                quotes,
            ),
        ensures
            i <= j <= n,
            strip_trailing(s@.subrange(i as int, n as int), quotes) == s@.subrange(i as int, j as int),
        decreases j,
    {
        let ghost part = s@.subrange(i as int, j as int);
        if !stripped_char(s.get_char(j - 1), quotes) {
            assert(part.last() == s@[j - 1]);
            break;
        }
        assert(part.last() == s@[j - 1]);
        assert(part.drop_last() =~= s@.subrange(i as int, j - 1));
        j = j - 1;
    }
    proof {
        if i == j {
            assert(s@.subrange(i as int, j as int).len() == 0);
        }
    }
    s.substring_char(i, j).to_owned()
}

/// A line typed by the user, cleaned: white space around it removed, then
/// the double quotes around it (as when a path is pasted with its quotes).
pub open spec fn cleaned(line: Seq<char>) -> Seq<char> {
    strip_quotes(trimmed(line))
}

/// Cleans a line typed by the user: white space around it, then double
/// quotes around it, are removed.
pub fn clean_input(line: &str) -> (r: String)
    ensures
        r@ == cleaned(line@),
{
    let t = strip_ends(line, false);
    strip_ends(t.as_str(), true)
}

/// The state of the entry of paths: the cleaned lines kept so far, and
/// whether the entry is over.
pub struct PathInputView {
    pub lines: Seq<Seq<char>>,
    pub finished: bool,
}

/// The entry of paths, one per line: blank lines before the first path are
/// passed over; the first blank line after a path, or the end of the input,
/// ends the entry.
pub struct PathInput {
    lines: Vec<String>,
    finished: bool,
}

impl View for PathInput {
    type V = PathInputView;

    closed spec fn view(&self) -> PathInputView {
        PathInputView { lines: self.lines@.map_values(|s: String| s@), finished: self.finished }
    }
}

impl PathInputView {
    /// The state after the line `line` (`None` at the end of the input).
    pub open spec fn offer(self, line: Option<Seq<char>>) -> PathInputView {
        if self.finished {
            self
        } else {
            match line {
                None => PathInputView { finished: true, ..self },
                Some(l) => {
                    let c = cleaned(l);
                    if c.len() == 0 {
                        if self.lines.len() == 0 {
                            self
                        } else {
                            PathInputView { finished: true, ..self }
                        }
                    } else {
                        PathInputView { lines: self.lines.push(c), ..self }
                    }
                },
            }
        }
    }

    /// The paths entered: each kept line without the white space around it,
    /// blank ones left out.
    pub open spec fn paths(self) -> Seq<Seq<char>> {
        self.lines.map_values(|l: Seq<char>| trimmed(l)).filter(|t: Seq<char>| t.len() > 0)
    }
}

impl PathInput {
    /// An entry of paths that has not begun.
    pub fn new() -> (r: PathInput)
        ensures
            r@.lines == Seq::<Seq<char>>::empty(),
            !r@.finished,
    {
        let r = PathInput { lines: Vec::new(), finished: false };
        proof {
            assert(r@.lines =~= Seq::<Seq<char>>::empty());
        }
        r
    }

    /// Hands in the next line typed by the user (`None` at the end of the
    /// input); tells whether more lines are wanted.
    pub fn offer(&mut self, line: Option<&str>) -> (more: bool)
        ensures
            final(self)@ == old(self)@.offer(opt_str(line)),
            more == !final(self)@.finished,
    {
        if self.finished {
            return false;
        }
        let ghost before = self@;
        match line {
            None => {
                self.finished = true;
                assert(self@.lines == before.lines);
                false
            },
            Some(l) => {
                let c = clean_input(l);
                proof {
                    reveal_strlit("");
                    if c@.len() == 0 {
                        assert(c@ =~= ""@);
                    }
                }
                if same_text(c.as_str(), "") {
                    if self.lines.len() == 0 {
                        true
                    } else {
                        self.finished = true;
                        assert(self@.lines == before.lines);
                        false
                    }
                } else {
                    self.lines.push(c);
                    proof {
                        assert(self@.lines =~= before.lines.push(c@));
                    }
                    true
                }
            },
        }
    }

    /// The paths entered, in order.
    pub fn paths(&self) -> (r: Vec<String>)
        ensures
            r@.map_values(|s: String| s@) == self@.paths(),
    {
        let ghost lines = self@.lines;
        let ghost f = |l: Seq<char>| trimmed(l);
        let ghost p = |t: Seq<char>| t.len() > 0;
        let mut r: Vec<String> = Vec::new();
        let mut i: usize = 0;
        while i < self.lines.len()
            invariant
                i <= self.lines.len(),
                lines == self@.lines,
                lines.len() == self.lines@.len(),
                f == (|l: Seq<char>| trimmed(l)),
                p == (|t: Seq<char>| t.len() > 0),
                r@.map_values(|s: String| s@) == lines.take(i as int).map_values(f).filter(p),
            decreases self.lines.len() - i,
        {
            let t = strip_ends(self.lines[i].as_str(), false);
            let ghost before = r@.map_values(|s: String| s@);
            proof {
                assert(lines.take(i + 1).map_values(f) =~= lines.take(i as int).map_values(f).push(
                    f(lines[i as int]),
                ));
                lines.take(i as int).map_values(f).lemma_filter_push(f(lines[i as int]), p);
                reveal_strlit("");
            }
            let keep = !same_text(t.as_str(), "");
            assert(lines[i as int] == self.lines@[i as int]@);
            proof {
                if t@.len() == 0 {
                    assert(t@ =~= ""@);
                }
            }
            assert(keep == p(f(lines[i as int])));
            if keep {
                r.push(t);
                proof {
                    assert(r@.map_values(|s: String| s@) =~= before.push(t@));
                }
            }
            i = i + 1;
        }
        proof {
            assert(lines.take(lines.len() as int) =~= lines);
        }
        r
    }
}

/// What to do with one entry met while walking a folder.
#[derive(Debug, Clone, Copy, PartialEq, Eq, Structural)]
pub enum EntryAction {
    /// Not counted: not a file, or a file in the output folder.
    Ignore,
    /// Counted, but its extension is not supported.
    Unsupported,
    /// Counted and to be converted.
    Convert,
}

/// The counts of one or more folders or files: files found, files whose
/// conversion was attempted, and files converted.
pub struct TallyView {
    pub total: nat,
    pub processed: nat,
    pub converted: nat,
    pub pending: bool,
}

/// The counts of a walk through a folder (or of single files): the files
/// found, the files whose conversion was attempted, the files converted.
pub struct Tally {
    total: u32,
    processed: u32,
    converted: u32,
    pending: bool,
}

impl View for Tally {
    type V = TallyView;

    closed spec fn view(&self) -> TallyView {
        TallyView {
            total: self.total as nat,
            processed: self.processed as nat,
            converted: self.converted as nat,
            pending: self.pending,
        }
    }
}

/// The action for an entry: `is_file` tells whether it is a file,
/// `in_output` whether it lies in the output folder (when the walked folder
/// does not), `supported` whether its extension is supported.
pub open spec fn entry_action(is_file: bool, in_output: bool, supported: bool) -> EntryAction {
    if !is_file || in_output {
        EntryAction::Ignore
    } else if !supported {
        EntryAction::Unsupported
    } else {
        EntryAction::Convert
    }
}

impl TallyView {
    /// Converted files were attempted, and attempted files were found.
    pub open spec fn wf(self) -> bool {
        &&& self.converted + (if self.pending { 1nat } else { 0nat }) <= self.processed
        &&& self.processed <= self.total
    }

    /// The counts after an entry with the given action.
    pub open spec fn observe(self, action: EntryAction) -> TallyView {
        match action {
            EntryAction::Ignore => self,
            EntryAction::Unsupported => TallyView { total: self.total + 1, pending: false, ..self },
            EntryAction::Convert => TallyView {
                total: self.total + 1,
                processed: self.processed + 1,
                pending: true,
                ..self
            },
        }
    }

    /// The counts after the outcome of the pending conversion.
    pub open spec fn record(self, converted: bool) -> TallyView {
        if self.pending {
            TallyView {
                converted: if converted { self.converted + 1 } else { self.converted },
                pending: false,
                ..self
            }
        } else {
            self
        }
    }
}

/// An entry is ignored exactly when it is not a file or lies in the output
/// folder; it is converted exactly when it is a file outside the output
/// folder with a supported extension; otherwise it is an unsupported file.
pub proof fn lemma_entry_action(is_file: bool, in_output: bool, supported: bool)
    ensures
        (entry_action(is_file, in_output, supported) == EntryAction::Ignore) == (!is_file
            || in_output),
        (entry_action(is_file, in_output, supported) == EntryAction::Convert) == (is_file
            && !in_output && supported),
{
}

/// Counting an entry: a file that is not ignored adds one to the files
/// found, a file to convert adds one to the files attempted, and the files
/// converted stay as they were.
pub proof fn lemma_observe_counts(v: TallyView, a: EntryAction)
    ensures
        v.observe(a).total == v.total + (if a == EntryAction::Ignore { 0nat } else { 1nat }),
        v.observe(a).processed == v.processed + (if a == EntryAction::Convert {
            1nat
        } else {
            0nat
        }),
        v.observe(a).converted == v.converted,
        a == EntryAction::Convert ==> v.observe(a).pending,
        a == EntryAction::Unsupported ==> !v.observe(a).pending,
{
}

/// Recording an outcome: when a conversion is pending, a success adds one to
/// the files converted and a failure adds nothing; either way nothing is
/// pending afterwards and the other counts stay. With nothing pending, the
/// counts do not change.
pub proof fn lemma_record_counts(v: TallyView, converted: bool)
    ensures
        v.pending ==> v.record(converted).converted == v.converted + (if converted {
            1nat
        } else {
            0nat
        }),
        v.record(converted).processed == v.processed,
        v.record(converted).total == v.total,
        !v.record(converted).pending,
        !v.pending ==> v.record(converted) == v,
{
}

impl Tally {
    /// Counts of nothing.
    pub fn new() -> (r: Tally)
        ensures
            r@ == (TallyView { total: 0, processed: 0, converted: 0, pending: false }),
    {
        Tally { total: 0, processed: 0, converted: 0, pending: false }
    }

    /// The counts are always consistent.
    #[verifier::type_invariant]
    spec fn inv(self) -> bool {
        self@.wf()
    }

    /// The number of files found.
    pub fn total(&self) -> (r: u32)
        ensures
            r == self@.total,
    {
        self.total
    }

    /// The number of files whose conversion was attempted.
    pub fn processed(&self) -> (r: u32)
        ensures
            r == self@.processed,
    {
        self.processed
    }

    /// The number of files converted.
    pub fn converted(&self) -> (r: u32)
        ensures
            r == self@.converted,
    {
        self.converted
    }

    /// Counts an entry met in a walk and tells what to do with it: `is_file`
    /// tells whether it is a file, `in_output` whether it lies in the output
    /// folder while the walked folder does not, `supported` whether its
    /// extension is supported.
    pub fn observe(&mut self, is_file: bool, in_output: bool, supported: bool) -> (action: EntryAction)
        requires
            entry_action(is_file, in_output, supported) != EntryAction::Ignore ==> old(
                self,
            )@.total < u32::MAX,
        ensures
            action == entry_action(is_file, in_output, supported),
            final(self)@ == old(self)@.observe(action),
            final(self)@.wf(),
            action == EntryAction::Ignore <==> !is_file || in_output,
            action == EntryAction::Convert <==> is_file && !in_output && supported,
            final(self)@.total == old(self)@.total + (if action == EntryAction::Ignore {
                0nat
            } else {
                1nat
            }),
            final(self)@.processed == old(self)@.processed + (if action == EntryAction::Convert {
                1nat
            } else {
                0nat
            }),
            final(self)@.converted == old(self)@.converted,
    {
        proof {
            use_type_invariant(&*self);
        }
        if !is_file || in_output {
            EntryAction::Ignore
        } else if !supported {
            self.total = self.total + 1;
            self.pending = false;
            EntryAction::Unsupported
        } else {
            self.total = self.total + 1;
            self.processed = self.processed + 1;
            self.pending = true;
            EntryAction::Convert
        }
    }

    /// Whether `observe` can count an entry with these properties: an entry
    /// that is not ignored needs room for one more file found.
    pub fn can_observe(&self, is_file: bool, in_output: bool, supported: bool) -> (r: bool)
        ensures
            r == (entry_action(is_file, in_output, supported) != EntryAction::Ignore ==> self@.total
                < u32::MAX),
    {
        (!is_file || in_output) || self.total < u32::MAX
    }

    /// Records whether the conversion of the last entry counted for
    /// conversion succeeded.
    pub fn record(&mut self, converted: bool)
        ensures
            final(self)@ == old(self)@.record(converted),
            final(self)@.wf(),
            old(self)@.pending ==> final(self)@.converted == old(self)@.converted + (if converted {
                1nat
            } else {
                0nat
            }),
            final(self)@.processed == old(self)@.processed,
            final(self)@.total == old(self)@.total,
            !final(self)@.pending,
            !old(self)@.pending ==> final(self)@ == old(self)@,
    {
        proof {
            use_type_invariant(&*self);
        }
        if self.pending {
            self.pending = false;
            if converted {
                self.converted = self.converted + 1;
            }
        }
    }

    /// Adds the counts of `other` to these: the files attempted and the files
    /// converted are summed; the files found are summed up to `u32::MAX`.
    pub fn add(&mut self, other: &Tally)
        requires
            !old(self)@.pending,
            !other@.pending,
            old(self)@.processed + other@.processed <= u32::MAX,
        ensures
            final(self)@ == (TallyView {
                total: if old(self)@.total + other@.total <= u32::MAX {
                    old(self)@.total + other@.total
                } else {
                    u32::MAX as nat
                },
                processed: old(self)@.processed + other@.processed,
                converted: old(self)@.converted + other@.converted,
                pending: false,
            }),
            final(self)@.wf(),
    {
        proof {
            use_type_invariant(&*self);
            use_type_invariant(other);
        }
        self.total = self.total.saturating_add(other.total);
        self.processed = self.processed + other.processed;
        self.converted = self.converted + other.converted;
    }

    /// Whether a conversion outcome is awaited.
    pub fn is_pending(&self) -> (r: bool)
        ensures
            r == self@.pending,
    {
        self.pending
    }
}

} // verus!
