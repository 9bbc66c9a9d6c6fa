//! Paths: extensions of source files, names of converted files, and the
//! default output folder.
//!
//! Paths are handled as text. What `std::path` computes on a path is called
//! through the wrappers below; their results are given names, since the rules
//! by which std splits a path into components take pages to state.
use vstd::prelude::*;
use vstd::set_lib::{set_int_range, lemma_int_range, lemma_map_size, lemma_len_subset};
use vstd::string::{StrSliceExecFns, StringExecFns};
use crate::text::{ascii_lowercase, lemma_ascii_lowercase_idempotent, opt_str, opt_text, same_text, to_ascii_lowercase};
use crate::category::{categorize, category_of};

verus! {

/// What `Path::extension` gives for the path `path`.
pub uninterp spec fn path_extension(path: Seq<char>) -> Option<Seq<char>>;

/// What `Path::file_stem` gives for the path `path`.
pub uninterp spec fn path_file_stem(path: Seq<char>) -> Option<Seq<char>>;

/// What `Path::parent` gives for the path `path`.
pub uninterp spec fn path_parent(path: Seq<char>) -> Option<Seq<char>>;

/// What `Path::join` gives for the base `base` and the path `name`.
pub uninterp spec fn path_join(base: Seq<char>, name: Seq<char>) -> Seq<char>;

/// What `Path::with_file_name` gives for the path `path` and the file name `name`.
pub uninterp spec fn path_with_file_name(path: Seq<char>, name: Seq<char>) -> Seq<char>;

/// `Path::extension` of std, on the path held by `path`: the part of the
/// final component after its last `.`, when there is one. The result is
/// named by `path_extension`.
#[verifier::external_body]
pub(crate) fn extension(path: &str) -> (r: Option<String>)
    ensures
        opt_text(r) == path_extension(path@),
{
    match std::path::Path::new(path).extension() {
        Some(e) => Some(e.to_string_lossy().into_owned()),
        None => None,
    }
}

/// `Path::file_stem` of std, on the path held by `path`: the final
/// component without its extension. The result is named by `path_file_stem`.
#[verifier::external_body]
fn file_stem(path: &str) -> (r: Option<String>)
    ensures
        opt_text(r) == path_file_stem(path@),
{
    match std::path::Path::new(path).file_stem() {
        Some(e) => Some(e.to_string_lossy().into_owned()),
        None => None,
    }
}

/// `Path::parent` of std, on the path held by `path`: the path without its
/// final component. The result is named by `path_parent`.
#[verifier::external_body]
fn parent(path: &str) -> (r: Option<String>)
    ensures
        opt_text(r) == path_parent(path@),
{
    match std::path::Path::new(path).parent() {
        Some(p) => Some(p.to_string_lossy().into_owned()),
        None => None,
    }
}

/// `Path::join` of std: `name` placed below `base` (or `name` itself when it
/// is absolute). The result is named by `path_join`.
#[verifier::external_body]
fn join(base: &str, name: &str) -> (r: String)
    ensures
        r@ == path_join(base@, name@),
{
    std::path::Path::new(base).join(name).to_string_lossy().into_owned()
}

/// `Path::with_file_name` of std: `path` with its final component replaced by
/// `name`. The result is named by `path_with_file_name`.
#[verifier::external_body]
fn with_file_name(path: &str, name: &str) -> (r: String)
    ensures
        r@ == path_with_file_name(path@, name@),
{
    std::path::Path::new(path).with_file_name(name).to_string_lossy().into_owned()
}

/// The extension under which a file is treated: the path's extension in
/// lower case, with `jpeg` read as `jpg`.
pub open spec fn normalized_ext(e: Seq<char>) -> Seq<char> {
    let lower = ascii_lowercase(e);
    if lower == "jpeg"@ {
        "jpg"@
    } else {
        lower
    }
}

/// The supported extension of the file at `path`, if it has one.
pub open spec fn ext_of(path: Seq<char>) -> Option<Seq<char>> {
    match path_extension(path) {
        Some(e) => if category_of(normalized_ext(e)) is Some {
            Some(normalized_ext(e))
        } else {
            None
        },
        None => None,
    }
}

/// The extension of the file at `path`, lower-cased and with `jpeg` read as
/// `jpg`, when it names a supported format; `None` otherwise.
pub fn get_ext(path: &str) -> (r: Option<String>)
    ensures
        opt_text(r) == ext_of(path@),
{
    let raw = match extension(path) {
        Some(e) => e,
        None => return None,
    };
    let lower = to_ascii_lowercase(raw.as_str());
    let ext = if same_text(lower.as_str(), "jpeg") {
        "jpg".to_owned()
    } else {
        lower
    };
    if categorize(ext.as_str()).is_some() {
        Some(ext)
    } else {
        None
    }
}

/// A supported extension is in lower case and is never `jpeg`.
pub proof fn lemma_ext_of_normalized(path: Seq<char>)
    ensures
        ext_of(path) matches Some(e) ==> {
            &&& category_of(e) is Some
            &&& ascii_lowercase(e) == e
            &&& e != "jpeg"@
        },
{
    if let Some(raw) = path_extension(path) {
        let lower = ascii_lowercase(raw);
        lemma_ascii_lowercase_idempotent(raw);
        if lower == "jpeg"@ {
            reveal_strlit("jpg");
            reveal_strlit("jpeg");
            assert(ascii_lowercase("jpg"@) =~= "jpg"@);
        }
    }
}

/// The character of a decimal digit.
pub open spec fn digit_char(d: nat) -> char {
    if d == 0 {
        '0'
    } else if d == 1 {
        '1'
    } else if d == 2 {
        '2'
    } else if d == 3 {
        '3'
    } else if d == 4 {
        '4'
    } else if d == 5 {
        '5'
    } else if d == 6 {
        '6'
    } else if d == 7 {
        '7'
    } else if d == 8 {
        '8'
    } else {
        '9'
    }
}

/// The decimal notation of `n`, without leading zeros.
pub open spec fn decimal(n: nat) -> Seq<char>
    decreases n,
{
    if n < 10 {
        seq![digit_char(n)]
    } else {
        decimal(n / 10).push(digit_char(n % 10))
    }
}

proof fn lemma_decimal_nonempty(n: nat)
    ensures
        decimal(n).len() >= 1,
        n >= 10 ==> decimal(n).len() >= 2,
    decreases n,
{
    if n >= 10 {
        lemma_decimal_nonempty(n / 10);
    }
}

/// Different numbers are written differently.
pub proof fn lemma_decimal_injective(a: nat, b: nat)
    requires
        decimal(a) == decimal(b),
    ensures
        a == b,
    decreases a,
{
    lemma_decimal_nonempty(a);
    lemma_decimal_nonempty(b);
    if a >= 10 && b >= 10 {
        let da = decimal(a);
        let db = decimal(b);
        assert(da.last() == digit_char(a % 10));
        assert(db.last() == digit_char(b % 10));
        assert(da.drop_last() =~= decimal(a / 10));
        assert(db.drop_last() =~= decimal(b / 10));
        lemma_decimal_injective(a / 10, b / 10);
    } else if a < 10 && b < 10 {
        assert(decimal(a)[0] == digit_char(a));
        assert(decimal(b)[0] == digit_char(b));
    }
}

proof fn lemma_digit_of(digits: Seq<char>, d: int)
    requires
        digits == "0123456789"@,
        0 <= d < 10,
    ensures
        digits[d] == digit_char(d as nat),
{
    reveal_strlit("0123456789");
    if d == 0 {
    } else if d == 1 {
    } else if d == 2 {
    } else if d == 3 {
    } else if d == 4 {
    } else if d == 5 {
    } else if d == 6 {
    } else if d == 7 {
    } else if d == 8 {
    } else {
    }
}

/// The decimal notation of `n`.
fn decimal_text(n: usize) -> (r: String)
    ensures
        r@ == decimal(n as nat),
    decreases n,
{
    let digits = "0123456789";
    proof {
        reveal_strlit("0123456789");
    }
    let d = n % 10;
    let digit = digits.substring_char(d, d + 1);
    proof {
        lemma_digit_of(digits@, d as int);
        assert(digit@ =~= seq![digit_char(d as nat)]);
    }
    if n < 10 {
        digit.to_owned()
    } else {
        let mut text = decimal_text(n / 10);
        text.append(digit);
        proof {
            assert(text@ =~= decimal((n / 10) as nat).push(digit_char((n % 10) as nat)));
        }
        text
    }
}

/// The suffix that tells apart the `n`-th file of a name: nothing for the
/// first, `-n` for the others.
pub open spec fn name_suffix(n: nat) -> Seq<char> {
    if n <= 1 {
        Seq::empty()
    } else {
        "-"@ + decimal(n)
    }
}

/// The `n`-th candidate name (counted from 1) for the conversion of a file
/// with stem `stem` to the format `fmt`: `STEM_converted.FMT`, then
/// `STEM_converted-2.FMT`, `STEM_converted-3.FMT`, ...
pub open spec fn converted_name(stem: Seq<char>, fmt: Seq<char>, n: nat) -> Seq<char> {
    stem + "_converted"@ + name_suffix(n) + "."@ + fmt
}

/// Whether `n` is the first candidate whose name is not among `taken`.
pub open spec fn is_first_free(stem: Seq<char>, fmt: Seq<char>, taken: Seq<Seq<char>>, n: nat) -> bool {
    &&& n >= 1
    &&& !taken.contains(converted_name(stem, fmt, n))
    &&& forall|m: nat| 1 <= m < n ==> taken.contains(#[trigger] converted_name(stem, fmt, m))
}

/// The first candidate name that is not among `taken`.
pub open spec fn free_name(stem: Seq<char>, fmt: Seq<char>, taken: Seq<Seq<char>>) -> Seq<char> {
    converted_name(stem, fmt, choose|n: nat| is_first_free(stem, fmt, taken, n))
}

/// Different candidates have different names.
pub proof fn lemma_converted_name_injective(stem: Seq<char>, fmt: Seq<char>, a: nat, b: nat)
    requires
        a >= 1,
        b >= 1,
        converted_name(stem, fmt, a) == converted_name(stem, fmt, b),
    ensures
        a == b,
{
    let na = converted_name(stem, fmt, a);
    let nb = converted_name(stem, fmt, b);
    let p: int = stem.len() + "_converted"@.len() as int;
    let sa = name_suffix(a);
    let sb = name_suffix(b);
    assert(na.len() == nb.len());
    assert(sa.len() == sb.len());
    assert(na.subrange(p, p + sa.len() as int) =~= sa);
    assert(nb.subrange(p, p + sb.len() as int) =~= sb);
    reveal_strlit("-");
    if a > 1 && b > 1 {
        lemma_decimal_nonempty(a);
        assert(sa.subrange(1, sa.len() as int) =~= decimal(a));
        assert(sb.subrange(1, sb.len() as int) =~= decimal(b));
        lemma_decimal_injective(a, b);
    } else if a > 1 {
        assert(sa.len() >= 1);
    } else if b > 1 {
        assert(sb.len() >= 1);
    }
}

/// Among `taken.len() + 1` candidates there is always one whose name is free.
proof fn lemma_some_candidate_free(stem: Seq<char>, fmt: Seq<char>, taken: Seq<Seq<char>>)
    ensures
        exists|n: nat| 1 <= n <= taken.len() + 1 && !taken.contains(converted_name(stem, fmt, n)),
{
    if forall|n: nat| 1 <= n <= taken.len() + 1 ==> taken.contains(converted_name(stem, fmt, n)) {
        let hi: int = taken.len() as int + 2;
        let xs = set_int_range(1, hi);
        let f = |i: int| converted_name(stem, fmt, i as nat);
        lemma_int_range(1, hi);
        assert(vstd::relations::injective_on(f, xs)) by {
            assert forall|i: int, j: int| xs.contains(i) && xs.contains(j) && #[trigger] f(i) == #[trigger] f(j) implies i == j by {
                lemma_converted_name_injective(stem, fmt, i as nat, j as nat);
            }
        }
        let ys = xs.map(f);
        lemma_map_size(xs, ys, f);
        assert(ys.subset_of(taken.to_set())) by {
            assert forall|y: Seq<char>| ys.contains(y) implies taken.to_set().contains(y) by {
                let i = choose|i: int| xs.contains(i) && f(i) == y;
                assert(taken.contains(converted_name(stem, fmt, i as nat)));
            }
        }
        taken.lemma_cardinality_of_set();
        lemma_len_subset(ys, taken.to_set());
        assert(false);
    }
}

/// The first free candidate exists and is unique.
pub proof fn lemma_first_free(stem: Seq<char>, fmt: Seq<char>, taken: Seq<Seq<char>>, n: nat)
    requires
        is_first_free(stem, fmt, taken, n),
    ensures
        free_name(stem, fmt, taken) == converted_name(stem, fmt, n),
{
    let k = choose|k: nat| is_first_free(stem, fmt, taken, k);
    assert(is_first_free(stem, fmt, taken, k));
    if k < n {
        assert(taken.contains(converted_name(stem, fmt, k)));
    } else if n < k {
        assert(taken.contains(converted_name(stem, fmt, n)));
    }
}

fn contains_text(list: &Vec<String>, x: &String) -> (r: bool)
    ensures
        r == list@.map_values(|s: String| s@).contains(x@),
{
    let ghost view = list@.map_values(|s: String| s@);
    let mut i: usize = 0;
    while i < list.len()
        invariant
            i <= list.len(),
            view == list@.map_values(|s: String| s@),
            forall|j: int| 0 <= j < i ==> view[j] != x@,
        decreases list.len() - i,
    {
        if list[i] == *x {
            assert(view[i as int] == x@);
            return true;
        }
        i = i + 1;
    }
    assert forall|j: int| 0 <= j < view.len() implies view[j] != x@ by {}
    false
}

fn candidate_name(stem: &str, fmt: &str, n: usize) -> (r: String)
    requires
        n >= 1,
    ensures
        r@ == converted_name(stem@, fmt@, n as nat),
{
    let mut name = stem.to_owned();
    name.append("_converted");
    if n > 1 {
        name.append("-");
        let digits = decimal_text(n);
        name.append(digits.as_str());
    }
    name.append(".");
    name.append(fmt);
    name
}

/// The name under which the conversion of a file with stem `stem` to the
/// format `fmt` is written, given the names `taken` already present in the
/// output folder: `STEM_converted.FMT`, or, when that is taken, the first of
/// `STEM_converted-2.FMT`, `STEM_converted-3.FMT`, ... that is free.
pub fn converted_file_name(stem: &str, fmt: &str, taken: &Vec<String>) -> (r: String)
    requires
        taken.len() < usize::MAX,
    ensures
        r@ == free_name(stem@, fmt@, taken@.map_values(|s: String| s@)),
        !taken@.map_values(|s: String| s@).contains(r@),
{
    let ghost names = taken@.map_values(|s: String| s@);
    proof {
        lemma_some_candidate_free(stem@, fmt@, names);
    }
    let mut n: usize = 1;
    let mut name = candidate_name(stem, fmt, n);
    while contains_text(taken, &name)
        invariant
            1 <= n <= taken.len() + 1,
            taken.len() < usize::MAX,
            names == taken@.map_values(|s: String| s@),
            name@ == converted_name(stem@, fmt@, n as nat),
            forall|m: nat| 1 <= m < n ==> names.contains(#[trigger] converted_name(stem@, fmt@, m)),
            exists|k: nat| 1 <= k <= names.len() + 1 && !names.contains(converted_name(stem@, fmt@, k)),
        decreases taken.len() + 1 - n,
    {
        assert(names.contains(converted_name(stem@, fmt@, n as nat)));
        proof {
            if n == taken.len() + 1 {
                let k = choose|k: nat| 1 <= k <= names.len() + 1 && !names.contains(converted_name(stem@, fmt@, k));
                assert(k < n);
                assert(false);
            }
        }
        n = n + 1;
        name = candidate_name(stem, fmt, n);
    }
    proof {
        assert(is_first_free(stem@, fmt@, names, n as nat));
        lemma_first_free(stem@, fmt@, names, n as nat);
    }
    name
}

/// The file name of the conversion of `src` to `fmt`, given the names
/// already present in the output folder.
pub open spec fn output_name(src: Seq<char>, fmt: Seq<char>, taken: Seq<Seq<char>>) -> Seq<char> {
    let stem = match path_file_stem(src) {
        Some(s) => s,
        None => Seq::empty(),
    };
    free_name(stem, fmt, taken)
}

/// The path under which the conversion of `src` to `fmt` is written: in
/// `output_dir` when one is given, else beside `src`.
pub open spec fn output_path_of(
    src: Seq<char>,
    fmt: Seq<char>,
    output_dir: Option<Seq<char>>,
    taken: Seq<Seq<char>>,
) -> Seq<char> {
    match output_dir {
        Some(dir) => path_join(dir, output_name(src, fmt, taken)),
        None => path_with_file_name(src, output_name(src, fmt, taken)),
    }
}

/// The path under which the conversion of the file at `src` to the format
/// `target_fmt` is written. `taken` holds the names of the files already in
/// the folder that receives it (`output_dir`, or the folder of `src`), so
/// that no file is overwritten.
pub fn output_path(src: &str, target_fmt: &str, output_dir: Option<&str>, taken: &Vec<String>) -> (r: String)
    requires
        taken.len() < usize::MAX,
    ensures
        r@ == output_path_of(src@, target_fmt@, opt_str(output_dir), taken@.map_values(|s: String| s@)),
{
    let stem = match file_stem(src) {
        Some(s) => s,
        None => String::new(),
    };
    let name = converted_file_name(stem.as_str(), target_fmt, taken);
    match output_dir {
        Some(dir) => join(dir, name.as_str()),
        None => with_file_name(src, name.as_str()),
    }
}

/// The output folder used when none is given: the first selected path when it
/// is a folder, else the folder that holds it (`.` when it has none).
pub open spec fn default_output_dir_of(first: Seq<char>, first_is_dir: bool) -> Seq<char> {
    if first_is_dir {
        first
    } else {
        match path_parent(first) {
            Some(p) => p,
            None => "."@,
        }
    }
}

/// The output folder used when the user gives none, for the first selected
/// path `first`; `first_is_dir` tells whether it is a folder.
pub fn default_output_dir(first: &str, first_is_dir: bool) -> (r: String)
    ensures
        r@ == default_output_dir_of(first@, first_is_dir),
{
    if first_is_dir {
        first.to_owned()
    } else {
        match parent(first) {
            Some(p) => p,
            None => ".".to_owned(),
        }
    }
}

} // verus!
