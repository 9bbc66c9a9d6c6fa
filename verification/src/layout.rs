//! Where the lines of a text go when it is written to PDF pages.
//!
//! Pages are A4 (210 mm by 297 mm). The first line of a page sits 280 mm
//! above the bottom edge and each further line 4.5 mm lower; a line that
//! would sit below 15 mm starts a new page instead. Heights are counted here
//! in tenths of a millimetre, where every one of them is a whole number.
use vstd::prelude::*;

verus! {

/// Height of the first line of a page, in tenths of a millimetre.
pub const TOP_TENTHS: u32 = 2800;

/// Distance between two lines, in tenths of a millimetre.
pub const LINE_TENTHS: u32 = 45;

/// Lowest height at which a line is still written, in tenths of a millimetre.
pub const BOTTOM_TENTHS: u32 = 150;

/// The place of one line: the page (counted from 0) and the height of the
/// line above the bottom edge of the page, in tenths of a millimetre.
#[derive(Debug, Clone, Copy, PartialEq, Eq, Structural)]
pub struct LinePlace {
    pub page: usize,
    pub height_tenths: u32,
}

/// The page (counted from 0) of the `i`-th line of a text (counted from 0).
pub open spec fn page_of(i: int) -> int {
    i / 59
}

/// The height of the `i`-th line of a text, in tenths of a millimetre.
pub open spec fn height_of(i: int) -> int {
    2800 - 45 * (i % 59)
}

proof fn lemma_next_line(i: int)
    requires
        i >= 0,
    ensures
        0 <= i % 59 < 59,
        0 <= i / 59 <= i,
        height_of(i) - 45 < 150 <==> i % 59 == 58,
        i % 59 == 58 ==> page_of(i + 1) == page_of(i) + 1 && height_of(i + 1) == 2800,
        i % 59 != 58 ==> page_of(i + 1) == page_of(i) && height_of(i + 1) == height_of(i) - 45,
{
    let k = i % 59;
    let q = i / 59;
    assert(i == 59 * q + k && 0 <= k < 59 && 0 <= q <= i) by (nonlinear_arith)
        requires
            k == i % 59,
            q == i / 59,
            i >= 0,
    ;
    if k < 58 {
        assert((i + 1) / 59 == q && (i + 1) % 59 == k + 1) by (nonlinear_arith)
            requires
                i == 59 * q + k,
                0 <= k < 58,
        ;
    } else {
        assert((i + 1) / 59 == q + 1 && (i + 1) % 59 == 0) by (nonlinear_arith)
            requires
                i == 59 * q + k,
                k == 58,
        ;
    }
}

/// The places of the lines of a text of `line_count` lines, in order: the
/// `i`-th line goes on page `i / 59`, at `280 - 4.5 * (i % 59)` mm.
pub fn text_layout(line_count: usize) -> (places: Vec<LinePlace>)
    ensures
        places@.len() == line_count,
        forall|i: int|
            0 <= i < line_count ==> places@[i].page == page_of(i) && places@[i].height_tenths
                == height_of(i),
{
    let mut places: Vec<LinePlace> = Vec::new();
    let mut page: usize = 0;
    let mut height: u32 = TOP_TENTHS;
    let mut i: usize = 0;
    while i < line_count
        invariant
            i <= line_count,
            places@.len() == i,
            forall|j: int|
                0 <= j < i ==> places@[j].page == page_of(j) && places@[j].height_tenths
                    == height_of(j),
            i == 0 ==> page == 0 && height == 2800,
            i > 0 ==> page == page_of(i - 1) && height == height_of(i - 1) - 45,
            page <= i,
        decreases line_count - i,
    {
        proof {
            if i > 0 {
                lemma_next_line(i - 1);
            }
            lemma_next_line(i as int);
        }
        if height < BOTTOM_TENTHS {
            page = page + 1;
            height = TOP_TENTHS;
        }
        places.push(LinePlace { page, height_tenths: height });
        height = height - LINE_TENTHS;
        i = i + 1;
    }
    places
}

} // verus!
