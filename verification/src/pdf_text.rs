//! The text of a PDF document, page by page.
use vstd::prelude::*;
use vstd::string::StringExecFns;
use crate::text::opt_text;

verus! {

/// What `lopdf` finds in the PDF document held by `bytes`: `None` when the
/// bytes do not load as a document, else the text of each page in page
/// order (`None` for a page whose text cannot be extracted). lopdf is built
/// without its `rayon` feature, so it loads a document sequentially and the
/// result depends on the bytes alone.
pub uninterp spec fn pdf_page_texts(bytes: Seq<u8>) -> Option<Seq<Option<Seq<char>>>>;

/// The view of the texts of the pages of a document.
pub open spec fn page_texts_view(r: Option<Vec<Option<String>>>) -> Option<Seq<Option<Seq<char>>>> {
    match r {
        Some(v) => Some(v@.map_values(|p: Option<String>| opt_text(p))),
        None => None,
    }
}

/// `lopdf::Document::load_mem`, then `Document::get_pages` and, for each
/// page number in order, `Document::extract_text` of that page: the texts of
/// the pages of the document held by `bytes`, named by `pdf_page_texts`.
#[verifier::external_body]
fn page_texts(bytes: &[u8]) -> (r: Option<Vec<Option<String>>>)
    ensures
        page_texts_view(r) == pdf_page_texts(bytes@),
{
    let doc = match lopdf::Document::load_mem(bytes) {
        Ok(d) => d,
        Err(_) => return None,
    };
    let mut pages = Vec::new();
    for number in doc.get_pages().keys() {
        pages.push(doc.extract_text(&[*number]).ok());
    }
    Some(pages)
}

/// The text of a document from the texts of its pages: each page whose text
/// could be extracted contributes that text and a line break; the others
/// contribute nothing.
pub open spec fn joined_pages(pages: Seq<Option<Seq<char>>>) -> Seq<char>
    decreases pages.len(),
{
    if pages.len() == 0 {
        Seq::empty()
    } else {
        joined_pages(pages.drop_last()) + match pages.last() {
            Some(t) => t + "\n"@,
            None => Seq::empty(),
        }
    }
}

/// The text of a document from the texts of its pages, in page order (`None`
/// for a page whose text could not be extracted).
pub fn join_page_texts(pages: &Vec<Option<String>>) -> (r: String)
    ensures
        r@ == joined_pages(pages@.map_values(|p: Option<String>| opt_text(p))),
{
    let ghost views = pages@.map_values(|p: Option<String>| opt_text(p));
    let mut text = String::new();
    let mut i: usize = 0;
    while i < pages.len()
        invariant
            i <= pages.len(),
            views == pages@.map_values(|p: Option<String>| opt_text(p)),
            text@ == joined_pages(views.take(i as int)),
        decreases pages.len() - i,
    {
        assert(views.take(i + 1).drop_last() =~= views.take(i as int));
        match &pages[i] {
            Some(t) => {
                text.append(t.as_str());
                text.append("\n");
            },
            None => {},
        }
        i = i + 1;
    }
    assert(views.take(pages.len() as int) =~= views);
    text
}

/// The text of the PDF document held by `bytes`, as `pdf_to_text` gives it.
pub open spec fn pdf_text_of(bytes: Seq<u8>) -> Option<Seq<char>> {
    match pdf_page_texts(bytes) {
        Some(pages) => Some(joined_pages(pages)),
        None => None,
    }
}

/// The text of the PDF document held by `bytes`: the texts of its pages, in
/// order, each followed by a line break (a page whose text cannot be
/// extracted is left out); `None` when the bytes do not load as a PDF
/// document.
pub fn pdf_to_text(bytes: &[u8]) -> (r: Option<String>)
    ensures
        opt_text(r) == pdf_text_of(bytes@),
{
    match page_texts(bytes) {
        Some(pages) => Some(join_page_texts(&pages)),
        None => None,
    }
}

} // verus!
