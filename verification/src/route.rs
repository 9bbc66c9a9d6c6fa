//! How a conversion from one format to another is carried out.
use vstd::prelude::*;
use crate::category::{FileCategory, categorize, category_of, lemma_extension_spellings};
use crate::text::same_text;

verus! {

/// A conversion that is done in one go.
#[derive(Debug, Clone, Copy, PartialEq, Eq, Structural)]
pub enum DirectKind {
    /// From an image format to another one, with the image library.
    Image,
    /// Between audio and video formats, with ffmpeg.
    Ffmpeg,
    /// From plain text to PDF.
    TextToPdf,
    /// From PDF to plain text.
    PdfToText,
    /// From an image to a one-page PDF.
    ImageToPdf,
    /// From PDF to an image format, with ffmpeg.
    PdfToImage,
}

/// The direct conversion from the (supported, lower-case) extension `e` to
/// the lower-case format `t`, if there is one. The rules are tried in this
/// order: image to image; audio or video to audio or video; txt to pdf; pdf to
/// txt; image to pdf; pdf to image.
pub open spec fn direct_route(e: Seq<char>, t: Seq<char>) -> Option<DirectKind> {
    let sc = category_of(e);
    let tc = category_of(t);
    if sc == Some(FileCategory::Image) && tc == Some(FileCategory::Image) {
        Some(DirectKind::Image)
    } else if (sc == Some(FileCategory::Audio) && tc == Some(FileCategory::Audio)) || (sc == Some(
        FileCategory::Video,
    ) && tc == Some(FileCategory::Audio)) || (sc == Some(FileCategory::Video) && tc == Some(
        FileCategory::Video,
    )) || (sc == Some(FileCategory::Audio) && tc == Some(FileCategory::Video)) {
        Some(DirectKind::Ffmpeg)
    } else if e == "txt"@ && t == "pdf"@ {
        Some(DirectKind::TextToPdf)
    } else if e == "pdf"@ && t == "txt"@ {
        Some(DirectKind::PdfToText)
    } else if sc == Some(FileCategory::Image) && t == "pdf"@ {
        Some(DirectKind::ImageToPdf)
    } else if e == "pdf"@ && tc == Some(FileCategory::Image) {
        Some(DirectKind::PdfToImage)
    } else {
        None
    }
}

/// Whether a family is one of those that ffmpeg handles: audio or video.
pub open spec fn is_media(c: Option<FileCategory>) -> bool {
    c == Some(FileCategory::Audio) || c == Some(FileCategory::Video)
}

/// Any image format converts directly to any image format, with the image
/// library.
pub proof fn lemma_route_image_to_image(e: Seq<char>, t: Seq<char>)
    requires
        category_of(e) == Some(FileCategory::Image),
        category_of(t) == Some(FileCategory::Image),
    ensures
        direct_route(e, t) == Some(DirectKind::Image),
{
}

/// Audio and video formats convert directly into one another, in every
/// direction (audio to audio, video to audio, video to video, audio to
/// video), with ffmpeg.
pub proof fn lemma_route_media(e: Seq<char>, t: Seq<char>)
    requires
        is_media(category_of(e)),
        is_media(category_of(t)),
    ensures
        direct_route(e, t) == Some(DirectKind::Ffmpeg),
{
}

/// The families of `txt` and `pdf`.
proof fn lemma_document_formats()
    ensures
        category_of("txt"@) == Some(FileCategory::Document),
        category_of("pdf"@) == Some(FileCategory::Document),
        "txt"@ != "pdf"@,
{
    lemma_extension_spellings();
}

/// Between documents and images: text becomes PDF and PDF becomes text;
/// any image becomes a PDF, and a PDF becomes any image.
pub proof fn lemma_route_documents(image: Seq<char>)
    requires
        category_of(image) == Some(FileCategory::Image),
    ensures
        direct_route("txt"@, "pdf"@) == Some(DirectKind::TextToPdf),
        direct_route("pdf"@, "txt"@) == Some(DirectKind::PdfToText),
        direct_route(image, "pdf"@) == Some(DirectKind::ImageToPdf),
        direct_route("pdf"@, image) == Some(DirectKind::PdfToImage),
{
    lemma_document_formats();
}

/// A direct conversion exists only between supported formats, and never
/// between an audio or video format and a format of another family.
pub proof fn lemma_route_families(e: Seq<char>, t: Seq<char>)
    ensures
        direct_route(e, t) is Some ==> category_of(e) is Some && category_of(t) is Some,
        is_media(category_of(e)) != is_media(category_of(t)) ==> direct_route(e, t) is None,
{
    lemma_document_formats();
}

fn is_category(c: Option<FileCategory>, k: FileCategory) -> (r: bool)
    ensures
        r == (c == Some(k)),
{
    match c {
        Some(x) => x == k,
        None => false,
    }
}

/// The direct conversion from `src_ext` to `target`, if there is one.
pub fn direct_conversion(src_ext: &str, target: &str) -> (r: Option<DirectKind>)
    ensures
        r == direct_route(src_ext@, target@),
{
    let sc = categorize(src_ext);
    let tc = categorize(target);
    let s_image = is_category(sc, FileCategory::Image);
    let s_audio = is_category(sc, FileCategory::Audio);
    let s_video = is_category(sc, FileCategory::Video);
    let t_image = is_category(tc, FileCategory::Image);
    let t_audio = is_category(tc, FileCategory::Audio);
    let t_video = is_category(tc, FileCategory::Video);
    if s_image && t_image {
        Some(DirectKind::Image)
    } else if (s_audio && t_audio) || (s_video && t_audio) || (s_video && t_video) || (s_audio
        && t_video) {
        Some(DirectKind::Ffmpeg)
    } else if same_text(src_ext, "txt") && same_text(target, "pdf") {
        Some(DirectKind::TextToPdf)
    } else if same_text(src_ext, "pdf") && same_text(target, "txt") {
        Some(DirectKind::PdfToText)
    } else if s_image && same_text(target, "pdf") {
        Some(DirectKind::ImageToPdf)
    } else if same_text(src_ext, "pdf") && t_image {
        Some(DirectKind::PdfToImage)
    } else {
        None
    }
}

/// The formats, in the order they are tried, through which a file of the
/// family `c` is converted when no direct conversion exists.
pub open spec fn intermediates(c: FileCategory) -> Seq<Seq<char>> {
    match c {
        FileCategory::Image => seq!["png"@, "jpg"@, "bmp"@],
        FileCategory::Audio => seq!["wav"@, "mp3"@, "flac"@],
        FileCategory::Video => seq!["mp4"@, "mkv"@],
        FileCategory::Document => seq!["txt"@, "pdf"@],
    }
}

/// The intermediate formats of a family are formats of that family, and
/// none is tried twice.
pub proof fn lemma_intermediates_in_family(c: FileCategory, i: int)
    requires
        0 <= i < intermediates(c).len(),
    ensures
        category_of(intermediates(c)[i]) == Some(c),
        forall|j: int| 0 <= j < intermediates(c).len() && j != i ==> intermediates(c)[j]
            != intermediates(c)[i],
{
    lemma_extension_spellings();
}

/// The number of intermediate formats of the family `c`.
pub fn intermediate_count(c: FileCategory) -> (r: usize)
    ensures
        r == intermediates(c).len(),
        r <= 3,
{
    match c {
        FileCategory::Image => 3,
        FileCategory::Audio => 3,
        FileCategory::Video => 2,
        FileCategory::Document => 2,
    }
}

/// The `i`-th intermediate format of the family `c`.
pub fn intermediate(c: FileCategory, i: usize) -> (r: String)
    requires
        i < intermediates(c).len(),
    ensures
        r@ == intermediates(c)[i as int],
{
    let s: &str = match c {
        FileCategory::Image => if i == 0 {
            "png"
        } else if i == 1 {
            "jpg"
        } else {
            "bmp"
        },
        FileCategory::Audio => if i == 0 {
            "wav"
        } else if i == 1 {
            "mp3"
        } else {
            "flac"
        },
        FileCategory::Video => if i == 0 {
            "mp4"
        } else {
            "mkv"
        },
        FileCategory::Document => if i == 0 {
            "txt"
        } else {
            "pdf"
        },
    };
    s.to_owned()
}

/// When the target is `jpg` or `jpeg`, images are flattened to 8-bit RGB
/// before they are written, since that format holds no transparency.
pub open spec fn flattens_to_rgb(target: Seq<char>) -> bool {
    target == "jpg"@ || target == "jpeg"@
}

/// Whether an image converted to `target` is first flattened to 8-bit RGB.
pub fn image_needs_rgb(target: &str) -> (r: bool)
    ensures
        r == flattens_to_rgb(target@),
{
    same_text(target, "jpg") || same_text(target, "jpeg")
}

} // verus!
