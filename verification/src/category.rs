//! The formats that the converter understands, and their families.
use vstd::prelude::*;
use crate::text::same_text;

verus! {

/// The family a file format belongs to.
#[derive(Debug, Clone, Copy, PartialEq, Eq, Structural)]
pub enum FileCategory {
    Image,
    Audio,
    Video,
    Document,
}

/// Image extensions.
pub open spec fn is_image_ext(e: Seq<char>) -> bool {
    e == "jpg"@ || e == "jpeg"@ || e == "png"@ || e == "bmp"@ || e == "tiff"@ || e == "tif"@
        || e == "gif"@ || e == "webp"@ || e == "ico"@
}

/// Audio extensions (`ogg` is counted as video).
pub open spec fn is_audio_ext(e: Seq<char>) -> bool {
    e == "mp3"@ || e == "wav"@ || e == "flac"@ || e == "aac"@ || e == "m4a"@ || e == "opus"@
        || e == "aiff"@ || e == "wma"@ || e == "amr"@
}

/// Video extensions.
pub open spec fn is_video_ext(e: Seq<char>) -> bool {
    e == "mp4"@ || e == "mkv"@ || e == "mov"@ || e == "avi"@ || e == "ogg"@ || e == "webm"@
        || e == "flv"@ || e == "wmv"@ || e == "m4v"@ || e == "mpeg"@ || e == "mpg"@ || e == "ts"@
        || e == "3gp"@
}

/// Document extensions.
pub open spec fn is_document_ext(e: Seq<char>) -> bool {
    e == "txt"@ || e == "pdf"@ || e == "md"@ || e == "doc"@ || e == "docx"@ || e == "rtf"@
        || e == "odt"@ || e == "xls"@ || e == "xlsx"@ || e == "ppt"@ || e == "pptx"@
}

/// The family of an extension, looked up in the order image, audio, video,
/// document; `None` for an extension that is not supported. Extensions are
/// matched exactly, so they are expected in lower case.
pub open spec fn category_of(ext: Seq<char>) -> Option<FileCategory> {
    if is_image_ext(ext) {
        Some(FileCategory::Image)
    } else if is_audio_ext(ext) {
        Some(FileCategory::Audio)
    } else if is_video_ext(ext) {
        Some(FileCategory::Video)
    } else if is_document_ext(ext) {
        Some(FileCategory::Document)
    } else {
        None
    }
}

fn image_ext(e: &str) -> (r: bool)
    ensures
        r == is_image_ext(e@),
{
    same_text(e, "jpg") || same_text(e, "jpeg") || same_text(e, "png") || same_text(e, "bmp")
        || same_text(e, "tiff") || same_text(e, "tif") || same_text(e, "gif") || same_text(
        e,
        "webp",
    ) || same_text(e, "ico")
}

fn audio_ext(e: &str) -> (r: bool)
    ensures
        r == is_audio_ext(e@),
{
    same_text(e, "mp3") || same_text(e, "wav") || same_text(e, "flac") || same_text(e, "aac")
        || same_text(e, "m4a") || same_text(e, "opus") || same_text(e, "aiff") || same_text(
        e,
        "wma",
    ) || same_text(e, "amr")
}

fn video_ext(e: &str) -> (r: bool)
    ensures
        r == is_video_ext(e@),
{
    same_text(e, "mp4") || same_text(e, "mkv") || same_text(e, "mov") || same_text(e, "avi")
        || same_text(e, "ogg") || same_text(e, "webm") || same_text(e, "flv") || same_text(
        e,
        "wmv",
    ) || same_text(e, "m4v") || same_text(e, "mpeg") || same_text(e, "mpg") || same_text(
        e,
        "ts",
    ) || same_text(e, "3gp")
}

fn document_ext(e: &str) -> (r: bool)
    ensures
        r == is_document_ext(e@),
{
    same_text(e, "txt") || same_text(e, "pdf") || same_text(e, "md") || same_text(e, "doc")
        || same_text(e, "docx") || same_text(e, "rtf") || same_text(e, "odt") || same_text(
        e,
        "xls",
    ) || same_text(e, "xlsx") || same_text(e, "ppt") || same_text(e, "pptx")
}

/// The family of the format with extension `ext`, or `None` when the
/// extension is not supported.
pub fn categorize(ext: &str) -> (r: Option<FileCategory>)
    ensures
        r == category_of(ext@),
{
    if image_ext(ext) {
        Some(FileCategory::Image)
    } else if audio_ext(ext) {
        Some(FileCategory::Audio)
    } else if video_ext(ext) {
        Some(FileCategory::Video)
    } else if document_ext(ext) {
        Some(FileCategory::Document)
    } else {
        None
    }
}

/// Every supported extension, family by family.
pub open spec fn known_exts() -> Seq<Seq<char>> {
    seq!["jpg"@, "jpeg"@, "png"@, "bmp"@, "tiff"@, "tif"@, "gif"@, "webp"@, "ico"@, "mp3"@, "wav"@, "flac"@, "aac"@, "m4a"@, "opus"@, "aiff"@, "wma"@, "amr"@, "mp4"@, "mkv"@, "mov"@, "avi"@, "ogg"@, "webm"@, "flv"@, "wmv"@, "m4v"@, "mpeg"@, "mpg"@, "ts"@, "3gp"@, "txt"@, "pdf"@, "md"@, "doc"@, "docx"@, "rtf"@, "odt"@, "xls"@, "xlsx"@, "ppt"@, "pptx"@]
}

/// The letters of each supported extension.
pub(crate) proof fn lemma_extension_spellings()
    ensures
        "jpg"@.len() == 3 && "jpg"@[0] == 'j' && "jpg"@[1] == 'p' && "jpg"@[2] == 'g',
        "jpeg"@.len() == 4 && "jpeg"@[0] == 'j' && "jpeg"@[1] == 'p' && "jpeg"@[2] == 'e' && "jpeg"@[3] == 'g',
        "png"@.len() == 3 && "png"@[0] == 'p' && "png"@[1] == 'n' && "png"@[2] == 'g',
        "bmp"@.len() == 3 && "bmp"@[0] == 'b' && "bmp"@[1] == 'm' && "bmp"@[2] == 'p',
        "tiff"@.len() == 4 && "tiff"@[0] == 't' && "tiff"@[1] == 'i' && "tiff"@[2] == 'f' && "tiff"@[3] == 'f',
        "tif"@.len() == 3 && "tif"@[0] == 't' && "tif"@[1] == 'i' && "tif"@[2] == 'f',
        "gif"@.len() == 3 && "gif"@[0] == 'g' && "gif"@[1] == 'i' && "gif"@[2] == 'f',
        "webp"@.len() == 4 && "webp"@[0] == 'w' && "webp"@[1] == 'e' && "webp"@[2] == 'b' && "webp"@[3] == 'p',
        "ico"@.len() == 3 && "ico"@[0] == 'i' && "ico"@[1] == 'c' && "ico"@[2] == 'o',
        "mp3"@.len() == 3 && "mp3"@[0] == 'm' && "mp3"@[1] == 'p' && "mp3"@[2] == '3',
        "wav"@.len() == 3 && "wav"@[0] == 'w' && "wav"@[1] == 'a' && "wav"@[2] == 'v',
        "flac"@.len() == 4 && "flac"@[0] == 'f' && "flac"@[1] == 'l' && "flac"@[2] == 'a' && "flac"@[3] == 'c',
        "aac"@.len() == 3 && "aac"@[0] == 'a' && "aac"@[1] == 'a' && "aac"@[2] == 'c',
        "m4a"@.len() == 3 && "m4a"@[0] == 'm' && "m4a"@[1] == '4' && "m4a"@[2] == 'a',
        "opus"@.len() == 4 && "opus"@[0] == 'o' && "opus"@[1] == 'p' && "opus"@[2] == 'u' && "opus"@[3] == 's',
        "aiff"@.len() == 4 && "aiff"@[0] == 'a' && "aiff"@[1] == 'i' && "aiff"@[2] == 'f' && "aiff"@[3] == 'f',
        "wma"@.len() == 3 && "wma"@[0] == 'w' && "wma"@[1] == 'm' && "wma"@[2] == 'a',
        "amr"@.len() == 3 && "amr"@[0] == 'a' && "amr"@[1] == 'm' && "amr"@[2] == 'r',
        "mp4"@.len() == 3 && "mp4"@[0] == 'm' && "mp4"@[1] == 'p' && "mp4"@[2] == '4',
        "mkv"@.len() == 3 && "mkv"@[0] == 'm' && "mkv"@[1] == 'k' && "mkv"@[2] == 'v',
        "mov"@.len() == 3 && "mov"@[0] == 'm' && "mov"@[1] == 'o' && "mov"@[2] == 'v',
        "avi"@.len() == 3 && "avi"@[0] == 'a' && "avi"@[1] == 'v' && "avi"@[2] == 'i',
        "ogg"@.len() == 3 && "ogg"@[0] == 'o' && "ogg"@[1] == 'g' && "ogg"@[2] == 'g',
        "webm"@.len() == 4 && "webm"@[0] == 'w' && "webm"@[1] == 'e' && "webm"@[2] == 'b' && "webm"@[3] == 'm',
        "flv"@.len() == 3 && "flv"@[0] == 'f' && "flv"@[1] == 'l' && "flv"@[2] == 'v',
        "wmv"@.len() == 3 && "wmv"@[0] == 'w' && "wmv"@[1] == 'm' && "wmv"@[2] == 'v',
        "m4v"@.len() == 3 && "m4v"@[0] == 'm' && "m4v"@[1] == '4' && "m4v"@[2] == 'v',
        "mpeg"@.len() == 4 && "mpeg"@[0] == 'm' && "mpeg"@[1] == 'p' && "mpeg"@[2] == 'e' && "mpeg"@[3] == 'g',
        "mpg"@.len() == 3 && "mpg"@[0] == 'm' && "mpg"@[1] == 'p' && "mpg"@[2] == 'g',
        "ts"@.len() == 2 && "ts"@[0] == 't' && "ts"@[1] == 's',
        "3gp"@.len() == 3 && "3gp"@[0] == '3' && "3gp"@[1] == 'g' && "3gp"@[2] == 'p',
        "txt"@.len() == 3 && "txt"@[0] == 't' && "txt"@[1] == 'x' && "txt"@[2] == 't',
        "pdf"@.len() == 3 && "pdf"@[0] == 'p' && "pdf"@[1] == 'd' && "pdf"@[2] == 'f',
        "md"@.len() == 2 && "md"@[0] == 'm' && "md"@[1] == 'd',
        "doc"@.len() == 3 && "doc"@[0] == 'd' && "doc"@[1] == 'o' && "doc"@[2] == 'c',
        "docx"@.len() == 4 && "docx"@[0] == 'd' && "docx"@[1] == 'o' && "docx"@[2] == 'c' && "docx"@[3] == 'x',
        "rtf"@.len() == 3 && "rtf"@[0] == 'r' && "rtf"@[1] == 't' && "rtf"@[2] == 'f',
        "odt"@.len() == 3 && "odt"@[0] == 'o' && "odt"@[1] == 'd' && "odt"@[2] == 't',
        "xls"@.len() == 3 && "xls"@[0] == 'x' && "xls"@[1] == 'l' && "xls"@[2] == 's',
        "xlsx"@.len() == 4 && "xlsx"@[0] == 'x' && "xlsx"@[1] == 'l' && "xlsx"@[2] == 's' && "xlsx"@[3] == 'x',
        "ppt"@.len() == 3 && "ppt"@[0] == 'p' && "ppt"@[1] == 'p' && "ppt"@[2] == 't',
        "pptx"@.len() == 4 && "pptx"@[0] == 'p' && "pptx"@[1] == 'p' && "pptx"@[2] == 't' && "pptx"@[3] == 'x',
{
    reveal_strlit("jpg");
    reveal_strlit("jpeg");
    reveal_strlit("png");
    reveal_strlit("bmp");
    reveal_strlit("tiff");
    reveal_strlit("tif");
    reveal_strlit("gif");
    reveal_strlit("webp");
    reveal_strlit("ico");
    reveal_strlit("mp3");
    reveal_strlit("wav");
    reveal_strlit("flac");
    reveal_strlit("aac");
    reveal_strlit("m4a");
    reveal_strlit("opus");
    reveal_strlit("aiff");
    reveal_strlit("wma");
    reveal_strlit("amr");
    reveal_strlit("mp4");
    reveal_strlit("mkv");
    reveal_strlit("mov");
    reveal_strlit("avi");
    reveal_strlit("ogg");
    reveal_strlit("webm");
    reveal_strlit("flv");
    reveal_strlit("wmv");
    reveal_strlit("m4v");
    reveal_strlit("mpeg");
    reveal_strlit("mpg");
    reveal_strlit("ts");
    reveal_strlit("3gp");
    reveal_strlit("txt");
    reveal_strlit("pdf");
    reveal_strlit("md");
    reveal_strlit("doc");
    reveal_strlit("docx");
    reveal_strlit("rtf");
    reveal_strlit("odt");
    reveal_strlit("xls");
    reveal_strlit("xlsx");
    reveal_strlit("ppt");
    reveal_strlit("pptx");
}

/// The extensions documented for each family, in the documented order.
/// `ogg`, documented both as audio and as video, counts as video.
pub open spec fn documented_exts(c: FileCategory) -> Seq<Seq<char>> {
    match c {
        FileCategory::Image => seq!["jpg"@, "jpeg"@, "png"@, "bmp"@, "tiff"@, "tif"@, "gif"@, "webp"@, "ico"@],
        FileCategory::Audio => seq!["mp3"@, "wav"@, "flac"@, "aac"@, "m4a"@, "opus"@, "aiff"@, "wma"@, "amr"@],
        FileCategory::Video => seq!["mp4"@, "mkv"@, "mov"@, "avi"@, "ogg"@, "webm"@, "flv"@, "wmv"@, "m4v"@, "mpeg"@, "mpg"@, "ts"@, "3gp"@],
        FileCategory::Document => seq!["txt"@, "pdf"@, "md"@, "doc"@, "docx"@, "rtf"@, "odt"@, "xls"@, "xlsx"@, "ppt"@, "pptx"@],
    }
}

proof fn lemma_documented_image(i: int)
    requires
        0 <= i < documented_exts(FileCategory::Image).len(),
    ensures
        category_of(documented_exts(FileCategory::Image)[i]) == Some(FileCategory::Image),
{
    lemma_extension_spellings();
    let l = documented_exts(FileCategory::Image);
    if i == 0 {
        assert(l[0] == "jpg"@);
    } else if i == 1 {
        assert(l[1] == "jpeg"@);
    } else if i == 2 {
        assert(l[2] == "png"@);
    } else if i == 3 {
        assert(l[3] == "bmp"@);
    } else if i == 4 {
        assert(l[4] == "tiff"@);
    } else if i == 5 {
        assert(l[5] == "tif"@);
    } else if i == 6 {
        assert(l[6] == "gif"@);
    } else if i == 7 {
        assert(l[7] == "webp"@);
    } else if i == 8 {
        assert(l[8] == "ico"@);
    }
}

proof fn lemma_documented_audio(i: int)
    requires
        0 <= i < documented_exts(FileCategory::Audio).len(),
    ensures
        category_of(documented_exts(FileCategory::Audio)[i]) == Some(FileCategory::Audio),
{
    lemma_extension_spellings();
    let l = documented_exts(FileCategory::Audio);
    if i == 0 {
        assert(l[0] == "mp3"@);
    } else if i == 1 {
        assert(l[1] == "wav"@);
    } else if i == 2 {
        assert(l[2] == "flac"@);
    } else if i == 3 {
        assert(l[3] == "aac"@);
    } else if i == 4 {
        assert(l[4] == "m4a"@);
    } else if i == 5 {
        assert(l[5] == "opus"@);
    } else if i == 6 {
        assert(l[6] == "aiff"@);
    } else if i == 7 {
        assert(l[7] == "wma"@);
    } else if i == 8 {
        assert(l[8] == "amr"@);
    }
}

proof fn lemma_documented_video(i: int)
    requires
        0 <= i < documented_exts(FileCategory::Video).len(),
    ensures
        category_of(documented_exts(FileCategory::Video)[i]) == Some(FileCategory::Video),
{
    lemma_extension_spellings();
    let l = documented_exts(FileCategory::Video);
    if i == 0 {
        assert(l[0] == "mp4"@);
    } else if i == 1 {
        assert(l[1] == "mkv"@);
    } else if i == 2 {
        assert(l[2] == "mov"@);
    } else if i == 3 {
        assert(l[3] == "avi"@);
    } else if i == 4 {
        assert(l[4] == "ogg"@);
    } else if i == 5 {
        assert(l[5] == "webm"@);
    } else if i == 6 {
        assert(l[6] == "flv"@);
    } else if i == 7 {
        assert(l[7] == "wmv"@);
    } else if i == 8 {
        assert(l[8] == "m4v"@);
    } else if i == 9 {
        assert(l[9] == "mpeg"@);
    } else if i == 10 {
        assert(l[10] == "mpg"@);
    } else if i == 11 {
        assert(l[11] == "ts"@);
    } else if i == 12 {
        assert(l[12] == "3gp"@);
    }
}

proof fn lemma_documented_document(i: int)
    requires
        0 <= i < documented_exts(FileCategory::Document).len(),
    ensures
        category_of(documented_exts(FileCategory::Document)[i]) == Some(FileCategory::Document),
{
    lemma_extension_spellings();
    let l = documented_exts(FileCategory::Document);
    if i == 0 {
        assert(l[0] == "txt"@);
    } else if i == 1 {
        assert(l[1] == "pdf"@);
    } else if i == 2 {
        assert(l[2] == "md"@);
    } else if i == 3 {
        assert(l[3] == "doc"@);
    } else if i == 4 {
        assert(l[4] == "docx"@);
    } else if i == 5 {
        assert(l[5] == "rtf"@);
    } else if i == 6 {
        assert(l[6] == "odt"@);
    } else if i == 7 {
        assert(l[7] == "xls"@);
    } else if i == 8 {
        assert(l[8] == "xlsx"@);
    } else if i == 9 {
        assert(l[9] == "ppt"@);
    } else if i == 10 {
        assert(l[10] == "pptx"@);
    }
}

/// Every documented extension is supported, in the family it is documented
/// under.
pub proof fn lemma_documented_families(c: FileCategory, i: int)
    requires
        0 <= i < documented_exts(c).len(),
    ensures
        category_of(documented_exts(c)[i]) == Some(c),
{
    match c {
        FileCategory::Image => lemma_documented_image(i),
        FileCategory::Audio => lemma_documented_audio(i),
        FileCategory::Video => lemma_documented_video(i),
        FileCategory::Document => lemma_documented_document(i),
    }
}

/// Only the documented extensions are supported, each in the family it is
/// documented under.
pub proof fn lemma_supported_documented(e: Seq<char>)
    ensures
        category_of(e) matches Some(c) ==> documented_exts(c).contains(e),
{
    if e == "jpg"@ {
        assert(documented_exts(FileCategory::Image)[0] == e);
    } else if e == "jpeg"@ {
        assert(documented_exts(FileCategory::Image)[1] == e);
    } else if e == "png"@ {
        assert(documented_exts(FileCategory::Image)[2] == e);
    } else if e == "bmp"@ {
        assert(documented_exts(FileCategory::Image)[3] == e);
    } else if e == "tiff"@ {
        assert(documented_exts(FileCategory::Image)[4] == e);
    } else if e == "tif"@ {
        assert(documented_exts(FileCategory::Image)[5] == e);
    } else if e == "gif"@ {
        assert(documented_exts(FileCategory::Image)[6] == e);
    } else if e == "webp"@ {
        assert(documented_exts(FileCategory::Image)[7] == e);
    } else if e == "ico"@ {
        assert(documented_exts(FileCategory::Image)[8] == e);
    } else if e == "mp3"@ {
        assert(documented_exts(FileCategory::Audio)[0] == e);
    } else if e == "wav"@ {
        assert(documented_exts(FileCategory::Audio)[1] == e);
    } else if e == "flac"@ {
        assert(documented_exts(FileCategory::Audio)[2] == e);
    } else if e == "aac"@ {
        assert(documented_exts(FileCategory::Audio)[3] == e);
    } else if e == "m4a"@ {
        assert(documented_exts(FileCategory::Audio)[4] == e);
    } else if e == "opus"@ {
        assert(documented_exts(FileCategory::Audio)[5] == e);
    } else if e == "aiff"@ {
        assert(documented_exts(FileCategory::Audio)[6] == e);
    } else if e == "wma"@ {
        assert(documented_exts(FileCategory::Audio)[7] == e);
    } else if e == "amr"@ {
        assert(documented_exts(FileCategory::Audio)[8] == e);
    } else if e == "mp4"@ {
        assert(documented_exts(FileCategory::Video)[0] == e);
    } else if e == "mkv"@ {
        assert(documented_exts(FileCategory::Video)[1] == e);
    } else if e == "mov"@ {
        assert(documented_exts(FileCategory::Video)[2] == e);
    } else if e == "avi"@ {
        assert(documented_exts(FileCategory::Video)[3] == e);
    } else if e == "ogg"@ {
        assert(documented_exts(FileCategory::Video)[4] == e);
    } else if e == "webm"@ {
        assert(documented_exts(FileCategory::Video)[5] == e);
    } else if e == "flv"@ {
        assert(documented_exts(FileCategory::Video)[6] == e);
    } else if e == "wmv"@ {
        assert(documented_exts(FileCategory::Video)[7] == e);
    } else if e == "m4v"@ {
        assert(documented_exts(FileCategory::Video)[8] == e);
    } else if e == "mpeg"@ {
        assert(documented_exts(FileCategory::Video)[9] == e);
    } else if e == "mpg"@ {
        assert(documented_exts(FileCategory::Video)[10] == e);
    } else if e == "ts"@ {
        assert(documented_exts(FileCategory::Video)[11] == e);
    } else if e == "3gp"@ {
        assert(documented_exts(FileCategory::Video)[12] == e);
    } else if e == "txt"@ {
        assert(documented_exts(FileCategory::Document)[0] == e);
    } else if e == "pdf"@ {
        assert(documented_exts(FileCategory::Document)[1] == e);
    } else if e == "md"@ {
        assert(documented_exts(FileCategory::Document)[2] == e);
    } else if e == "doc"@ {
        assert(documented_exts(FileCategory::Document)[3] == e);
    } else if e == "docx"@ {
        assert(documented_exts(FileCategory::Document)[4] == e);
    } else if e == "rtf"@ {
        assert(documented_exts(FileCategory::Document)[5] == e);
    } else if e == "odt"@ {
        assert(documented_exts(FileCategory::Document)[6] == e);
    } else if e == "xls"@ {
        assert(documented_exts(FileCategory::Document)[7] == e);
    } else if e == "xlsx"@ {
        assert(documented_exts(FileCategory::Document)[8] == e);
    } else if e == "ppt"@ {
        assert(documented_exts(FileCategory::Document)[9] == e);
    } else if e == "pptx"@ {
        assert(documented_exts(FileCategory::Document)[10] == e);
    }
}

/// A supported extension is one of `known_exts()`.
pub proof fn lemma_known_ext(e: Seq<char>)
    requires
        category_of(e) is Some,
    ensures
        known_exts().contains(e),
{
    let k = known_exts();
    assert(k.len() == 42);
    assert(k[0] == "jpg"@);
    assert(k[1] == "jpeg"@);
    assert(k[2] == "png"@);
    assert(k[3] == "bmp"@);
    assert(k[4] == "tiff"@);
    assert(k[5] == "tif"@);
    assert(k[6] == "gif"@);
    assert(k[7] == "webp"@);
    assert(k[8] == "ico"@);
    assert(k[9] == "mp3"@);
    assert(k[10] == "wav"@);
    assert(k[11] == "flac"@);
    assert(k[12] == "aac"@);
    assert(k[13] == "m4a"@);
    assert(k[14] == "opus"@);
    assert(k[15] == "aiff"@);
    assert(k[16] == "wma"@);
    assert(k[17] == "amr"@);
    assert(k[18] == "mp4"@);
    assert(k[19] == "mkv"@);
    assert(k[20] == "mov"@);
    assert(k[21] == "avi"@);
    assert(k[22] == "ogg"@);
    assert(k[23] == "webm"@);
    assert(k[24] == "flv"@);
    assert(k[25] == "wmv"@);
    assert(k[26] == "m4v"@);
    assert(k[27] == "mpeg"@);
    assert(k[28] == "mpg"@);
    assert(k[29] == "ts"@);
    assert(k[30] == "3gp"@);
    assert(k[31] == "txt"@);
    assert(k[32] == "pdf"@);
    assert(k[33] == "md"@);
    assert(k[34] == "doc"@);
    assert(k[35] == "docx"@);
    assert(k[36] == "rtf"@);
    assert(k[37] == "odt"@);
    assert(k[38] == "xls"@);
    assert(k[39] == "xlsx"@);
    assert(k[40] == "ppt"@);
    assert(k[41] == "pptx"@);
}

} // verus!
