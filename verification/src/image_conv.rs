//! Conversion of an image from one image format to another.
//!
//! The image crate is built here with the codecs of the supported image
//! formats only (JPEG, PNG, GIF, WebP, TIFF, BMP, ICO): for every other
//! format it knows, both decoding and encoding fail at once.
use vstd::prelude::*;
use crate::paths::{extension, path_extension};
use crate::route::{flattens_to_rgb, image_needs_rgb};
use crate::category::{FileCategory, category_of, lemma_extension_spellings};
use crate::text::{ascii_lowercase, same_text, to_ascii_lowercase};

verus! {

/// The image formats whose codecs are built in.
#[derive(Debug, Clone, Copy, PartialEq, Eq, Structural)]
pub enum ImageKind {
    Jpeg,
    Png,
    Gif,
    WebP,
    Tiff,
    Bmp,
    Ico,
}

/// The format that an extension names, in the way of
/// `image::ImageFormat::from_extension` (the extension is read in lower
/// case), for the formats whose codecs are built in.
pub open spec fn image_kind_of(ext: Seq<char>) -> Option<ImageKind> {
    let e = ascii_lowercase(ext);
    if e == "jpg"@ || e == "jpeg"@ || e == "jfif"@ {
        Some(ImageKind::Jpeg)
    } else if e == "png"@ || e == "apng"@ {
        Some(ImageKind::Png)
    } else if e == "gif"@ {
        Some(ImageKind::Gif)
    } else if e == "webp"@ {
        Some(ImageKind::WebP)
    } else if e == "tif"@ || e == "tiff"@ {
        Some(ImageKind::Tiff)
    } else if e == "bmp"@ {
        Some(ImageKind::Bmp)
    } else if e == "ico"@ {
        Some(ImageKind::Ico)
    } else {
        None
    }
}

/// The extensions under which the image crate writes each format
/// (`ImageFormat::extensions_str`), for the formats whose codecs are built in.
pub open spec fn kind_extensions(k: ImageKind) -> Seq<Seq<char>> {
    match k {
        ImageKind::Png => seq!["png"@],
        ImageKind::Jpeg => seq!["jpg"@, "jpeg"@],
        ImageKind::Gif => seq!["gif"@],
        ImageKind::WebP => seq!["webp"@],
        ImageKind::Tiff => seq!["tiff"@, "tif"@],
        ImageKind::Bmp => seq!["bmp"@],
        ImageKind::Ico => seq!["ico"@],
    }
}

proof fn lemma_lowercase_fixed(s: Seq<char>)
    requires
        s.len() <= 4,
        s.len() > 0 ==> !('A' <= s[0] <= 'Z'),
        s.len() > 1 ==> !('A' <= s[1] <= 'Z'),
        s.len() > 2 ==> !('A' <= s[2] <= 'Z'),
        s.len() > 3 ==> !('A' <= s[3] <= 'Z'),
    ensures
        ascii_lowercase(s) == s,
{
    assert forall|i: int| 0 <= i < s.len() implies ascii_lowercase(s)[i] == s[i] by {
        if i == 0 {
        } else if i == 1 {
        } else if i == 2 {
        } else {
        }
    }
    assert(ascii_lowercase(s) =~= s);
}

/// The spellings of the image extensions, and of the other extensions that
/// the image crate reads as JPEG and PNG.
proof fn lemma_image_spellings()
    ensures
        "jfif"@.len() == 4 && "jfif"@[0] == 'j' && "jfif"@[1] == 'f' && "jfif"@[2] == 'i'
            && "jfif"@[3] == 'f',
        "apng"@.len() == 4 && "apng"@[0] == 'a' && "apng"@[1] == 'p' && "apng"@[2] == 'n'
            && "apng"@[3] == 'g',
{
    reveal_strlit("jfif");
    reveal_strlit("apng");
}

/// Each built-in format is read back from each of its own extensions: an
/// extension names its format, whatever the case of its letters.
pub proof fn lemma_kind_extensions(k: ImageKind, i: int)
    requires
        0 <= i < kind_extensions(k).len(),
    ensures
        image_kind_of(kind_extensions(k)[i]) == Some(k),
        image_kind_of(ascii_lowercase(kind_extensions(k)[i])) == Some(k),
{
    lemma_extension_spellings();
    lemma_image_spellings();
    lemma_lowercase_fixed("png"@);
    lemma_lowercase_fixed("jpg"@);
    lemma_lowercase_fixed("jpeg"@);
    lemma_lowercase_fixed("gif"@);
    lemma_lowercase_fixed("webp"@);
    lemma_lowercase_fixed("tiff"@);
    lemma_lowercase_fixed("tif"@);
    lemma_lowercase_fixed("bmp"@);
    lemma_lowercase_fixed("ico"@);
}

/// Every supported image extension names a format whose codec is built in,
/// and that format counts the extension among its own.
pub proof fn lemma_image_ext_kind(e: Seq<char>)
    requires
        category_of(e) == Some(FileCategory::Image),
    ensures
        image_kind_of(e) matches Some(k) && kind_extensions(k).contains(e),
{
    lemma_extension_spellings();
    lemma_image_spellings();
    lemma_lowercase_fixed("png"@);
    lemma_lowercase_fixed("jpg"@);
    lemma_lowercase_fixed("jpeg"@);
    lemma_lowercase_fixed("gif"@);
    lemma_lowercase_fixed("webp"@);
    lemma_lowercase_fixed("tiff"@);
    lemma_lowercase_fixed("tif"@);
    lemma_lowercase_fixed("bmp"@);
    lemma_lowercase_fixed("ico"@);
    if e == "png"@ {
        assert(kind_extensions(ImageKind::Png)[0] == e);
    } else if e == "jpg"@ {
        assert(kind_extensions(ImageKind::Jpeg)[0] == e);
    } else if e == "jpeg"@ {
        assert(kind_extensions(ImageKind::Jpeg)[1] == e);
    } else if e == "gif"@ {
        assert(kind_extensions(ImageKind::Gif)[0] == e);
    } else if e == "webp"@ {
        assert(kind_extensions(ImageKind::WebP)[0] == e);
    } else if e == "tiff"@ {
        assert(kind_extensions(ImageKind::Tiff)[0] == e);
    } else if e == "tif"@ {
        assert(kind_extensions(ImageKind::Tiff)[1] == e);
    } else if e == "bmp"@ {
        assert(kind_extensions(ImageKind::Bmp)[0] == e);
    } else if e == "ico"@ {
        assert(kind_extensions(ImageKind::Ico)[0] == e);
    }
}

/// Among the supported image formats, an image is flattened to RGB exactly
/// when the target is written as JPEG.
pub proof fn lemma_flatten_exactly_for_jpeg(t: Seq<char>)
    requires
        category_of(t) == Some(FileCategory::Image),
    ensures
        flattens_to_rgb(t) <==> image_kind_of(t) == Some(ImageKind::Jpeg),
{
    lemma_image_ext_kind(t);
    lemma_extension_spellings();
}

/// The image format that the extension `ext` names, if its codec is built in.
pub fn image_kind(ext: &str) -> (r: Option<ImageKind>)
    ensures
        r == image_kind_of(ext@),
{
    let lower = to_ascii_lowercase(ext);
    let e = lower.as_str();
    if same_text(e, "jpg") || same_text(e, "jpeg") || same_text(e, "jfif") {
        Some(ImageKind::Jpeg)
    } else if same_text(e, "png") || same_text(e, "apng") {
        Some(ImageKind::Png)
    } else if same_text(e, "gif") {
        Some(ImageKind::Gif)
    } else if same_text(e, "webp") {
        Some(ImageKind::WebP)
    } else if same_text(e, "tif") || same_text(e, "tiff") {
        Some(ImageKind::Tiff)
    } else if same_text(e, "bmp") {
        Some(ImageKind::Bmp)
    } else if same_text(e, "ico") {
        Some(ImageKind::Ico)
    } else {
        None
    }
}

/// The view of optional bytes.
pub open spec fn opt_bytes(r: Option<Vec<u8>>) -> Option<Seq<u8>> {
    match r {
        Some(v) => Some(v@),
        None => None,
    }
}

/// What the image crate makes of `bytes` when it decodes them in the format
/// `from` (`image::load_from_memory_with_format`), flattens the image to
/// 8-bit RGB when `rgb` holds (`DynamicImage::to_rgb8`), and encodes it in
/// the format `to` (`DynamicImage::write_to`): the encoded bytes, or `None`
/// when decoding or encoding fails.
pub uninterp spec fn image_transcoded(bytes: Seq<u8>, from: ImageKind, to: ImageKind, rgb: bool) -> Option<Seq<u8>>;

/// `image::load_from_memory_with_format` in the format `from`, then
/// `DynamicImage::write_to` in the format `to`. The result is named by
/// `image_transcoded` (without flattening).
#[verifier::external_body]
fn transcode_image(bytes: &[u8], from: ImageKind, to: ImageKind) -> (r: Option<Vec<u8>>)
    ensures
        opt_bytes(r) == image_transcoded(bytes@, from, to, false),
{
    let format = |k: ImageKind| match k {
        ImageKind::Jpeg => image::ImageFormat::Jpeg,
        ImageKind::Png => image::ImageFormat::Png,
        ImageKind::Gif => image::ImageFormat::Gif,
        ImageKind::WebP => image::ImageFormat::WebP,
        ImageKind::Tiff => image::ImageFormat::Tiff,
        ImageKind::Bmp => image::ImageFormat::Bmp,
        ImageKind::Ico => image::ImageFormat::Ico,
    };
    let img = image::load_from_memory_with_format(bytes, format(from)).ok()?;
    let mut out = std::io::Cursor::new(Vec::new());
    img.write_to(&mut out, format(to)).ok()?;
    Some(out.into_inner())
}

/// `image::load_from_memory_with_format` in the format `from`, then
/// `DynamicImage::to_rgb8`, then `DynamicImage::write_to` in the format `to`.
/// The result is named by `image_transcoded` (with flattening).
#[verifier::external_body]
fn transcode_image_rgb8(bytes: &[u8], from: ImageKind, to: ImageKind) -> (r: Option<Vec<u8>>)
    ensures
        opt_bytes(r) == image_transcoded(bytes@, from, to, true),
{
    let format = |k: ImageKind| match k {
        ImageKind::Jpeg => image::ImageFormat::Jpeg,
        ImageKind::Png => image::ImageFormat::Png,
        ImageKind::Gif => image::ImageFormat::Gif,
        ImageKind::WebP => image::ImageFormat::WebP,
        ImageKind::Tiff => image::ImageFormat::Tiff,
        ImageKind::Bmp => image::ImageFormat::Bmp,
        ImageKind::Ico => image::ImageFormat::Ico,
    };
    let img = image::load_from_memory_with_format(bytes, format(from)).ok()?;
    let img = image::DynamicImage::ImageRgb8(img.to_rgb8());
    let mut out = std::io::Cursor::new(Vec::new());
    img.write_to(&mut out, format(to)).ok()?;
    Some(out.into_inner())
}

/// What the image crate makes of `bytes` when it decodes them in the format
/// `kind` and converts the image to 8-bit RGB: the width, the height and the
/// pixels (three bytes each, row by row), or `None` when decoding fails.
pub uninterp spec fn image_rgb8(bytes: Seq<u8>, kind: ImageKind) -> Option<(u32, u32, Seq<u8>)>;

/// The view of an optional decoded image.
pub open spec fn opt_rgb8(r: Option<(u32, u32, Vec<u8>)>) -> Option<(u32, u32, Seq<u8>)> {
    match r {
        Some((w, h, px)) => Some((w, h, px@)),
        None => None,
    }
}

/// `image::load_from_memory_with_format` in the format `kind`, then
/// `DynamicImage::to_rgb8`, `ImageBuffer::dimensions` and
/// `ImageBuffer::into_raw`. The result is named by `image_rgb8`.
#[verifier::external_body]
fn rgb8_pixels(bytes: &[u8], kind: ImageKind) -> (r: Option<(u32, u32, Vec<u8>)>)
    ensures
        opt_rgb8(r) == image_rgb8(bytes@, kind),
{
    let format = match kind {
        ImageKind::Jpeg => image::ImageFormat::Jpeg,
        ImageKind::Png => image::ImageFormat::Png,
        ImageKind::Gif => image::ImageFormat::Gif,
        ImageKind::WebP => image::ImageFormat::WebP,
        ImageKind::Tiff => image::ImageFormat::Tiff,
        ImageKind::Bmp => image::ImageFormat::Bmp,
        ImageKind::Ico => image::ImageFormat::Ico,
    };
    let img = image::load_from_memory_with_format(bytes, format).ok()?.to_rgb8();
    let (w, h) = img.dimensions();
    Some((w, h, img.into_raw()))
}

/// The formats between which an image read from `src_path` is converted to
/// `target`: the one that the extension of the path names, and the one that
/// the target names; `None` when either has no codec built in.
pub open spec fn image_conversion_kinds(src_path: Seq<char>, target: Seq<char>) -> Option<(ImageKind, ImageKind)> {
    match path_extension(src_path) {
        Some(e) => match (image_kind_of(e), image_kind_of(target)) {
            (Some(a), Some(b)) => Some((a, b)),
            _ => None,
        },
        None => None,
    }
}

/// The format that the extension of `src_path` names, if its codec is built in.
pub open spec fn source_kind(src_path: Seq<char>) -> Option<ImageKind> {
    match path_extension(src_path) {
        Some(e) => image_kind_of(e),
        None => None,
    }
}

/// The image read from `src_path` that `bytes` hold, converted to `target`.
pub open spec fn image_converted(bytes: Seq<u8>, src_path: Seq<char>, target: Seq<char>) -> Option<Seq<u8>> {
    match image_conversion_kinds(src_path, target) {
        Some((a, b)) => image_transcoded(bytes, a, b, flattens_to_rgb(target)),
        None => None,
    }
}

/// Converts the image held by `bytes`, read from the file `src_path` (whose
/// extension tells its format), to the format `target`: decoded in the
/// format of the source, flattened to 8-bit RGB when the target is `jpg` or
/// `jpeg`, and encoded in the target format. `None` when a format has no
/// codec, or when decoding or encoding fails.
pub fn convert_image_bytes(bytes: &[u8], src_path: &str, target: &str) -> (r: Option<Vec<u8>>)
    ensures
        opt_bytes(r) == image_converted(bytes@, src_path@, target@),
{
    let ext = match extension(src_path) {
        Some(e) => e,
        None => return None,
    };
    let in_kind = match image_kind(ext.as_str()) {
        Some(k) => k,
        None => return None,
    };
    let out_kind = match image_kind(target) {
        Some(k) => k,
        None => return None,
    };
    if image_needs_rgb(target) {
        transcode_image_rgb8(bytes, in_kind, out_kind)
    } else {
        transcode_image(bytes, in_kind, out_kind)
    }
}

/// Decodes the image held by `bytes`, read from the file `src_path` (whose
/// extension tells its format), as 8-bit RGB: its width, its height and its
/// pixels. `None` when the format has no codec or decoding fails.
pub fn decode_rgb8(bytes: &[u8], src_path: &str) -> (r: Option<(u32, u32, Vec<u8>)>)
    ensures
        opt_rgb8(r) == match source_kind(src_path@) {
            Some(k) => image_rgb8(bytes@, k),
            None => None,
        },
{
    let ext = match extension(src_path) {
        Some(e) => e,
        None => return None,
    };
    match image_kind(ext.as_str()) {
        Some(k) => rgb8_pixels(bytes, k),
        None => None,
    }
}

} // verus!
