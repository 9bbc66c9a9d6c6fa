use duckvert::category::{categorize, FileCategory};
use duckvert::conversion::{convert, Step};
use duckvert::image_conv::{convert_image_bytes, decode_rgb8, image_kind, ImageKind};
use duckvert::layout::text_layout;
use duckvert::paths::{converted_file_name, default_output_dir, get_ext, output_path};
use duckvert::pdf_text::{join_page_texts, pdf_to_text};
use duckvert::route::{direct_conversion, image_needs_rgb, intermediate, intermediate_count, DirectKind};
use duckvert::session::{clean_input, EntryAction, PathInput, Tally};
use duckvert::text::same_text;

#[test]
fn categorize_each_family() {
    assert_eq!(categorize("jpg"), Some(FileCategory::Image));
    assert_eq!(categorize("ico"), Some(FileCategory::Image));
    assert_eq!(categorize("flac"), Some(FileCategory::Audio));
    assert_eq!(categorize("amr"), Some(FileCategory::Audio));
    assert_eq!(categorize("mkv"), Some(FileCategory::Video));
    assert_eq!(categorize("3gp"), Some(FileCategory::Video));
    assert_eq!(categorize("docx"), Some(FileCategory::Document));
    assert_eq!(categorize("pptx"), Some(FileCategory::Document));
}

#[test]
fn categorize_ogg_is_video() {
    assert_eq!(categorize("ogg"), Some(FileCategory::Video));
}

#[test]
fn categorize_unknown_and_upper_case() {
    assert_eq!(categorize("xyz"), None);
    assert_eq!(categorize(""), None);
    assert_eq!(categorize("PNG"), None);
}

#[test]
fn same_text_compares_characters() {
    assert!(same_text("abc", "abc"));
    assert!(!same_text("abc", "abd"));
    assert!(!same_text("ab", "abc"));
    assert!(same_text("", ""));
}

#[test]
fn extension_case_is_folded() {
    assert_eq!(get_ext("A.PnG"), Some("png".to_string()));
    assert_eq!(get_ext("A.JPeG"), Some("jpg".to_string()));
    assert_eq!(get_ext("A.ÄPNG"), None);
}

#[test]
fn get_ext_normalizes() {
    assert_eq!(get_ext("photos/cat.JPEG"), Some("jpg".to_string()));
    assert_eq!(get_ext("a/b/song.Mp3"), Some("mp3".to_string()));
    assert_eq!(get_ext("notes.txt"), Some("txt".to_string()));
}

#[test]
fn get_ext_rejects() {
    assert_eq!(get_ext("README"), None);
    assert_eq!(get_ext(".bashrc"), None);
    assert_eq!(get_ext("archive.xyz"), None);
    assert_eq!(get_ext("dir.png/"), Some("png".to_string()));
}

#[test]
fn direct_routes() {
    assert_eq!(direct_conversion("png", "bmp"), Some(DirectKind::Image));
    assert_eq!(direct_conversion("mp3", "wav"), Some(DirectKind::Ffmpeg));
    assert_eq!(direct_conversion("mp4", "mp3"), Some(DirectKind::Ffmpeg));
    assert_eq!(direct_conversion("mp3", "ogg"), Some(DirectKind::Ffmpeg));
    assert_eq!(direct_conversion("txt", "pdf"), Some(DirectKind::TextToPdf));
    assert_eq!(direct_conversion("pdf", "txt"), Some(DirectKind::PdfToText));
    assert_eq!(direct_conversion("gif", "pdf"), Some(DirectKind::ImageToPdf));
    assert_eq!(direct_conversion("pdf", "png"), Some(DirectKind::PdfToImage));
    assert_eq!(direct_conversion("docx", "pdf"), None);
    assert_eq!(direct_conversion("txt", "jpg"), None);
    assert_eq!(direct_conversion("wav", "png"), None);
}

#[test]
fn intermediates_per_family() {
    assert_eq!(intermediate_count(FileCategory::Image), 3);
    assert_eq!(intermediate(FileCategory::Image, 0), "png");
    assert_eq!(intermediate(FileCategory::Audio, 2), "flac");
    assert_eq!(intermediate_count(FileCategory::Video), 2);
    assert_eq!(intermediate(FileCategory::Video, 1), "mkv");
    assert_eq!(intermediate(FileCategory::Document, 1), "pdf");
}

#[test]
fn jpeg_targets_flatten() {
    assert!(image_needs_rgb("jpg"));
    assert!(image_needs_rgb("jpeg"));
    assert!(!image_needs_rgb("png"));
}

#[test]
fn converted_name_when_free() {
    let taken: Vec<String> = vec!["other.png".to_string()];
    assert_eq!(converted_file_name("cat", "png", &taken), "cat_converted.png");
}

#[test]
fn converted_name_avoids_taken_names() {
    let taken: Vec<String> = vec!["cat_converted.png".to_string()];
    assert_eq!(converted_file_name("cat", "png", &taken), "cat_converted-2.png");
    let taken: Vec<String> = vec![
        "cat_converted.png".to_string(),
        "cat_converted-2.png".to_string(),
        "cat_converted-3.png".to_string(),
    ];
    assert_eq!(converted_file_name("cat", "png", &taken), "cat_converted-4.png");
}

#[test]
fn converted_name_two_digit_suffix() {
    let mut taken: Vec<String> = vec!["a_converted.txt".to_string()];
    for n in 2..10 {
        taken.push(format!("a_converted-{n}.txt"));
    }
    assert_eq!(converted_file_name("a", "txt", &taken), "a_converted-10.txt");
}

#[test]
fn output_path_in_dir_or_beside() {
    let none: Vec<String> = Vec::new();
    assert_eq!(output_path("in/cat.png", "jpg", Some("out"), &none), "out/cat_converted.jpg");
    assert_eq!(output_path("in/cat.png", "jpg", None, &none), "in/cat_converted.jpg");
    let taken: Vec<String> = vec!["cat_converted.jpg".to_string()];
    assert_eq!(output_path("in/cat.png", "jpg", Some("out"), &taken), "out/cat_converted-2.jpg");
}

#[test]
fn default_output_dir_choices() {
    assert_eq!(default_output_dir("some/folder", true), "some/folder");
    assert_eq!(default_output_dir("some/folder/a.txt", false), "some/folder");
    assert_eq!(default_output_dir("a.txt", false), "");
    assert_eq!(default_output_dir("/", false), ".");
}

#[test]
fn layout_of_lines() {
    let places = text_layout(120);
    assert_eq!(places.len(), 120);
    assert_eq!((places[0].page, places[0].height_tenths), (0, 2800));
    assert_eq!((places[1].page, places[1].height_tenths), (0, 2755));
    assert_eq!((places[58].page, places[58].height_tenths), (0, 190));
    assert_eq!((places[59].page, places[59].height_tenths), (1, 2800));
    assert_eq!((places[118].page, places[118].height_tenths), (2, 2800));
    assert!(text_layout(0).is_empty());
}

#[test]
fn join_pages_skips_failed_pages() {
    let pages = vec![Some("one".to_string()), None, Some("three".to_string())];
    assert_eq!(join_page_texts(&pages), "one\nthree\n");
    assert_eq!(join_page_texts(&Vec::new()), "");
}

#[test]
fn pdf_to_text_rejects_garbage() {
    assert_eq!(pdf_to_text(b"this is not a pdf"), None);
}

#[test]
fn pdf_to_text_accepts_a_document() {
    let (doc, _page, _layer) =
        printpdf::PdfDocument::new("t", printpdf::Mm(210.0), printpdf::Mm(297.0), "Layer 1");
    let bytes = doc.save_to_bytes().unwrap();
    assert!(pdf_to_text(&bytes).is_some());
}

#[test]
fn pdf_to_text_gives_page_text() {
    let (doc, page, layer) =
        printpdf::PdfDocument::new("t", printpdf::Mm(210.0), printpdf::Mm(297.0), "Layer 1");
    let font = doc.add_builtin_font(printpdf::BuiltinFont::Helvetica).unwrap();
    doc.get_page(page)
        .get_layer(layer)
        .use_text("Hello", 11.0, printpdf::Mm(15.0), printpdf::Mm(280.0), &font);
    let bytes = doc.save_to_bytes().unwrap();
    let text = pdf_to_text(&bytes).unwrap();
    assert!(text.contains("Hello"));
    assert!(text.ends_with('\n'));
}

fn png_bytes() -> Vec<u8> {
    let img = image::RgbaImage::from_pixel(3, 2, image::Rgba([10, 200, 30, 128]));
    let mut out = std::io::Cursor::new(Vec::new());
    image::DynamicImage::ImageRgba8(img).write_to(&mut out, image::ImageFormat::Png).unwrap();
    out.into_inner()
}

#[test]
fn image_conversion_changes_format() {
    let png = png_bytes();
    let bmp = convert_image_bytes(&png, "pics/dot.PNG", "bmp").unwrap();
    assert_eq!(image::guess_format(&bmp).unwrap(), image::ImageFormat::Bmp);
    let jpg = convert_image_bytes(&png, "pics/dot.png", "jpg").unwrap();
    assert_eq!(image::guess_format(&jpg).unwrap(), image::ImageFormat::Jpeg);
    let back = image::load_from_memory(&jpg).unwrap();
    assert_eq!((back.width(), back.height()), (3, 2));
}

#[test]
fn decode_rgb8_gives_size_and_pixels() {
    let png = png_bytes();
    let (w, h, pixels) = decode_rgb8(&png, "pics/dot.PNG").unwrap();
    assert_eq!((w, h), (3, 2));
    assert_eq!(pixels.len(), 18);
    assert_eq!(&pixels[0..3], &[10, 200, 30]);
    assert_eq!(decode_rgb8(&png, "pics/dot.xyz"), None);
    assert_eq!(decode_rgb8(&png, "pics/dot"), None);
    assert_eq!(decode_rgb8(b"garbage", "pics/dot.png"), None);
}

#[test]
fn image_conversion_keeps_alpha_unless_jpeg() {
    let png = png_bytes();
    let same = convert_image_bytes(&png, "pics/dot.png", "png").unwrap();
    let back = image::load_from_memory(&same).unwrap();
    assert!(back.color().has_alpha());
    let jpg = convert_image_bytes(&png, "pics/dot.png", "jpeg").unwrap();
    let back = image::load_from_memory(&jpg).unwrap();
    assert!(!back.color().has_alpha());
}

#[test]
fn image_conversion_failures() {
    let png = png_bytes();
    assert_eq!(convert_image_bytes(&png, "pics/dot.xyz", "bmp"), None);
    assert_eq!(convert_image_bytes(&png, "pics/dot.png", "mp3"), None);
    assert_eq!(convert_image_bytes(b"garbage", "pics/dot.png", "bmp"), None);
    assert_eq!(convert_image_bytes(&png, "pics/dot", "bmp"), None);
}

fn expect_run(step: Step) -> duckvert::conversion::Job {
    match step {
        Step::Run(job) => job,
        Step::Finished(r) => panic!("expected a job, got the end with {:?}", r),
    }
}

fn expect_end(step: Step) -> Option<String> {
    match step {
        Step::Run(job) => panic!("expected the end, got a job for {}", job.src),
        Step::Finished(r) => r,
    }
}

#[test]
fn conversion_direct_image() {
    let mut c = convert("pics/cat.PNG", "JPG", Some("out"));
    let job = expect_run(c.advance(None));
    assert_eq!(job.kind, DirectKind::Image);
    assert_eq!(job.src, "pics/cat.PNG");
    assert_eq!(job.target, "jpg");
    assert_eq!(job.output_dir, Some("out".to_string()));
    assert_eq!(job.name, "pics/cat.PNG");
    let end = expect_end(c.advance(Some("out/cat_converted.jpg".to_string())));
    assert_eq!(end, Some("out/cat_converted.jpg".to_string()));
}

#[test]
fn conversion_target_case_is_irrelevant() {
    let mut upper = convert("pics/cat.png", "BMP", None);
    let mut lower = convert("pics/cat.png", "bmp", None);
    let a = expect_run(upper.advance(None));
    let b = expect_run(lower.advance(None));
    assert_eq!((a.kind, a.src, a.target, a.name), (b.kind, b.src, b.target, b.name));
    let ra = expect_end(upper.advance(Some("pics/cat_converted.bmp".to_string())));
    let rb = expect_end(lower.advance(Some("pics/cat_converted.bmp".to_string())));
    assert_eq!(ra, rb);
}

#[test]
fn conversion_direct_failure() {
    let mut c = convert("song.wav", "mp3", None);
    let job = expect_run(c.advance(None));
    assert_eq!(job.kind, DirectKind::Ffmpeg);
    assert_eq!(expect_end(c.advance(None)), None);
}

#[test]
fn conversion_already_in_format() {
    let mut c = convert("pics/cat.jpeg", "jpg", None);
    assert_eq!(expect_end(c.advance(None)), Some("pics/cat.jpeg".to_string()));
}

#[test]
fn conversion_unsupported_source() {
    let mut c = convert("data.xyz", "png", None);
    assert_eq!(expect_end(c.advance(None)), None);
}

#[test]
fn conversion_unsupported_target() {
    let mut c = convert("notes.txt", "xyz", None);
    assert_eq!(expect_end(c.advance(None)), None);
}

#[test]
fn conversion_through_intermediate() {
    let mut c = convert("notes.txt", "jpg", None);
    let first = expect_run(c.advance(None));
    assert_eq!(first.kind, DirectKind::TextToPdf);
    assert_eq!(first.src, "notes.txt");
    assert_eq!(first.target, "pdf");
    assert_eq!(first.name, "notes.txt");
    let second = expect_run(c.advance(Some("notes_converted.pdf".to_string())));
    assert_eq!(second.kind, DirectKind::PdfToImage);
    assert_eq!(second.src, "notes_converted.pdf");
    assert_eq!(second.target, "jpg");
    assert_eq!(second.name, "notes.txt");
    let out = output_path(&second.name, &second.target, None, &vec!["notes_converted.pdf".to_string()]);
    assert_eq!(out, "notes_converted.jpg");
    let end = expect_end(c.advance(Some(out.clone())));
    assert_eq!(end, Some(out));
}

#[test]
fn conversion_intermediate_first_leg_fails() {
    let mut c = convert("notes.txt", "jpg", None);
    let first = expect_run(c.advance(None));
    assert_eq!(first.kind, DirectKind::TextToPdf);
    assert_eq!(expect_end(c.advance(None)), None);
}

#[test]
fn conversion_without_any_route() {
    let mut c = convert("report.docx", "pdf", None);
    assert_eq!(expect_end(c.advance(None)), None);
}

#[test]
fn conversion_ends_when_every_job_fails() {
    let mut c = convert("song.wav", "png", None);
    let mut jobs = 0;
    let mut step = c.advance(None);
    loop {
        match step {
            Step::Run(job) => {
                assert_eq!(job.name, "song.wav");
                jobs += 1;
                assert!(jobs <= 462);
                step = c.advance(None);
            }
            Step::Finished(r) => {
                assert_eq!(r, None);
                break;
            }
        }
    }
    assert!(jobs >= 1);
}

#[test]
fn conversion_never_asks_the_same_job_twice() {
    let mut c = convert("clip.mp4", "txt", None);
    let mut seen: Vec<(String, String)> = Vec::new();
    let mut step = c.advance(None);
    let mut n = 0;
    while let Step::Run(job) = step {
        let key = (job.src.clone(), job.target.clone());
        assert!(!seen.contains(&key));
        seen.push(key);
        n += 1;
        let out = format!("out{n}.{}", job.target);
        step = c.advance(Some(out));
    }
}

#[test]
fn clean_input_strips_space_and_quotes() {
    assert_eq!(clean_input("  \"/tmp/my file.txt\"  \n"), "/tmp/my file.txt");
    assert_eq!(clean_input("plain\r\n"), "plain");
    assert_eq!(clean_input("\"\"\n"), "");
    assert_eq!(clean_input("\u{3000}\u{a0}\t\"a b\"\u{2003}\u{85}"), "a b");
    assert_eq!(clean_input("\u{200b}x"), "\u{200b}x");
    assert_eq!(clean_input(" \" \"x\" \" "), " \"x\" ");
}

#[test]
fn path_input_collects_until_blank_line() {
    let mut input = PathInput::new();
    assert!(input.offer(Some("\n")));
    assert!(input.offer(Some("  \"a b\"  \n")));
    assert!(input.offer(Some("c\n")));
    assert!(!input.offer(Some("\n")));
    assert!(!input.offer(Some("d\n")));
    assert_eq!(input.paths(), vec!["a b".to_string(), "c".to_string()]);
}

#[test]
fn path_input_ends_at_end_of_input() {
    let mut input = PathInput::new();
    assert!(input.offer(Some("x\n")));
    assert!(!input.offer(None));
    assert_eq!(input.paths(), vec!["x".to_string()]);
    let mut empty = PathInput::new();
    assert!(!empty.offer(None));
    assert!(empty.paths().is_empty());
}

#[test]
fn path_input_drops_quoted_blanks() {
    let mut input = PathInput::new();
    assert!(input.offer(Some("\" \"\n")));
    assert!(input.offer(Some("y\n")));
    assert_eq!(input.paths(), vec!["y".to_string()]);
}

#[test]
fn tally_counts() {
    let mut t = Tally::new();
    assert_eq!(t.observe(false, false, true), EntryAction::Ignore);
    assert_eq!(t.observe(true, true, true), EntryAction::Ignore);
    assert_eq!(t.observe(true, false, false), EntryAction::Unsupported);
    assert_eq!(t.observe(true, false, true), EntryAction::Convert);
    t.record(true);
    assert_eq!(t.observe(true, false, true), EntryAction::Convert);
    t.record(false);
    assert_eq!((t.total(), t.processed(), t.converted()), (3, 2, 1));
    let mut all = Tally::new();
    all.add(&t);
    all.add(&t);
    assert_eq!((all.total(), all.processed(), all.converted()), (6, 4, 2));
    assert!(t.can_observe(true, false, true));
    assert!(t.can_observe(false, false, true));
}

#[test]
fn image_kinds_of_extensions() {
    assert_eq!(image_kind("JFIF"), Some(ImageKind::Jpeg));
    assert_eq!(image_kind("apng"), Some(ImageKind::Png));
    assert_eq!(image_kind("Tif"), Some(ImageKind::Tiff));
    assert_eq!(image_kind("ico"), Some(ImageKind::Ico));
    assert_eq!(image_kind("tga"), None);
    assert_eq!(image_kind("pdf"), None);
}
