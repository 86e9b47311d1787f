use archive_transcode::config::ArchiveType;
use archive_transcode::config::Config;
use archive_transcode::config::PlainFormat;
use archive_transcode::config::PngCompression;
use archive_transcode::config::PngFilter;
use archive_transcode::config::PnmForm;
use archive_transcode::config::SourceFormat;
use archive_transcode::config::TargetFormat;
use archive_transcode::budget::entry_budget;
use archive_transcode::error::Error;
use archive_transcode::listing::select_entries;
use archive_transcode::job::FileJob;
use archive_transcode::job::Step;
use archive_transcode::transcode::after_decoding;
use archive_transcode::transcode::after_encoding;
use archive_transcode::transcode::convert_entry;
use archive_transcode::transcode::decide;
use archive_transcode::transcode::encoder_for;
use archive_transcode::transcode::is_text_kind;
use archive_transcode::transcode::plan;
use archive_transcode::transcode::reencode;
use archive_transcode::transcode::transcode;
use archive_transcode::transcode::Encoder;
use archive_transcode::transcode::Plan;
use archive_transcode::transcode::Skip;
use archive_transcode::transcode::Transcoded;
use image::DynamicImage;
use image::GenericImageView;
use image::ImageBuffer;
use image::ImageOutputFormat;
use image::Rgb;
use image::RgbImage;
use std::io::Cursor;

fn config(format: TargetFormat) -> Config {
    Config {
        format,
        quality: 80,
        lossless: false,
        speed: 3,
        jobs: 4,
        archive: ArchiveType::Cbz,
        force: false,
    }
}

fn picture(width: u32, height: u32) -> DynamicImage {
    DynamicImage::ImageRgb8(RgbImage::from_fn(width, height, |x, y| {
        Rgb([(x * 16) as u8, (y * 32) as u8, ((x + y) * 8) as u8])
    }))
}

fn encoded(image: &DynamicImage, format: ImageOutputFormat) -> Vec<u8> {
    let mut out = Vec::new();
    image.write_to(&mut Cursor::new(&mut out), format).unwrap();
    out
}

fn png() -> Vec<u8> {
    encoded(&picture(8, 6), ImageOutputFormat::Png)
}

fn copied(done: Result<Transcoded, Error>) -> (String, Vec<u8>, Skip) {
    match done {
        Ok(Transcoded::Copied { name, data, reason }) => (name, data, reason),
        other => panic!("not copied: {other:?}"),
    }
}

fn converted(done: Result<Transcoded, Error>) -> (String, Vec<u8>) {
    match done {
        Ok(Transcoded::Encoded { name, data }) => (name, data),
        other => panic!("not encoded: {other:?}"),
    }
}

#[test]
fn text_kinds() {
    for ext in ["txt", "md", "xml", "html", "svg", "info", "json", "yml", "yaml"] {
        assert!(is_text_kind(ext), "{ext}");
    }
    for ext in ["TXT", "png", "", "text", "htm", "jsonl", "yamll"] {
        assert!(!is_text_kind(ext), "{ext}");
    }
}

#[test]
fn decisions() {
    let png = TargetFormat::Png;
    assert_eq!(decide(Some("txt"), None, &png), Plan::Copy(Skip::Text));
    assert_eq!(decide(Some("svg"), Some(SourceFormat::Png), &png), Plan::Copy(Skip::Text));
    assert_eq!(decide(Some("png"), Some(SourceFormat::Png), &png), Plan::Copy(Skip::SameFormat));
    assert_eq!(
        decide(Some("webp"), Some(SourceFormat::WebP), &png),
        Plan::Copy(Skip::AlreadyEfficient)
    );
    assert_eq!(
        decide(Some("avif"), Some(SourceFormat::Avif), &png),
        Plan::Copy(Skip::AlreadyEfficient)
    );
    assert_eq!(
        decide(Some("webp"), Some(SourceFormat::WebP), &TargetFormat::WebP),
        Plan::Copy(Skip::SameFormat)
    );
    assert_eq!(
        decide(Some("jpg"), Some(SourceFormat::Jpeg), &png),
        Plan::Convert(Some(SourceFormat::Jpeg))
    );
    assert_eq!(
        decide(Some("jpg"), Some(SourceFormat::Jpeg), &TargetFormat::Jpeg(30)),
        Plan::Copy(Skip::SameFormat)
    );
    assert_eq!(decide(Some("bin"), None, &png), Plan::Convert(None));
    assert_eq!(decide(None, None, &png), Plan::Convert(None));
}

#[test]
fn plans_by_name() {
    let avif = TargetFormat::Avif;
    assert_eq!(plan(&avif, "book/notes.txt"), Plan::Copy(Skip::Text));
    assert_eq!(plan(&avif, "book/NOTES.TXT"), Plan::Copy(Skip::Text));
    assert_eq!(plan(&avif, "book/info.Yaml"), Plan::Copy(Skip::Text));
    assert_eq!(plan(&avif, "book/p.avif"), Plan::Copy(Skip::SameFormat));
    assert_eq!(plan(&avif, "book/p.webp"), Plan::Copy(Skip::AlreadyEfficient));
    assert_eq!(plan(&avif, "book/p.png"), Plan::Convert(Some(SourceFormat::Png)));
    assert_eq!(plan(&avif, "book/p.JPG"), Plan::Convert(Some(SourceFormat::Jpeg)));
    assert_eq!(plan(&avif, "book/p.jpeg"), Plan::Convert(Some(SourceFormat::Jpeg)));
    assert_eq!(plan(&avif, "book/p"), Plan::Convert(None));
    assert_eq!(plan(&avif, "book/p.xyz"), Plan::Convert(None));
    assert_eq!(plan(&avif, "book.png/p"), Plan::Convert(None));
}

#[test]
fn every_extension_is_recognised_as_its_format() {
    let target = TargetFormat::Avif;
    let table = [
        ("jpg", SourceFormat::Jpeg), ("jpeg", SourceFormat::Jpeg), ("png", SourceFormat::Png),
        ("gif", SourceFormat::Gif), ("tif", SourceFormat::Tiff), ("tiff", SourceFormat::Tiff),
        ("tga", SourceFormat::Tga), ("dds", SourceFormat::Dds), ("bmp", SourceFormat::Bmp),
        ("ico", SourceFormat::Ico), ("hdr", SourceFormat::Hdr), ("exr", SourceFormat::OpenExr),
        ("pbm", SourceFormat::Pnm), ("pam", SourceFormat::Pnm), ("ppm", SourceFormat::Pnm),
        ("pgm", SourceFormat::Pnm), ("ff", SourceFormat::Farbfeld),
        ("farbfeld", SourceFormat::Farbfeld), ("qoi", SourceFormat::Qoi),
    ];
    for (ext, format) in table {
        assert_eq!(plan(&target, &format!("a.{ext}")), Plan::Convert(Some(format)), "{ext}");
        let upper = ext.to_uppercase();
        assert_eq!(plan(&target, &format!("a.{upper}")), Plan::Convert(Some(format)), "{upper}");
    }
    assert_eq!(plan(&TargetFormat::Png, "a.avif"), Plan::Copy(Skip::AlreadyEfficient));
    assert_eq!(plan(&TargetFormat::Png, "a.webp"), Plan::Copy(Skip::AlreadyEfficient));
    for ext in ["jp", "pngg", "openexr", "pnm", "Ｐng", ""] {
        assert_eq!(plan(&target, &format!("a.{ext}")), Plan::Convert(None), "{ext}");
    }
}

#[test]
fn encoders() {
    let mut cfg = config(TargetFormat::Avif);
    assert_eq!(encoder_for(&cfg), Encoder::Avif { speed: 3, quality: 80 });
    cfg.format = TargetFormat::WebP;
    assert_eq!(encoder_for(&cfg), Encoder::WebPLossy(80));
    cfg.lossless = true;
    assert_eq!(encoder_for(&cfg), Encoder::WebPLossless);
    cfg.format = TargetFormat::Png;
    assert_eq!(
        encoder_for(&cfg),
        Encoder::Png { compression: PngCompression::Best, filter: PngFilter::Adaptive }
    );
    cfg.format = TargetFormat::Pnm;
    assert_eq!(encoder_for(&cfg), Encoder::Pnm(PnmForm::ArbitraryMap));
    cfg.format = TargetFormat::Jpeg(100);
    assert_eq!(encoder_for(&cfg), Encoder::Plain(PlainFormat::Jpeg(80)));
    cfg.quality = 200;
    assert_eq!(encoder_for(&cfg), Encoder::Plain(PlainFormat::Jpeg(100)));
    cfg.format = TargetFormat::Bmp;
    assert_eq!(encoder_for(&cfg), Encoder::Plain(PlainFormat::Bmp));
    cfg.format = TargetFormat::OpenExr;
    assert_eq!(encoder_for(&cfg), Encoder::OpenExr);
}

#[test]
fn text_is_copied_whatever_it_holds() {
    let cfg = config(TargetFormat::Bmp);
    let (name, data, reason) = copied(transcode(&cfg, png(), "book/notes.TXT"));
    assert_eq!(name, "book/notes.TXT");
    assert_eq!(data, png());
    assert_eq!(reason, Skip::Text);
    let (name, data, reason) = copied(transcode(&cfg, vec![1, 2, 3], "readme.md"));
    assert_eq!((name.as_str(), data, reason), ("readme.md", vec![1, 2, 3], Skip::Text));
}

#[test]
fn entry_in_the_target_format_is_copied() {
    let cfg = config(TargetFormat::Png);
    let (name, data, reason) = copied(transcode(&cfg, png(), "book/page1.png"));
    assert_eq!(name, "page1.png");
    assert_eq!(data, png());
    assert_eq!(reason, Skip::SameFormat);
    let (name, data, reason) = copied(transcode(&cfg, vec![0, 1], "book/page2.PNG"));
    assert_eq!((name.as_str(), data, reason), ("page2.PNG", vec![0, 1], Skip::SameFormat));
}

#[test]
fn jpeg_entry_is_copied_for_any_jpeg_quality() {
    let jpeg = encoded(&picture(8, 6), ImageOutputFormat::Jpeg(90));
    for quality in [1, 75, 100] {
        let mut cfg = config(TargetFormat::Jpeg(100));
        cfg.quality = quality;
        let (name, data, reason) = copied(transcode(&cfg, jpeg.clone(), "a/b/c.jpg"));
        assert_eq!((name.as_str(), &data, reason), ("c.jpg", &jpeg, Skip::SameFormat));
    }
}

#[test]
fn efficient_entry_is_copied() {
    let cfg = config(TargetFormat::Png);
    let (name, data, reason) = copied(transcode(&cfg, vec![9, 9], "book/page1.webp"));
    assert_eq!((name.as_str(), data, reason), ("page1.webp", vec![9, 9], Skip::AlreadyEfficient));
    let (name, _, reason) = copied(transcode(&cfg, vec![9, 9], "book/page1.avif"));
    assert_eq!((name.as_str(), reason), ("page1.avif", Skip::AlreadyEfficient));
}

#[test]
fn undecodable_entry_is_copied_under_its_whole_name() {
    let cfg = config(TargetFormat::Bmp);
    let (name, data, reason) = copied(transcode(&cfg, vec![1, 2, 3], "book/page1.png"));
    assert_eq!((name.as_str(), data, reason), ("book/page1.png", vec![1, 2, 3], Skip::Undecodable));
    let (name, data, reason) = copied(transcode(&cfg, vec![1, 2, 3], "book/page1"));
    assert_eq!((name.as_str(), data, reason), ("book/page1", vec![1, 2, 3], Skip::Undecodable));
    let (name, _, reason) = copied(transcode(&cfg, png(), "book/page1.jpg"));
    assert_eq!((name.as_str(), reason), ("book/page1.jpg", Skip::Undecodable));
}

#[test]
fn png_becomes_bmp_under_its_file_name() {
    let cfg = config(TargetFormat::Bmp);
    let (name, data) = converted(transcode(&cfg, png(), "book/page1.png"));
    assert_eq!(name, "page1.bmp");
    assert_eq!(image::guess_format(&data).unwrap(), image::ImageFormat::Bmp);
    let back = image::load_from_memory(&data).unwrap();
    assert_eq!(back.dimensions(), (8, 6));
    assert_eq!(back.to_rgb8(), picture(8, 6).to_rgb8());
}

#[test]
fn unknown_extension_is_decoded_by_its_content() {
    let cfg = config(TargetFormat::Bmp);
    let (name, data) = converted(transcode(&cfg, png(), "book/page1.bin"));
    assert_eq!(name, "page1.bmp");
    assert_eq!(image::guess_format(&data).unwrap(), image::ImageFormat::Bmp);
    let (name, _) = converted(transcode(&cfg, png(), "book/page2"));
    assert_eq!(name, "page2.bmp");
}

#[test]
fn targets_of_their_own_encoders() {
    let bmp = encoded(&picture(8, 6), ImageOutputFormat::Bmp);
    let (name, data) = converted(transcode(&config(TargetFormat::Png), bmp.clone(), "p/a.bmp"));
    assert_eq!(name, "a.png");
    assert_eq!(image::guess_format(&data).unwrap(), image::ImageFormat::Png);
    assert_eq!(image::load_from_memory(&data).unwrap().to_rgb8(), picture(8, 6).to_rgb8());

    let mut cfg = config(TargetFormat::WebP);
    cfg.lossless = true;
    let (name, data) = converted(transcode(&cfg, bmp.clone(), "p/a.bmp"));
    assert_eq!(name, "a.webp");
    assert_eq!(image::guess_format(&data).unwrap(), image::ImageFormat::WebP);
    assert_eq!(image::load_from_memory(&data).unwrap().to_rgb8(), picture(8, 6).to_rgb8());

}

#[test]
fn webp_with_loss_is_left_to_the_caller() {
    let mut cfg = config(TargetFormat::WebP);
    cfg.quality = 5;
    let bmp = encoded(&picture(8, 6), ImageOutputFormat::Bmp);
    match transcode(&cfg, bmp, "p/a.bmp") {
        Ok(Transcoded::Decoded { name, image, encoder }) => {
            assert_eq!(name, "a.webp");
            assert_eq!(image.to_rgb8(), picture(8, 6).to_rgb8());
            assert_eq!(encoder, Encoder::WebPLossy(5));
        }
        other => panic!("not decoded: {other:?}"),
    }
    let wide = DynamicImage::ImageRgb8(ImageBuffer::from_raw(16384, 1, vec![0u8; 16384 * 3]).unwrap());
    match reencode(&cfg, "wide.png", wide) {
        Ok(Transcoded::Decoded { name, image, encoder }) => {
            assert_eq!(name, "wide.webp");
            assert_eq!(image.dimensions(), (16384, 1));
            assert_eq!(encoder, Encoder::WebPLossy(5));
        }
        other => panic!("not decoded: {other:?}"),
    }
}

#[test]
fn jpeg_is_written_with_the_configured_quality() {
    let source = encoded(&picture(64, 48), ImageOutputFormat::Png);
    let mut cfg = config(TargetFormat::Jpeg(100));
    cfg.quality = 10;
    let (name, low) = converted(transcode(&cfg, source.clone(), "a.png"));
    assert_eq!(name, "a.jpeg");
    assert_eq!(image::guess_format(&low).unwrap(), image::ImageFormat::Jpeg);
    cfg.quality = 100;
    let (_, high) = converted(transcode(&cfg, source.clone(), "a.png"));
    assert!(low.len() < high.len());
    assert_eq!(high, encoded(&picture(64, 48), ImageOutputFormat::Jpeg(100)));
    cfg.quality = 250;
    let (_, capped) = converted(transcode(&cfg, source, "a.png"));
    assert_eq!(capped, high);
}

#[test]
fn other_targets_are_written_by_the_codec() {
    for (format, expected, ext) in [
        (TargetFormat::Gif, image::ImageFormat::Gif, "gif"),
        (TargetFormat::Tiff, image::ImageFormat::Tiff, "tiff"),
        (TargetFormat::Qoi, image::ImageFormat::Qoi, "qoi"),
        (TargetFormat::Ico, image::ImageFormat::Ico, "ico"),
        (TargetFormat::Pnm, image::ImageFormat::Pnm, "pnm"),
    ] {
        let (name, data) = converted(transcode(&config(format), png(), "p/a.png"));
        assert_eq!(name, format!("a.{ext}"));
        assert_eq!(image::guess_format(&data).unwrap(), expected, "{ext}");
    }
    let (name, data) = converted(transcode(&config(TargetFormat::Tga), png(), "p/a.png"));
    assert_eq!(name, "a.tga");
    let back = image::load_from_memory_with_format(&data, image::ImageFormat::Tga).unwrap();
    assert_eq!(back.dimensions(), (8, 6));
}

#[test]
fn openexr_is_written_by_the_codec() {
    let float = DynamicImage::ImageRgb32F(picture(8, 6).to_rgb32f());
    let (name, data) = converted(reencode(&config(TargetFormat::OpenExr), "p/a.png", float));
    assert_eq!(name, "a.openexr");
    assert_eq!(image::guess_format(&data).unwrap(), image::ImageFormat::OpenExr);
    assert_eq!(image::load_from_memory(&data).unwrap().dimensions(), (8, 6));
    match transcode(&config(TargetFormat::OpenExr), png(), "p/a.png") {
        Err(error) => assert!(error.to_string().starts_with("Encoding: ")),
        other => panic!("no error: {other:?}"),
    }
}

#[test]
fn avif_is_left_to_the_caller() {
    let mut cfg = config(TargetFormat::Avif);
    cfg.speed = 7;
    cfg.quality = 55;
    match transcode(&cfg, png(), "book/page1.png") {
        Ok(Transcoded::Decoded { name, image, encoder }) => {
            assert_eq!(name, "page1.avif");
            assert_eq!(image.dimensions(), (8, 6));
            assert_eq!(image.to_rgb8(), picture(8, 6).to_rgb8());
            assert_eq!(encoder, Encoder::Avif { speed: 7, quality: 55 });
        }
        other => panic!("not decoded: {other:?}"),
    }
}

#[test]
fn failure_of_the_encoder_is_an_error() {
    let large = encoded(&picture(300, 2), ImageOutputFormat::Png);
    match transcode(&config(TargetFormat::Ico), large, "a.png") {
        Err(Error::ImageError(report)) => assert!(!report.is_empty()),
        other => panic!("no error: {other:?}"),
    }
    match transcode(&config(TargetFormat::Farbfeld), png(), "a.png") {
        Err(error) => assert!(error.to_string().starts_with("Encoding: ")),
        other => panic!("no error: {other:?}"),
    }
}

#[test]
fn after_decoding_and_encoding() {
    let cfg = config(TargetFormat::Bmp);
    let failed = image::load_from_memory(&[1, 2, 3]);
    assert!(failed.is_err());
    let (name, data, reason) = copied(after_decoding(&cfg, vec![1, 2, 3], "a/b.png", failed));
    assert_eq!((name.as_str(), data, reason), ("a/b.png", vec![1, 2, 3], Skip::Undecodable));
    let (name, data) = converted(after_decoding(&cfg, vec![1], "a/b.png", Ok(picture(2, 2))));
    assert_eq!(name, "b.bmp");
    assert_eq!(image::load_from_memory(&data).unwrap().dimensions(), (2, 2));
    let (name, _) = converted(reencode(&cfg, "x/y.z.png", picture(2, 2)));
    assert_eq!(name, "y.z.bmp");
    let (name, data) = converted(after_encoding(String::from("n.bmp"), Ok(vec![4, 5])));
    assert_eq!((name.as_str(), data), ("n.bmp", vec![4, 5]));
    let error = image::load_from_memory(&[1, 2, 3]).unwrap_err();
    let text = error.to_string();
    match after_encoding(String::from("n.bmp"), Err(error)) {
        Err(Error::ImageError(report)) => assert_eq!(report, text),
        other => panic!("no error: {other:?}"),
    }
}

#[test]
fn image_in_a_longer_buffer_is_encoded_by_its_pixels() {
    let image = DynamicImage::ImageRgb8(ImageBuffer::from_raw(1, 1, vec![7u8; 4]).unwrap());
    let exact = DynamicImage::ImageRgb8(ImageBuffer::from_raw(1, 1, vec![7u8; 3]).unwrap());
    let mut cfg = config(TargetFormat::Png);
    let (name, data) = converted(reencode(&cfg, "a/b.bmp", image.clone()));
    assert_eq!(name, "b.png");
    assert_eq!(image::load_from_memory(&data).unwrap().to_rgb8(), exact.to_rgb8());
    assert_eq!(data, converted(reencode(&cfg, "a/b.bmp", exact.clone())).1);
    cfg.format = TargetFormat::WebP;
    cfg.lossless = true;
    let (_, data) = converted(after_decoding(&cfg, Vec::new(), "a/b.bmp", Ok(image.clone())));
    assert_eq!(image::load_from_memory(&data).unwrap().to_rgb8(), exact.to_rgb8());
    cfg.format = TargetFormat::Pnm;
    let (name, data) = converted(reencode(&cfg, "a/b.bmp", image.clone()));
    assert_eq!(name, "b.pnm");
    assert_eq!(image::guess_format(&data).unwrap(), image::ImageFormat::Pnm);
    cfg.format = TargetFormat::Bmp;
    let (_, data) = converted(reencode(&cfg, "a/b.png", image));
    assert_eq!(image::load_from_memory(&data).unwrap().to_rgb8(), exact.to_rgb8());
}

#[test]
fn the_same_entry_is_converted_to_the_same_bytes() {
    for format in [TargetFormat::Bmp, TargetFormat::WebP, TargetFormat::Jpeg(100), TargetFormat::Png] {
        let mut cfg = config(format);
        cfg.lossless = true;
        let first = converted(transcode(&cfg, png(), "a.bin"));
        let second = converted(transcode(&cfg, png(), "a.bin"));
        assert_eq!(first, second);
    }
}

#[test]
fn entry_without_data_fails() {
    let cfg = config(TargetFormat::Bmp);
    match convert_entry(&cfg, "in/book.zip", "book/page1.png", 0, Vec::new()) {
        Err(Error::Other(report)) => assert_eq!(report, "no data in 'in/book.zip:book/page1.png'"),
        other => panic!("no error: {other:?}"),
    }
    let (name, _) = converted(convert_entry(&cfg, "in/book.zip", "book/page1.png", 10, png()));
    assert_eq!(name, "page1.bmp");
}

#[test]
fn book_is_converted_entry_by_entry() {
    let cfg = config(TargetFormat::Bmp);
    let mut stored = Vec::new();
    for name in ["book/page1.png", "book/page2.png"] {
        let (name, data) = converted(convert_entry(&cfg, "book.cbz", name, 1, png()));
        assert_eq!(image::guess_format(&data).unwrap(), image::ImageFormat::Bmp);
        stored.push(name);
    }
    assert_eq!(stored, vec!["page1.bmp", "page2.bmp"]);
}

#[test]
fn book_with_wrapping_directory_end_to_end() {
    let listing: Vec<Option<String>> = ["book/page1.png", "book/page2.png", "book/book/"]
        .iter()
        .map(|name| Some(name.to_string()))
        .collect();
    let (entries, total) = select_entries(&listing);
    assert_eq!(total, 3);
    let cfg = config(TargetFormat::Bmp);
    let mut job = FileJob::new(entry_budget(10, 2), entries.len());
    let mut in_flight: Vec<usize> = Vec::new();
    let mut container: Vec<(String, Vec<u8>)> = Vec::new();
    let mut closed = 0;
    loop {
        match job.next() {
            Step::StartEntry(index) => in_flight.push(index),
            Step::Wait if !in_flight.is_empty() => {
                let entry = &entries[in_flight.remove(0)];
                let done = convert_entry(&cfg, "book.cbz", &entry.uri, 1, png());
                let ok = done.is_ok();
                container.push(converted(done));
                job.entry_done(ok);
            }
            Step::Wait => job.writer_closed(true),
            Step::CloseWriter => closed += 1,
            Step::Finished(ok) => {
                assert!(ok);
                break;
            }
        }
    }
    assert_eq!(closed, 1);
    let names: Vec<&str> = container.iter().map(|(name, _)| name.as_str()).collect();
    assert_eq!(names, vec!["page1.bmp", "page2.bmp"]);
    for (_, data) in &container {
        assert_eq!(image::guess_format(data).unwrap(), image::ImageFormat::Bmp);
    }
}
