use archive_transcode::config::verbosity;
use archive_transcode::config::ArchiveType;
use archive_transcode::config::Compression;
use archive_transcode::config::ContainerKind;
use archive_transcode::config::FormatFileExt;
use archive_transcode::config::LogLevel;
use archive_transcode::config::SourceFormat;
use archive_transcode::config::TargetFormat;
use archive_transcode::config::Verbosity;
use archive_transcode::format::accept_offer;
use archive_transcode::format::named_format;
use archive_transcode::format::parse_image_output_format;
use archive_transcode::format::parse_lowercase;

#[test]
fn names_that_stand_for_a_format() {
    assert_eq!(parse_image_output_format("avif"), Ok(TargetFormat::Avif));
    assert_eq!(parse_image_output_format("webp"), Ok(TargetFormat::WebP));
    assert_eq!(parse_image_output_format("png"), Ok(TargetFormat::Png));
    assert_eq!(parse_image_output_format("jpg"), Ok(TargetFormat::Jpeg(100)));
    assert_eq!(parse_image_output_format("jpeg"), Ok(TargetFormat::Jpeg(100)));
    assert_eq!(parse_image_output_format("gif"), Ok(TargetFormat::Gif));
    assert_eq!(parse_image_output_format("bmp"), Ok(TargetFormat::Bmp));
    assert_eq!(parse_image_output_format("tga"), Ok(TargetFormat::Tga));
    assert_eq!(parse_image_output_format("qoi"), Ok(TargetFormat::Qoi));
    assert_eq!(parse_image_output_format("tiff"), Ok(TargetFormat::Tiff));
}

#[test]
fn format_names_in_any_case() {
    assert_eq!(parse_image_output_format("PNG"), Ok(TargetFormat::Png));
    assert_eq!(parse_image_output_format("Jpg"), Ok(TargetFormat::Jpeg(100)));
    assert_eq!(parse_image_output_format("AVIF"), Ok(TargetFormat::Avif));
    assert_eq!(parse_image_output_format("WebP"), Ok(TargetFormat::WebP));
    assert_eq!(parse_image_output_format("ICO"), Ok(TargetFormat::Ico));
}

#[test]
fn extensions_that_the_codec_can_write() {
    assert_eq!(parse_image_output_format("tif"), Ok(TargetFormat::Tiff));
    assert_eq!(parse_image_output_format("ico"), Ok(TargetFormat::Ico));
    assert_eq!(parse_image_output_format("exr"), Ok(TargetFormat::OpenExr));
    assert_eq!(parse_image_output_format("pbm"), Ok(TargetFormat::Pnm));
    assert_eq!(parse_image_output_format("pam"), Ok(TargetFormat::Pnm));
    assert_eq!(parse_image_output_format("ppm"), Ok(TargetFormat::Pnm));
    assert_eq!(parse_image_output_format("pgm"), Ok(TargetFormat::Pnm));
    assert_eq!(parse_image_output_format("ff"), Ok(TargetFormat::Farbfeld));
    assert_eq!(parse_image_output_format("farbfeld"), Ok(TargetFormat::Farbfeld));
}

#[test]
fn names_that_stand_for_no_format() {
    assert_eq!(
        parse_image_output_format("hdr"),
        Err(String::from("Unsupported image format: hdr"))
    );
    assert_eq!(
        parse_image_output_format("DDS"),
        Err(String::from("Unsupported image format: dds"))
    );
    assert_eq!(
        parse_image_output_format("Text"),
        Err(String::from("Unsupported image format: text"))
    );
    assert_eq!(parse_image_output_format(""), Err(String::from("Unsupported image format: ")));
    assert_eq!(
        parse_image_output_format(".png"),
        Err(String::from("Unsupported image format: .png"))
    );
}

#[test]
fn lowercase_names_are_read_as_they_are() {
    assert_eq!(parse_lowercase("png"), Ok(TargetFormat::Png));
    assert_eq!(parse_lowercase("ico"), Ok(TargetFormat::Ico));
    assert_eq!(named_format("png"), Some(TargetFormat::Png));
    assert_eq!(named_format("PNG"), None);
    assert_eq!(named_format("ico"), None);
    assert_eq!(named_format("jpeg"), Some(TargetFormat::Jpeg(100)));
}

#[test]
fn offers_of_the_codec() {
    assert_eq!(accept_offer("ico", Some(TargetFormat::Ico)), Ok(TargetFormat::Ico));
    assert_eq!(accept_offer("xyz", None), Err(String::from("Unsupported image format: xyz")));
    assert_eq!(parse_lowercase("tif"), Ok(TargetFormat::Tiff));
    assert_eq!(parse_lowercase("exr"), Ok(TargetFormat::OpenExr));
    assert_eq!(parse_lowercase("hdr"), Err(String::from("Unsupported image format: hdr")));
    assert_eq!(parse_lowercase("ICO"), Ok(TargetFormat::Ico));
    assert_eq!(parse_lowercase("xyz"), Err(String::from("Unsupported image format: xyz")));
}

#[test]
fn extensions_of_target_formats() {
    assert_eq!(TargetFormat::Avif.ext(), "avif");
    assert_eq!(TargetFormat::WebP.ext(), "webp");
    assert_eq!(TargetFormat::Jpeg(75).ext(), "jpeg");
    assert_eq!(TargetFormat::Png.ext(), "png");
    assert_eq!(TargetFormat::Pnm.ext(), "pnm");
    assert_eq!(TargetFormat::Gif.ext(), "gif");
    assert_eq!(TargetFormat::Ico.ext(), "ico");
    assert_eq!(TargetFormat::Bmp.ext(), "bmp");
    assert_eq!(TargetFormat::Tga.ext(), "tga");
    assert_eq!(TargetFormat::Qoi.ext(), "qoi");
    assert_eq!(TargetFormat::Tiff.ext(), "tiff");
    assert_eq!(TargetFormat::Farbfeld.ext(), "farbfeld");
    assert_eq!(TargetFormat::OpenExr.ext(), "openexr");
}

#[test]
fn kinds_of_target_formats() {
    assert_eq!(TargetFormat::Jpeg(10).kind(), SourceFormat::Jpeg);
    assert_eq!(TargetFormat::Avif.kind(), SourceFormat::Avif);
    assert_eq!(TargetFormat::OpenExr.kind(), SourceFormat::OpenExr);
    assert_eq!(TargetFormat::Pnm.kind(), SourceFormat::Pnm);
}

#[test]
fn archive_types() {
    assert_eq!(ArchiveType::Zip.ext(), "zip");
    assert_eq!(ArchiveType::Cbz.ext(), "cbz");
    assert_eq!(ArchiveType::Cb7.ext(), "cb7");
    assert_eq!(ArchiveType::SevenZip.ext(), "7z");
    assert_eq!(ArchiveType::SevenZip.to_string(), "7z");
    assert_eq!(ArchiveType::Cbz.to_string(), "cbz");
    assert_eq!(ArchiveType::Cbz.container(), ContainerKind::Zip);
    assert_eq!(ArchiveType::Zip.container(), ContainerKind::Zip);
    assert_eq!(ArchiveType::Cb7.container(), ContainerKind::SevenZip);
    assert_eq!(ArchiveType::SevenZip.container(), ContainerKind::SevenZip);
    assert!(ArchiveType::Cbz < ArchiveType::Zip);
}

#[test]
fn compression_of_each_container() {
    assert_eq!(ContainerKind::Zip.compression(), Compression::DeflateMaximum);
    assert_eq!(ContainerKind::SevenZip.compression(), Compression::Lzma2(9));
}

#[test]
fn messages_that_are_reported() {
    let quiet = verbosity(0);
    assert!(quiet.admits(LogLevel::Error, true));
    assert!(quiet.admits(LogLevel::Warn, true));
    assert!(!quiet.admits(LogLevel::Info, true));
    assert!(!quiet.admits(LogLevel::Warn, false));
    let detailed = verbosity(2);
    assert!(detailed.admits(LogLevel::Debug, true));
    assert!(!detailed.admits(LogLevel::Trace, true));
    assert!(!detailed.admits(LogLevel::Error, false));
    let all = verbosity(3);
    assert!(all.admits(LogLevel::Trace, true));
    assert!(!all.admits(LogLevel::Trace, false));
    let extra = verbosity(4);
    assert!(extra.admits(LogLevel::Trace, false));
    assert!(extra.admits(LogLevel::Error, false));
    assert_eq!(LogLevel::Error.rank(), 0);
    assert_eq!(LogLevel::Trace.rank(), 4);
}

#[test]
fn verbosity_tiers() {
    assert_eq!(verbosity(0), Verbosity { level: LogLevel::Warn, extra: false });
    assert_eq!(verbosity(1), Verbosity { level: LogLevel::Info, extra: false });
    assert_eq!(verbosity(2), Verbosity { level: LogLevel::Debug, extra: false });
    assert_eq!(verbosity(3), Verbosity { level: LogLevel::Trace, extra: false });
    assert_eq!(verbosity(4), Verbosity { level: LogLevel::Trace, extra: true });
    assert_eq!(verbosity(255), Verbosity { level: LogLevel::Trace, extra: true });
}
