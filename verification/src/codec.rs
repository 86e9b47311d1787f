//! The image codec: recognising a format by an extension, decoding, and
//! encoding. All of it is the work of the `image` crate; the functions here
//! hand it plain values and state what is known of what comes back. What the
//! codec makes of its arguments alone has a name that the contracts of the
//! library speak of; its bytes are not spelled out.

use crate::config::PlainFormat;
use crate::config::PngCompression;
use crate::config::PngFilter;
use crate::config::PnmForm;
use crate::config::SourceFormat;
use crate::config::TargetFormat;
use crate::text::ascii_lowercase;
use image::codecs::png::CompressionType;
use image::codecs::png::FilterType;
use image::codecs::pnm::PnmSubtype;
use image::codecs::pnm::SampleEncoding;
use image::ImageOutputFormat as Target;
use vstd::prelude::*;

verus! {

/// A decoded image.
#[verifier::external_type_specification]
#[verifier::external_body]
pub struct ExDynamicImage(image::DynamicImage);

/// What the codec reports when it fails.
#[verifier::external_type_specification]
#[verifier::external_body]
pub struct ExImageError(image::ImageError);

/// The image that the codec decodes `data` to when it is told that `data`
/// is of `format`, if it decodes it.
pub uninterp spec fn decoded_as(data: Seq<u8>, format: SourceFormat) -> Option<image::DynamicImage>;

/// The image that the codec decodes `data` to when it goes by what the first
/// bytes suggest, if it decodes it.
pub uninterp spec fn decoded_guessing(data: Seq<u8>) -> Option<image::DynamicImage>;

/// The bytes of `image` as a PNG file, compressed and filtered as told, if
/// the codec can write it so.
pub uninterp spec fn png_bytes_of(
    image: image::DynamicImage,
    compression: PngCompression,
    filter: PngFilter,
) -> Option<Seq<u8>>;

/// The bytes of `image` as a WebP file without loss, if the codec can write
/// it so.
pub uninterp spec fn webp_lossless_bytes_of(image: image::DynamicImage) -> Option<Seq<u8>>;

/// The bytes of `image` as a PNM file of the form `form`, if the codec can
/// write it so.
pub uninterp spec fn pnm_bytes_of(image: image::DynamicImage, form: PnmForm) -> Option<Seq<u8>>;

/// The bytes of `image` as a file of `format`, if the codec can write it so.
pub uninterp spec fn plain_bytes_of(image: image::DynamicImage, format: PlainFormat) -> Option<
    Seq<u8>,
>;

/// The format in which the codec, as it is built for this library, writes
/// images of `format` when it is asked for nothing more, if it can write
/// them at all: JPEG at quality 75, every other format as it is. It writes
/// neither AVIF nor DDS nor HDR.
pub open spec fn writable_as(format: SourceFormat) -> Option<TargetFormat> {
    match format {
        SourceFormat::Png => Some(TargetFormat::Png),
        SourceFormat::Jpeg => Some(TargetFormat::Jpeg(75)),
        SourceFormat::Pnm => Some(TargetFormat::Pnm),
        SourceFormat::Gif => Some(TargetFormat::Gif),
        SourceFormat::Ico => Some(TargetFormat::Ico),
        SourceFormat::Bmp => Some(TargetFormat::Bmp),
        SourceFormat::Farbfeld => Some(TargetFormat::Farbfeld),
        SourceFormat::Tga => Some(TargetFormat::Tga),
        SourceFormat::OpenExr => Some(TargetFormat::OpenExr),
        SourceFormat::Tiff => Some(TargetFormat::Tiff),
        SourceFormat::WebP => Some(TargetFormat::WebP),
        SourceFormat::Qoi => Some(TargetFormat::Qoi),
        SourceFormat::Avif | SourceFormat::Dds | SourceFormat::Hdr => None,
    }
}

/// What the codec offers to write files with extension `ext` as: the
/// format that it writes their format in, where it knows the extension and
/// can write the format.
pub open spec fn offered_for_extension(ext: Seq<char>) -> Option<TargetFormat> {
    match format_of_extension(ext) {
        Some(format) => writable_as(format),
        None => None,
    }
}

/// The format that files with extension `ext` are taken to hold; capital
/// letters A to Z count as their small ones.
pub open spec fn format_of_extension(ext: Seq<char>) -> Option<SourceFormat> {
    let e = ascii_lowercase(ext);
    if e == "avif"@ {
        Some(SourceFormat::Avif)
    } else if e == "jpg"@ || e == "jpeg"@ {
        Some(SourceFormat::Jpeg)
    } else if e == "png"@ {
        Some(SourceFormat::Png)
    } else if e == "gif"@ {
        Some(SourceFormat::Gif)
    } else if e == "webp"@ {
        Some(SourceFormat::WebP)
    } else if e == "tif"@ || e == "tiff"@ {
        Some(SourceFormat::Tiff)
    } else if e == "tga"@ {
        Some(SourceFormat::Tga)
    } else if e == "dds"@ {
        Some(SourceFormat::Dds)
    } else if e == "bmp"@ {
        Some(SourceFormat::Bmp)
    } else if e == "ico"@ {
        Some(SourceFormat::Ico)
    } else if e == "hdr"@ {
        Some(SourceFormat::Hdr)
    } else if e == "exr"@ {
        Some(SourceFormat::OpenExr)
    } else if e == "pbm"@ || e == "pam"@ || e == "ppm"@ || e == "pgm"@ {
        Some(SourceFormat::Pnm)
    } else if e == "ff"@ || e == "farbfeld"@ {
        Some(SourceFormat::Farbfeld)
    } else if e == "qoi"@ {
        Some(SourceFormat::Qoi)
    } else {
        None
    }
}

/// `image::ImageFormat::from_extension`: the format that the codec assigns to
/// a file extension. It makes the capital letters A to Z small and looks the
/// result up in a fixed table, which `format_of_extension` repeats.
#[verifier::external_body]
pub(crate) fn detect_format(ext: &str) -> (found: Option<SourceFormat>)
    ensures
        found == format_of_extension(ext@),
{
    Some(match image::ImageFormat::from_extension(ext)? {
        image::ImageFormat::Png => SourceFormat::Png, image::ImageFormat::Jpeg => SourceFormat::Jpeg,
        image::ImageFormat::Gif => SourceFormat::Gif, image::ImageFormat::WebP => SourceFormat::WebP,
        image::ImageFormat::Pnm => SourceFormat::Pnm, image::ImageFormat::Tiff => SourceFormat::Tiff,
        image::ImageFormat::Tga => SourceFormat::Tga, image::ImageFormat::Dds => SourceFormat::Dds,
        image::ImageFormat::Bmp => SourceFormat::Bmp, image::ImageFormat::Ico => SourceFormat::Ico,
        image::ImageFormat::Hdr => SourceFormat::Hdr, image::ImageFormat::Avif => SourceFormat::Avif,
        image::ImageFormat::OpenExr => SourceFormat::OpenExr,
        image::ImageFormat::Farbfeld => SourceFormat::Farbfeld,
        image::ImageFormat::Qoi => SourceFormat::Qoi,
        _ => return None,
    })
}

/// `image::ImageFormat::from_extension`, then `image::ImageOutputFormat::from`:
/// the format in which the codec writes files with extension `ext` when it
/// is asked for nothing more. Nothing is offered where the codec does not
/// know the extension or reports that it cannot write the format. Which
/// formats it can write depends on how it is built; `writable_as` repeats
/// the table of the codec as it is built for this library.
#[verifier::external_body]
pub(crate) fn offered_target(ext: &str) -> (offer: Option<TargetFormat>)
    ensures
        offer == match format_of_extension(ext@) {
            Some(format) => writable_as(format),
            None => None,
        },
{
    match Target::from(image::ImageFormat::from_extension(ext)?) {
        Target::Png => Some(TargetFormat::Png), Target::Jpeg(q) => Some(TargetFormat::Jpeg(q)),
        Target::Pnm(_) => Some(TargetFormat::Pnm), Target::Gif => Some(TargetFormat::Gif),
        Target::Ico => Some(TargetFormat::Ico), Target::Bmp => Some(TargetFormat::Bmp),
        Target::Farbfeld => Some(TargetFormat::Farbfeld),
        Target::Tga => Some(TargetFormat::Tga), Target::Tiff => Some(TargetFormat::Tiff),
        Target::OpenExr => Some(TargetFormat::OpenExr),
        Target::Qoi => Some(TargetFormat::Qoi), Target::WebP => Some(TargetFormat::WebP),
        _ => None,
    }
}

/// `image::load_from_memory_with_format`: decodes `data` as an image of
/// `format`. What comes back depends on `data` and `format` alone.
#[verifier::external_body]
pub(crate) fn decode_as(data: &[u8], format: SourceFormat) -> (decoded: Result<
    image::DynamicImage,
    image::ImageError,
>)
    ensures
        match decoded {
            Ok(image) => decoded_as(data@, format) == Some(image),
            Err(_) => decoded_as(data@, format) is None,
        },
{
    image::load_from_memory_with_format(data, match format {
        SourceFormat::Png => image::ImageFormat::Png, SourceFormat::Jpeg => image::ImageFormat::Jpeg,
        SourceFormat::Gif => image::ImageFormat::Gif, SourceFormat::WebP => image::ImageFormat::WebP,
        SourceFormat::Pnm => image::ImageFormat::Pnm, SourceFormat::Tiff => image::ImageFormat::Tiff,
        SourceFormat::Tga => image::ImageFormat::Tga, SourceFormat::Dds => image::ImageFormat::Dds,
        SourceFormat::Bmp => image::ImageFormat::Bmp, SourceFormat::Ico => image::ImageFormat::Ico,
        SourceFormat::Hdr => image::ImageFormat::Hdr, SourceFormat::Avif => image::ImageFormat::Avif,
        SourceFormat::OpenExr => image::ImageFormat::OpenExr,
        SourceFormat::Farbfeld => image::ImageFormat::Farbfeld,
        SourceFormat::Qoi => image::ImageFormat::Qoi,
    })
}

/// `image::load_from_memory`: decodes `data` as an image of the format that
/// its first bytes suggest. What comes back depends on `data` alone.
#[verifier::external_body]
pub(crate) fn decode_guessing(data: &[u8]) -> (decoded: Result<
    image::DynamicImage,
    image::ImageError,
>)
    ensures
        match decoded {
            Ok(image) => decoded_guessing(data@) == Some(image),
            Err(_) => decoded_guessing(data@) is None,
        },
{
    image::load_from_memory(data)
}

/// `image::DynamicImage::write_with_encoder` with an
/// `image::codecs::png::PngEncoder` made for `compression` and `filter`: the
/// pixels of `image` as the bytes of a PNG file. What comes back depends on
/// the three alone.
#[verifier::external_body]
pub(crate) fn encode_png(
    image: &image::DynamicImage,
    compression: PngCompression,
    filter: PngFilter,
) -> (encoded: Result<Vec<u8>, image::ImageError>)
    ensures
        match encoded {
            Ok(bytes) => png_bytes_of(*image, compression, filter) == Some(bytes@),
            Err(_) => png_bytes_of(*image, compression, filter) is None,
        },
{
    let mut out: Vec<u8> = Vec::new();
    let encoder = image::codecs::png::PngEncoder::new_with_quality(&mut out, match compression {
        PngCompression::Default => CompressionType::Default,
        PngCompression::Fast => CompressionType::Fast,
        PngCompression::Best => CompressionType::Best,
    }, match filter {
        PngFilter::NoFilter => FilterType::NoFilter, PngFilter::Sub => FilterType::Sub,
        PngFilter::Up => FilterType::Up, PngFilter::Avg => FilterType::Avg,
        PngFilter::Paeth => FilterType::Paeth, PngFilter::Adaptive => FilterType::Adaptive,
    });
    image.write_with_encoder(encoder)?;
    Ok(out)
}

/// `image::DynamicImage::write_with_encoder` with an
/// `image::codecs::webp::WebPEncoder` made for encoding without loss: the
/// pixels of `image` as the bytes of a WebP file. What comes back depends on
/// `image` alone.
#[allow(deprecated)]
#[verifier::external_body]
pub(crate) fn encode_webp_lossless(image: &image::DynamicImage) -> (encoded: Result<
    Vec<u8>,
    image::ImageError,
>)
    ensures
        match encoded {
            Ok(bytes) => webp_lossless_bytes_of(*image) == Some(bytes@),
            Err(_) => webp_lossless_bytes_of(*image) is None,
        },
{
    let mut out: Vec<u8> = Vec::new();
    let quality = image::codecs::webp::WebPQuality::lossless();
    let encoder = image::codecs::webp::WebPEncoder::new_with_quality(&mut out, quality);
    image.write_with_encoder(encoder)?;
    Ok(out)
}

/// `image::DynamicImage::write_to`: `image` as the bytes of a file of
/// `format`. What comes back depends on `image` and `format` alone.
#[verifier::external_body]
pub(crate) fn encode_with(image: &image::DynamicImage, format: PlainFormat) -> (encoded: Result<
    Vec<u8>,
    image::ImageError,
>)
    ensures
        match encoded {
            Ok(bytes) => plain_bytes_of(*image, format) == Some(bytes@),
            Err(_) => plain_bytes_of(*image, format) is None,
        },
{
    let mut out: Vec<u8> = Vec::new();
    image.write_to(&mut std::io::Cursor::new(&mut out), match format {
        PlainFormat::Jpeg(quality) => Target::Jpeg(quality), PlainFormat::Gif => Target::Gif,
        PlainFormat::Ico => Target::Ico, PlainFormat::Bmp => Target::Bmp,
        PlainFormat::Tga => Target::Tga, PlainFormat::Qoi => Target::Qoi,
        PlainFormat::Tiff => Target::Tiff, PlainFormat::Farbfeld => Target::Farbfeld,
    })?;
    Ok(out)
}

/// `image::DynamicImage::write_to`, asked for PNM of the form `form`:
/// `image` as the bytes of a PNM file. What comes back depends on `image` and
/// `form` alone.
#[verifier::external_body]
pub(crate) fn encode_pnm(image: &image::DynamicImage, form: PnmForm) -> (encoded: Result<
    Vec<u8>,
    image::ImageError,
>)
    ensures
        match encoded {
            Ok(bytes) => pnm_bytes_of(*image, form) == Some(bytes@),
            Err(_) => pnm_bytes_of(*image, form) is None,
        },
{
    let mut out: Vec<u8> = Vec::new();
    image.write_to(&mut std::io::Cursor::new(&mut out), Target::Pnm(match form {
        PnmForm::BitmapBinary => PnmSubtype::Bitmap(SampleEncoding::Binary),
        PnmForm::BitmapAscii => PnmSubtype::Bitmap(SampleEncoding::Ascii),
        PnmForm::GraymapBinary => PnmSubtype::Graymap(SampleEncoding::Binary),
        PnmForm::GraymapAscii => PnmSubtype::Graymap(SampleEncoding::Ascii),
        PnmForm::PixmapBinary => PnmSubtype::Pixmap(SampleEncoding::Binary),
        PnmForm::PixmapAscii => PnmSubtype::Pixmap(SampleEncoding::Ascii),
        PnmForm::ArbitraryMap => PnmSubtype::ArbitraryMap,
    }))?;
    Ok(out)
}

/// `image::DynamicImage::write_to`, asked for OpenEXR: `image` as the bytes
/// of an OpenEXR file. The codec compresses the blocks of such a file side by
/// side and writes them as they get ready, so the bytes are not the same every
/// time, and nothing is stated of the result.
#[verifier::external_body]
pub(crate) fn encode_openexr(image: &image::DynamicImage) -> Result<Vec<u8>, image::ImageError> {
    let mut out: Vec<u8> = Vec::new();
    image.write_to(&mut std::io::Cursor::new(&mut out), Target::OpenExr)?;
    Ok(out)
}

/// `to_string` of `image::ImageError`: what `error` says of itself when it
/// is printed. Nothing is stated of the result.
#[verifier::external_body]
pub(crate) fn describe(error: &image::ImageError) -> String {
    error.to_string()
}

} // verus!
