//! Reading the name of the image format to convert to.

use crate::codec::offered_for_extension;
use crate::codec::offered_target;
use crate::config::TargetFormat;
use crate::text::lowercase;
use crate::text::same_text;
use crate::text::lowercased;
use vstd::prelude::*;
use vstd::string::StringExecFns;

verus! {

/// The target format that `lower`, a name in lowercase, stands for by
/// itself. JPEG is taken at full quality.
pub open spec fn named_format_of(lower: Seq<char>) -> Option<TargetFormat> {
    if lower == "avif"@ {
        Some(TargetFormat::Avif)
    } else if lower == "webp"@ {
        Some(TargetFormat::WebP)
    } else if lower == "png"@ {
        Some(TargetFormat::Png)
    } else if lower == "jpg"@ || lower == "jpeg"@ {
        Some(TargetFormat::Jpeg(100))
    } else if lower == "gif"@ {
        Some(TargetFormat::Gif)
    } else if lower == "bmp"@ {
        Some(TargetFormat::Bmp)
    } else if lower == "tga"@ {
        Some(TargetFormat::Tga)
    } else if lower == "qoi"@ {
        Some(TargetFormat::Qoi)
    } else if lower == "tiff"@ {
        Some(TargetFormat::Tiff)
    } else {
        None
    }
}

/// What is said of a name that stands for no target format.
pub open spec fn unsupported_message(lower: Seq<char>) -> Seq<char> {
    "Unsupported image format: "@ + lower
}

/// The target format that `lower`, a name in lowercase, stands for by
/// itself.
pub fn named_format(lower: &str) -> (format: Option<TargetFormat>)
    ensures
        format == named_format_of(lower@),
{
    if same_text(lower, "avif") {
        Some(TargetFormat::Avif)
    } else if same_text(lower, "webp") {
        Some(TargetFormat::WebP)
    } else if same_text(lower, "png") {
        Some(TargetFormat::Png)
    } else if same_text(lower, "jpg") || same_text(lower, "jpeg") {
        Some(TargetFormat::Jpeg(100))
    } else if same_text(lower, "gif") {
        Some(TargetFormat::Gif)
    } else if same_text(lower, "bmp") {
        Some(TargetFormat::Bmp)
    } else if same_text(lower, "tga") {
        Some(TargetFormat::Tga)
    } else if same_text(lower, "qoi") {
        Some(TargetFormat::Qoi)
    } else if same_text(lower, "tiff") {
        Some(TargetFormat::Tiff)
    } else {
        None
    }
}

/// What a name in lowercase is read as: the format that it stands for by
/// itself, or else the format that the codec offers for it as a file
/// extension; the refusal, with the name, where there is neither.
pub open spec fn parsed_lowercase(lower: Seq<char>) -> Result<TargetFormat, Seq<char>> {
    match named_format_of(lower) {
        Some(format) => Ok(format),
        None => match offered_for_extension(lower) {
            Some(format) => Ok(format),
            None => Err(unsupported_message(lower)),
        },
    }
}

/// Whether `parsed` is the result `expected`, the message of a refusal
/// taken by its characters.
pub open spec fn is_parsed_as(
    parsed: Result<TargetFormat, String>,
    expected: Result<TargetFormat, Seq<char>>,
) -> bool {
    match expected {
        Ok(format) => parsed == Ok::<TargetFormat, String>(format),
        Err(message) => parsed matches Err(said) && said@ == message,
    }
}

/// Settles a name that stands for no target format by itself: `offered` is
/// what the codec offers for it as a file extension, if anything. What is
/// offered is taken; a name for which nothing is offered is refused.
pub fn accept_offer(lower: &str, offered: Option<TargetFormat>) -> (parsed: Result<
    TargetFormat,
    String,
>)
    ensures
        match offered {
            Some(format) => parsed == Ok::<TargetFormat, String>(format),
            None => parsed matches Err(message) && message@ == unsupported_message(lower@),
        },
{
    match offered {
        Some(format) => Ok(format),
        None => {
            let mut message = String::from_str("Unsupported image format: ");
            message.append(lower);
            Err(message)
        },
    }
}

/// Reads a name in lowercase as a target format: one of the names that
/// stand for a format by themselves, or else a file extension of a format
/// that the codec can write.
pub fn parse_lowercase(lower: &str) -> (parsed: Result<TargetFormat, String>)
    ensures
        is_parsed_as(parsed, parsed_lowercase(lower@)),
{
    match named_format(lower) {
        Some(format) => Ok(format),
        None => accept_offer(lower, offered_target(lower)),
    }
}

/// Reads the name of a target format, whatever its case.
pub fn parse_image_output_format(s: &str) -> (parsed: Result<TargetFormat, String>)
    ensures
        is_parsed_as(parsed, parsed_lowercase(lowercase(s@))),
{
    let lower = lowercased(s);
    parse_lowercase(lower.as_str())
}

} // verus!
