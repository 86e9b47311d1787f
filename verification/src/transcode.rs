//! What becomes of one entry: whether it is copied as it is or decoded and
//! encoded anew, and under which name it is stored.
//!
//! The decision is taken in this order. An entry whose extension marks it as
//! text is copied. One that is already in the target format is copied. One
//! that is in a format that is efficient already is copied. Every other is
//! decoded, and copied after all if it cannot be decoded, else encoded in the
//! target format and stored under its file name with the target's extension.

use crate::codec::decode_as;
use crate::codec::decode_guessing;
use crate::codec::decoded_as;
use crate::codec::decoded_guessing;
use crate::codec::describe;
use crate::codec::detect_format;
use crate::codec::encode_openexr;
use crate::codec::encode_png;
use crate::codec::encode_pnm;
use crate::codec::encode_webp_lossless;
use crate::codec::encode_with;
use crate::codec::format_of_extension;
use crate::codec::plain_bytes_of;
use crate::codec::pnm_bytes_of;
use crate::codec::png_bytes_of;
use crate::codec::webp_lossless_bytes_of;
use crate::config::Config;
use crate::config::FormatFileExt;
use crate::config::PlainFormat;
use crate::config::PngCompression;
use crate::config::PngFilter;
use crate::config::PnmForm;
use crate::config::SourceFormat;
use crate::config::TargetFormat;
use crate::error::Error;
use crate::path::extension;
use crate::path::extension_of;
use crate::path::file_name;
use crate::path::file_name_of;
use crate::path::with_extension;
use crate::path::with_extension_of;
use crate::text::lowercase;
use crate::text::same_text;
use crate::text::lowercased;
use vstd::prelude::*;
use vstd::string::StringExecFns;

verus! {

/// Why an entry is copied as it is.
#[derive(Copy, Clone, PartialEq, Eq, Debug, Structural)]
pub enum Skip {
    /// Its extension marks it as text.
    Text,
    /// It could not be decoded as an image.
    Undecodable,
    /// It is in the target format already.
    SameFormat,
    /// It is in a format that is efficient already.
    AlreadyEfficient,
}

/// What the name of an entry decides.
#[derive(Copy, Clone, PartialEq, Eq, Debug, Structural)]
pub enum Plan {
    /// Copy the entry as it is.
    Copy(Skip),
    /// Decode the entry, as an image of the given format where one is
    /// recognised, and encode it in the target format.
    Convert(Option<SourceFormat>),
}

/// How a decoded entry is encoded.
#[derive(Copy, Clone, PartialEq, Eq, Debug, Structural)]
pub enum Encoder {
    /// As AVIF, with this speed and quality.
    Avif { speed: u8, quality: u8 },
    /// As WebP, without loss.
    WebPLossless,
    /// As WebP, with loss, at this quality.
    WebPLossy(u8),
    /// As PNG, compressed and filtered so.
    Png { compression: PngCompression, filter: PngFilter },
    /// As PNM of this form.
    Pnm(PnmForm),
    /// In this format, as the codec writes it by itself.
    Plain(PlainFormat),
    /// As OpenEXR. The codec does not write the same bytes every time.
    OpenExr,
}

/// What has become of one entry.
#[derive(Debug)]
pub enum Transcoded {
    /// The entry as it was, under the name to store it by.
    Copied { name: String, data: Vec<u8>, reason: Skip },
    /// The entry encoded in the target format, under its new name.
    Encoded { name: String, data: Vec<u8> },
    /// The entry decoded, still to be encoded by `encoder` and stored under
    /// `name`. The encoders of AVIF and of WebP with loss are not part of
    /// this library: the caller encodes `image`.
    Decoded { name: String, image: image::DynamicImage, encoder: Encoder },
}

/// Whether `lower`, an extension in lowercase, marks text.
pub open spec fn is_text_kind_of(lower: Seq<char>) -> bool {
    ||| lower == "txt"@
    ||| lower == "md"@
    ||| lower == "xml"@
    ||| lower == "html"@
    ||| lower == "svg"@
    ||| lower == "info"@
    ||| lower == "json"@
    ||| lower == "yml"@
    ||| lower == "yaml"@
}

/// Whether `lower`, an extension in lowercase, marks text.
pub fn is_text_kind(lower: &str) -> (yes: bool)
    ensures
        yes == is_text_kind_of(lower@),
{
    same_text(lower, "txt") || same_text(lower, "md") || same_text(lower, "xml") || same_text(
        lower,
        "html",
    ) || same_text(lower, "svg") || same_text(lower, "info") || same_text(lower, "json")
        || same_text(lower, "yml") || same_text(lower, "yaml")
}

/// Whether images of `format` are left as they are whatever the target.
pub open spec fn is_efficient(format: SourceFormat) -> bool {
    format == SourceFormat::WebP || format == SourceFormat::Avif
}

/// The plan for an entry whose extension in lowercase is `lower` and whose
/// extension is recognised as `detected`, with `target` as the format to
/// convert to.
pub open spec fn decision(
    lower: Option<Seq<char>>,
    detected: Option<SourceFormat>,
    target: TargetFormat,
) -> Plan {
    if lower is Some && is_text_kind_of(lower->0) {
        Plan::Copy(Skip::Text)
    } else if detected == Some(target.kind_of()) {
        Plan::Copy(Skip::SameFormat)
    } else if detected is Some && is_efficient(detected->0) {
        Plan::Copy(Skip::AlreadyEfficient)
    } else {
        Plan::Convert(detected)
    }
}

/// The plan for the entry called `name`.
pub open spec fn plan_of(target: TargetFormat, name: Seq<char>) -> Plan {
    match extension_of(name) {
        Some(ext) => decision(Some(lowercase(ext)), format_of_extension(ext), target),
        None => decision(None, None, target),
    }
}

/// The name under which an entry called `name` is stored when it is copied
/// for `reason`: its file name where its format was recognised, else all of
/// `name`.
pub open spec fn copied_name_of(reason: Skip, name: Seq<char>) -> Seq<char> {
    match reason {
        Skip::Text | Skip::Undecodable => name,
        Skip::SameFormat | Skip::AlreadyEfficient => file_name_of(name)->0,
    }
}

/// The name under which an entry called `name` is stored once it is encoded
/// as `target`: its file name, with the extension of `target`.
pub open spec fn converted_name_of(name: Seq<char>, target: TargetFormat) -> Seq<char> {
    with_extension_of(file_name_of(name)->0, target.ext_of())
}

/// The quality that JPEG is written with: the configured one, 100 at most.
pub open spec fn jpeg_quality_of(quality: u8) -> u8 {
    if quality > 100 {
        100
    } else {
        quality
    }
}

/// The encoder that the settings ask for: speed and quality count for AVIF,
/// loss and quality for WebP, the quality for JPEG. PNG is compressed as
/// well as can be, with the filter chosen line by line; PNM is written as an
/// arbitrary map.
pub open spec fn encoder_of(cfg: Config) -> Encoder {
    match cfg.format {
        TargetFormat::Avif => Encoder::Avif { speed: cfg.speed, quality: cfg.quality },
        TargetFormat::WebP => if cfg.lossless {
            Encoder::WebPLossless
        } else {
            Encoder::WebPLossy(cfg.quality)
        },
        TargetFormat::Png => Encoder::Png {
            compression: PngCompression::Best,
            filter: PngFilter::Adaptive,
        },
        TargetFormat::Jpeg(_) => Encoder::Plain(PlainFormat::Jpeg(jpeg_quality_of(cfg.quality))),
        TargetFormat::Pnm => Encoder::Pnm(PnmForm::ArbitraryMap),
        TargetFormat::Gif => Encoder::Plain(PlainFormat::Gif),
        TargetFormat::Ico => Encoder::Plain(PlainFormat::Ico),
        TargetFormat::Bmp => Encoder::Plain(PlainFormat::Bmp),
        TargetFormat::Tga => Encoder::Plain(PlainFormat::Tga),
        TargetFormat::Qoi => Encoder::Plain(PlainFormat::Qoi),
        TargetFormat::Tiff => Encoder::Plain(PlainFormat::Tiff),
        TargetFormat::Farbfeld => Encoder::Plain(PlainFormat::Farbfeld),
        TargetFormat::OpenExr => Encoder::OpenExr,
    }
}

/// What is said of an entry that was read as nothing.
pub open spec fn no_data_message(source: Seq<char>, name: Seq<char>) -> Seq<char> {
    "no data in '"@ + source + ":"@ + name + "'"@
}

/// The encoder that the settings ask for.
pub fn encoder_for(cfg: &Config) -> (encoder: Encoder)
    ensures
        encoder == encoder_of(*cfg),
{
    match cfg.format {
        TargetFormat::Avif => Encoder::Avif { speed: cfg.speed, quality: cfg.quality },
        TargetFormat::WebP => if cfg.lossless {
            Encoder::WebPLossless
        } else {
            Encoder::WebPLossy(cfg.quality)
        },
        TargetFormat::Png => Encoder::Png {
            compression: PngCompression::Best,
            filter: PngFilter::Adaptive,
        },
        TargetFormat::Jpeg(_) => {
            let quality: u8 = if cfg.quality > 100 {
                100
            } else {
                cfg.quality
            };
            Encoder::Plain(PlainFormat::Jpeg(quality))
        },
        TargetFormat::Pnm => Encoder::Pnm(PnmForm::ArbitraryMap),
        TargetFormat::Gif => Encoder::Plain(PlainFormat::Gif),
        TargetFormat::Ico => Encoder::Plain(PlainFormat::Ico),
        TargetFormat::Bmp => Encoder::Plain(PlainFormat::Bmp),
        TargetFormat::Tga => Encoder::Plain(PlainFormat::Tga),
        TargetFormat::Qoi => Encoder::Plain(PlainFormat::Qoi),
        TargetFormat::Tiff => Encoder::Plain(PlainFormat::Tiff),
        TargetFormat::Farbfeld => Encoder::Plain(PlainFormat::Farbfeld),
        TargetFormat::OpenExr => Encoder::OpenExr,
    }
}

/// Decides from what is known of an entry's extension: `lower` is the
/// extension in lowercase, `detected` the format it is recognised as.
pub fn decide(lower: Option<&str>, detected: Option<SourceFormat>, target: &TargetFormat) -> (plan:
    Plan)
    ensures
        plan == decision(
            match lower {
                Some(text) => Some(text@),
                None => None,
            },
            detected,
            *target,
        ),
{
    if let Some(text) = lower {
        if is_text_kind(text) {
            return Plan::Copy(Skip::Text);
        }
    }
    match detected {
        Some(format) => {
            if format == target.kind() {
                Plan::Copy(Skip::SameFormat)
            } else if format == SourceFormat::WebP || format == SourceFormat::Avif {
                Plan::Copy(Skip::AlreadyEfficient)
            } else {
                Plan::Convert(detected)
            }
        },
        None => Plan::Convert(None),
    }
}

/// The plan for the entry called `name`, with `target` as the format to
/// convert to.
pub fn plan(target: &TargetFormat, name: &str) -> (plan: Plan)
    ensures
        plan == plan_of(*target, name@),
{
    match extension(name) {
        Some(ext) => {
            let lower = lowercased(ext);
            decide(Some(lower.as_str()), detect_format(ext), target)
        },
        None => decide(None, None, target),
    }
}

/// The image that the codec decodes `data` to, told the format `hint`
/// where there is one, if it decodes it.
pub open spec fn decoded_of(data: Seq<u8>, hint: Option<SourceFormat>) -> Option<
    image::DynamicImage,
> {
    match hint {
        Some(format) => decoded_as(data, format),
        None => decoded_guessing(data),
    }
}

/// Whether the work of `encoder` is left to the caller: the encoders of
/// AVIF and of WebP with loss are not part of this library.
pub open spec fn is_left_to_caller(encoder: Encoder) -> bool {
    encoder is Avif || encoder is WebPLossy
}

/// The bytes that `encoder` makes of `image`, if it can encode it. Nothing
/// is encoded here by an encoder that is left to the caller, and the bytes of
/// OpenEXR are not fixed by the image.
pub open spec fn encoded_by(image: image::DynamicImage, encoder: Encoder) -> Option<Seq<u8>> {
    match encoder {
        Encoder::Avif { .. } | Encoder::WebPLossy(_) | Encoder::OpenExr => None,
        Encoder::WebPLossless => webp_lossless_bytes_of(image),
        Encoder::Png { compression, filter } => png_bytes_of(image, compression, filter),
        Encoder::Pnm(form) => pnm_bytes_of(image, form),
        Encoder::Plain(format) => plain_bytes_of(image, format),
    }
}

/// Whether `done` is what is owed for the entry `name` once it is decoded
/// as `image`: where the encoder is left to the caller, that very image with
/// the encoder to use; else the bytes that the encoder makes of it, or a
/// failure of the codec where it makes none; each under the new name. For
/// OpenEXR, whose bytes the image does not fix, any bytes under the new name
/// or a failure of the codec.
pub open spec fn reencoded(
    cfg: Config,
    name: Seq<char>,
    image: image::DynamicImage,
    done: Result<Transcoded, Error>,
) -> bool {
    let encoder = encoder_of(cfg);
    if is_left_to_caller(encoder) {
        done matches Ok(Transcoded::Decoded { name: stored, image: handed, encoder: chosen })
            && stored@ == converted_name_of(name, cfg.format) && handed == image && chosen
            == encoder
    } else if encoder is OpenExr {
        match done {
            Ok(Transcoded::Encoded { name: stored, .. }) => stored@ == converted_name_of(
                name,
                cfg.format,
            ),
            Ok(_) => false,
            Err(error) => error is ImageError,
        }
    } else {
        match encoded_by(image, encoder) {
            Some(bytes) => done matches Ok(Transcoded::Encoded { name: stored, data })
                && stored@ == converted_name_of(name, cfg.format) && data@ == bytes,
            None => done matches Err(error) && error is ImageError,
        }
    }
}

/// Whether `done` is what is owed for the entry `name` with content `data`
/// once the attempt to decode it has ended with `decoded`: the entry as it
/// was where it could not be decoded, else what is owed for the image.
pub open spec fn settled(
    cfg: Config,
    data: Seq<u8>,
    name: Seq<char>,
    decoded: Option<image::DynamicImage>,
    done: Result<Transcoded, Error>,
) -> bool {
    match decoded {
        Some(image) => reencoded(cfg, name, image, done),
        None => done matches Ok(Transcoded::Copied { name: stored, data: bytes, reason })
            && stored@ == name && bytes@ == data && reason == Skip::Undecodable,
    }
}

/// Whether `done` is what is owed for the entry `name` with content `data`:
/// the copy where the name decides so, else what is owed once the codec has
/// tried to decode `data`.
pub open spec fn transcoded(
    cfg: Config,
    data: Seq<u8>,
    name: Seq<char>,
    done: Result<Transcoded, Error>,
) -> bool {
    match plan_of(cfg.format, name) {
        Plan::Copy(reason) => done matches Ok(Transcoded::Copied { name: n, data: d, reason: r })
            && n@ == copied_name_of(reason, name) && d@ == data && r == reason,
        Plan::Convert(hint) => settled(cfg, data, name, decoded_of(data, hint), done),
    }
}

/// What an entry becomes once the encoder has run: the encoded entry under
/// `name`, or the encoder's failure.
pub fn after_encoding(name: String, encoded: Result<Vec<u8>, image::ImageError>) -> (done: Result<
    Transcoded,
    Error,
>)
    ensures
        match encoded {
            Ok(bytes) => done matches Ok(Transcoded::Encoded { name: n, data: d }) && n@ == name@
                && d@ == bytes@,
            Err(_) => done matches Err(e) && e is ImageError,
        },
{
    match encoded {
        Ok(bytes) => Ok(Transcoded::Encoded { name, data: bytes }),
        Err(error) => Err(Error::ImageError(describe(&error))),
    }
}

/// Encodes a decoded entry with the encoder that the settings ask for, for
/// the name that it is stored by. AVIF and WebP with loss are left to the
/// caller.
pub fn reencode(cfg: &Config, name: &str, image: image::DynamicImage) -> (done: Result<
    Transcoded,
    Error,
>)
    requires
        file_name_of(name@) is Some,
    ensures
        reencoded(*cfg, name@, image, done),
{
    let base = match file_name(name) {
        Some(found) => found,
        None => name,
    };
    let renamed = with_extension(base, cfg.format.ext());
    let encoder = encoder_for(cfg);
    match encoder {
        Encoder::Avif { .. } | Encoder::WebPLossy(_) => Ok(
            Transcoded::Decoded { name: renamed, image, encoder },
        ),
        Encoder::WebPLossless => after_encoding(renamed, encode_webp_lossless(&image)),
        Encoder::Png { compression, filter } => after_encoding(
            renamed,
            encode_png(&image, compression, filter),
        ),
        Encoder::Pnm(form) => after_encoding(renamed, encode_pnm(&image, form)),
        Encoder::Plain(format) => after_encoding(renamed, encode_with(&image, format)),
        Encoder::OpenExr => after_encoding(renamed, encode_openexr(&image)),
    }
}

/// What an entry becomes once the attempt to decode it has ended: the entry
/// as it was where the attempt failed, else the decoded image encoded anew.
pub fn after_decoding(
    cfg: &Config,
    data: Vec<u8>,
    name: &str,
    decoded: Result<image::DynamicImage, image::ImageError>,
) -> (done: Result<Transcoded, Error>)
    requires
        file_name_of(name@) is Some,
    ensures
        settled(
            *cfg,
            data@,
            name@,
            match decoded {
                Ok(image) => Some(image),
                Err(_) => None,
            },
            done,
        ),
{
    match decoded {
        Ok(image) => reencode(cfg, name, image),
        Err(_) => Ok(
            Transcoded::Copied { name: name.to_owned(), data, reason: Skip::Undecodable },
        ),
    }
}

/// Decides what becomes of the entry `name` with content `data`, and does
/// it.
pub fn transcode(cfg: &Config, data: Vec<u8>, name: &str) -> (done: Result<Transcoded, Error>)
    requires
        file_name_of(name@) is Some,
    ensures
        transcoded(*cfg, data@, name@, done),
{
    match plan(&cfg.format, name) {
        Plan::Copy(reason) => {
            let stored = match reason {
                Skip::Text | Skip::Undecodable => name.to_owned(),
                Skip::SameFormat | Skip::AlreadyEfficient => match file_name(name) {
                    Some(found) => found.to_owned(),
                    None => name.to_owned(),
                },
            };
            Ok(Transcoded::Copied { name: stored, data, reason })
        },
        Plan::Convert(hint) => {
            let decoded = match hint {
                Some(format) => decode_as(data.as_slice(), format),
                None => decode_guessing(data.as_slice()),
            };
            after_decoding(cfg, data, name, decoded)
        },
    }
}

/// Converts one entry of the file `source` as it was read: `read` is the
/// number of bytes that the container gave, `data` what they are. An entry
/// that was read as nothing fails; any other becomes what `transcode` makes
/// of it.
pub fn convert_entry(cfg: &Config, source: &str, name: &str, read: usize, data: Vec<u8>) -> (done:
    Result<Transcoded, Error>)
    requires
        read != 0 ==> file_name_of(name@) is Some,
    ensures
        read == 0 ==> (done matches Err(Error::Other(report)) && report@ == no_data_message(
            source@,
            name@,
        )),
        read != 0 ==> transcoded(*cfg, data@, name@, done),
{
    if read == 0 {
        let mut report = String::from_str("no data in '");
        report.append(source);
        report.append(":");
        report.append(name);
        report.append("'");
        Err(Error::Other(report))
    } else {
        transcode(cfg, data, name)
    }
}

/// The file name of a path is a path whose file name it is.
pub proof fn lemma_file_name_of_file_name(name: Seq<char>)
    requires
        file_name_of(name) is Some,
    ensures
        file_name_of(file_name_of(name)->0) == file_name_of(name),
        extension_of(file_name_of(name)->0) == extension_of(name),
{
    crate::path::laws::lemma_last_name(name);
    crate::path::laws::lemma_names_of_name(file_name_of(name)->0);
}

/// An entry that is converted is stored under a name without directories,
/// with the extension of the target format.
pub proof fn lemma_converted_name(name: Seq<char>, target: TargetFormat)
    requires
        file_name_of(name) is Some,
    ensures
        crate::path::laws::is_name(converted_name_of(name, target)),
        file_name_of(converted_name_of(name, target)) == Some(converted_name_of(name, target)),
        extension_of(converted_name_of(name, target)) == Some(target.ext_of()),
{
    reveal_strlit("avif");
    reveal_strlit("webp");
    reveal_strlit("jpeg");
    reveal_strlit("png");
    reveal_strlit("pnm");
    reveal_strlit("gif");
    reveal_strlit("ico");
    reveal_strlit("bmp");
    reveal_strlit("tga");
    reveal_strlit("qoi");
    reveal_strlit("tiff");
    reveal_strlit("farbfeld");
    reveal_strlit("openexr");
    crate::path::laws::lemma_last_name(name);
    crate::path::laws::lemma_with_extension_of_name(file_name_of(name)->0, target.ext_of());
}

/// An entry that is in the target format already is stored as it is: with
/// the bytes that it had, and under a name with the extension that it had.
pub proof fn lemma_target_format_is_copied(
    cfg: Config,
    data: Seq<u8>,
    name: Seq<char>,
    done: Result<Transcoded, Error>,
)
    requires
        file_name_of(name) is Some,
        extension_of(name) is Some,
        format_of_extension(extension_of(name)->0) == Some(cfg.format.kind_of()),
        transcoded(cfg, data, name, done),
    ensures
        done matches Ok(Transcoded::Copied { name: stored, data: bytes, .. }) && bytes@ == data
            && extension_of(stored@) == extension_of(name),
{
    lemma_file_name_of_file_name(name);
}

/// An entry whose extension marks it as text is stored as it is, whatever
/// it holds: with the bytes that it had, and under the name that it had.
pub proof fn lemma_text_is_copied(
    cfg: Config,
    data: Seq<u8>,
    name: Seq<char>,
    done: Result<Transcoded, Error>,
)
    requires
        extension_of(name) is Some,
        is_text_kind_of(lowercase(extension_of(name)->0)),
        transcoded(cfg, data, name, done),
    ensures
        done matches Ok(Transcoded::Copied { name: stored, data: bytes, reason }) && bytes@ == data
            && stored@ == name && reason == Skip::Text,
{
}

} // verus!
