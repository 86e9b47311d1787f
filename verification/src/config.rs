//! What a run is configured with: the target image format, the encoder
//! settings, the container type of the output and the worker budget.

use vstd::prelude::*;

verus! {

/// The container type of the converted archives.
#[derive(Copy, Clone, PartialEq, Eq, PartialOrd, Ord, Debug, Structural)]
pub enum ArchiveType {
    Cbz,
    Zip,
    Cb7,
    SevenZip,
}

/// The two families of containers that the output can be written as.
#[derive(Copy, Clone, PartialEq, Eq, Debug, Structural)]
pub enum ContainerKind {
    /// A zip-like container, each entry compressed on its own.
    Zip,
    /// A solid archive.
    SevenZip,
}

/// How the entries of a container are compressed.
#[derive(Copy, Clone, PartialEq, Eq, Debug, Structural)]
pub enum Compression {
    /// Deflate, at its highest level.
    DeflateMaximum,
    /// LZMA2, with the settings of this preset.
    Lzma2(u32),
}

/// An image format that an entry can be recognised as.
#[derive(Copy, Clone, PartialEq, Eq, Hash, Debug, Structural)]
pub enum SourceFormat {
    Png,
    Jpeg,
    Gif,
    WebP,
    Pnm,
    Tiff,
    Tga,
    Dds,
    Bmp,
    Ico,
    Hdr,
    OpenExr,
    Farbfeld,
    Avif,
    Qoi,
}

/// An image format that entries can be converted to. JPEG carries its
/// quality.
#[derive(Copy, Clone, PartialEq, Eq, Debug, Structural)]
pub enum TargetFormat {
    Avif,
    WebP,
    Jpeg(u8),
    Png,
    Pnm,
    Gif,
    Ico,
    Bmp,
    Tga,
    Qoi,
    Tiff,
    Farbfeld,
    OpenExr,
}

/// A format that the codec writes by itself, with nothing to choose but the
/// quality of JPEG, and always to the same bytes.
#[derive(Copy, Clone, PartialEq, Eq, Debug, Structural)]
pub enum PlainFormat {
    Jpeg(u8),
    Gif,
    Ico,
    Bmp,
    Tga,
    Qoi,
    Tiff,
    Farbfeld,
}

/// How hard a PNG file is compressed.
#[derive(Copy, Clone, PartialEq, Eq, Debug, Structural)]
pub enum PngCompression {
    Default,
    Fast,
    Best,
}

/// How the lines of a PNG file are filtered before they are compressed.
#[derive(Copy, Clone, PartialEq, Eq, Debug, Structural)]
pub enum PngFilter {
    NoFilter,
    Sub,
    Up,
    Avg,
    Paeth,
    Adaptive,
}

/// The forms of a PNM file: a bitmap, a graymap or a pixmap, each with its
/// samples in binary or as text, or an arbitrary map.
#[derive(Copy, Clone, PartialEq, Eq, Debug, Structural)]
pub enum PnmForm {
    BitmapBinary,
    BitmapAscii,
    GraymapBinary,
    GraymapAscii,
    PixmapBinary,
    PixmapAscii,
    ArbitraryMap,
}

/// A format that has a file extension of its own.
pub trait FormatFileExt {
    /// The extension, as characters.
    spec fn ext_of(&self) -> Seq<char>;

    /// The extension that files of this format carry, without the dot.
    fn ext(&self) -> (e: &str)
        ensures
            e@ == self.ext_of(),
    ;
}

impl FormatFileExt for TargetFormat {
    open spec fn ext_of(&self) -> Seq<char> {
        match self {
            TargetFormat::Avif => "avif"@,
            TargetFormat::WebP => "webp"@,
            TargetFormat::Jpeg(_) => "jpeg"@,
            TargetFormat::Png => "png"@,
            TargetFormat::Pnm => "pnm"@,
            TargetFormat::Gif => "gif"@,
            TargetFormat::Ico => "ico"@,
            TargetFormat::Bmp => "bmp"@,
            TargetFormat::Tga => "tga"@,
            TargetFormat::Qoi => "qoi"@,
            TargetFormat::Tiff => "tiff"@,
            TargetFormat::Farbfeld => "farbfeld"@,
            TargetFormat::OpenExr => "openexr"@,
        }
    }

    fn ext(&self) -> (e: &str) {
        match self {
            TargetFormat::Avif => "avif",
            TargetFormat::WebP => "webp",
            TargetFormat::Jpeg(_) => "jpeg",
            TargetFormat::Png => "png",
            TargetFormat::Pnm => "pnm",
            TargetFormat::Gif => "gif",
            TargetFormat::Ico => "ico",
            TargetFormat::Bmp => "bmp",
            TargetFormat::Tga => "tga",
            TargetFormat::Qoi => "qoi",
            TargetFormat::Tiff => "tiff",
            TargetFormat::Farbfeld => "farbfeld",
            TargetFormat::OpenExr => "openexr",
        }
    }
}

impl FormatFileExt for ArchiveType {
    open spec fn ext_of(&self) -> Seq<char> {
        match self {
            ArchiveType::Zip => "zip"@,
            ArchiveType::Cbz => "cbz"@,
            ArchiveType::Cb7 => "cb7"@,
            ArchiveType::SevenZip => "7z"@,
        }
    }

    fn ext(&self) -> (e: &str) {
        match self {
            ArchiveType::Zip => "zip",
            ArchiveType::Cbz => "cbz",
            ArchiveType::Cb7 => "cb7",
            ArchiveType::SevenZip => "7z",
        }
    }
}

impl ArchiveType {
    /// The family of containers that this type is written as.
    pub open spec fn container_of(self) -> ContainerKind {
        match self {
            ArchiveType::Cbz | ArchiveType::Zip => ContainerKind::Zip,
            ArchiveType::Cb7 | ArchiveType::SevenZip => ContainerKind::SevenZip,
        }
    }

    /// The family of containers that this type is written as.
    pub fn container(&self) -> (kind: ContainerKind)
        ensures
            kind == self.container_of(),
    {
        match self {
            ArchiveType::Cbz | ArchiveType::Zip => ContainerKind::Zip,
            ArchiveType::Cb7 | ArchiveType::SevenZip => ContainerKind::SevenZip,
        }
    }

    /// The type written out: its extension.
    pub fn to_string(&self) -> (text: String)
        ensures
            text@ == self.ext_of(),
    {
        self.ext().to_owned()
    }
}

impl ContainerKind {
    /// How containers of this family compress their entries: a zip-like one
    /// by deflate at its highest level, a solid archive by LZMA2 with its
    /// strongest preset.
    pub open spec fn compression_of(self) -> Compression {
        match self {
            ContainerKind::Zip => Compression::DeflateMaximum,
            ContainerKind::SevenZip => Compression::Lzma2(9),
        }
    }

    /// How containers of this family compress their entries.
    pub fn compression(&self) -> (compression: Compression)
        ensures
            compression == self.compression_of(),
    {
        match self {
            ContainerKind::Zip => Compression::DeflateMaximum,
            ContainerKind::SevenZip => Compression::Lzma2(9),
        }
    }
}

impl TargetFormat {
    /// The format that an image written in this one is recognised as.
    pub open spec fn kind_of(self) -> SourceFormat {
        match self {
            TargetFormat::Avif => SourceFormat::Avif,
            TargetFormat::WebP => SourceFormat::WebP,
            TargetFormat::Jpeg(_) => SourceFormat::Jpeg,
            TargetFormat::Png => SourceFormat::Png,
            TargetFormat::Pnm => SourceFormat::Pnm,
            TargetFormat::Gif => SourceFormat::Gif,
            TargetFormat::Ico => SourceFormat::Ico,
            TargetFormat::Bmp => SourceFormat::Bmp,
            TargetFormat::Tga => SourceFormat::Tga,
            TargetFormat::Qoi => SourceFormat::Qoi,
            TargetFormat::Tiff => SourceFormat::Tiff,
            TargetFormat::Farbfeld => SourceFormat::Farbfeld,
            TargetFormat::OpenExr => SourceFormat::OpenExr,
        }
    }

    /// The format that an image written in this one is recognised as.
    pub fn kind(&self) -> (format: SourceFormat)
        ensures
            format == self.kind_of(),
    {
        match self {
            TargetFormat::Avif => SourceFormat::Avif,
            TargetFormat::WebP => SourceFormat::WebP,
            TargetFormat::Jpeg(_) => SourceFormat::Jpeg,
            TargetFormat::Png => SourceFormat::Png,
            TargetFormat::Pnm => SourceFormat::Pnm,
            TargetFormat::Gif => SourceFormat::Gif,
            TargetFormat::Ico => SourceFormat::Ico,
            TargetFormat::Bmp => SourceFormat::Bmp,
            TargetFormat::Tga => SourceFormat::Tga,
            TargetFormat::Qoi => SourceFormat::Qoi,
            TargetFormat::Tiff => SourceFormat::Tiff,
            TargetFormat::Farbfeld => SourceFormat::Farbfeld,
            TargetFormat::OpenExr => SourceFormat::OpenExr,
        }
    }
}

/// How grave a message is, the gravest first.
#[derive(Copy, Clone, PartialEq, Eq, Debug, Structural)]
pub enum LogLevel {
    Error,
    Warn,
    Info,
    Debug,
    Trace,
}

impl LogLevel {
    /// The place of this level among the levels, the gravest first.
    pub open spec fn rank_of(self) -> int {
        match self {
            LogLevel::Error => 0,
            LogLevel::Warn => 1,
            LogLevel::Info => 2,
            LogLevel::Debug => 3,
            LogLevel::Trace => 4,
        }
    }

    /// The place of this level among the levels, the gravest first.
    pub fn rank(&self) -> (rank: u8)
        ensures
            rank == self.rank_of(),
    {
        match self {
            LogLevel::Error => 0,
            LogLevel::Warn => 1,
            LogLevel::Info => 2,
            LogLevel::Debug => 3,
            LogLevel::Trace => 4,
        }
    }
}

/// What a run reports: messages down to `level`, and those of the libraries
/// it uses only where `extra` is set.
#[derive(Copy, Clone, PartialEq, Eq, Debug, Structural)]
pub struct Verbosity {
    pub level: LogLevel,
    pub extra: bool,
}

/// What a run reports when it was asked `verbose` times to say more:
/// warnings, then information, then details, then everything, and from the
/// fourth time on the messages of the libraries too.
pub open spec fn verbosity_of(verbose: u8) -> Verbosity {
    Verbosity {
        level: if verbose == 0 {
            LogLevel::Warn
        } else if verbose == 1 {
            LogLevel::Info
        } else if verbose == 2 {
            LogLevel::Debug
        } else {
            LogLevel::Trace
        },
        extra: verbose > 3,
    }
}

/// What a run reports when it was asked `verbose` times to say more.
pub fn verbosity(verbose: u8) -> (chosen: Verbosity)
    ensures
        chosen == verbosity_of(verbose),
{
    let level = match verbose {
        0 => LogLevel::Warn,
        1 => LogLevel::Info,
        2 => LogLevel::Debug,
        _ => LogLevel::Trace,
    };
    Verbosity { level, extra: verbose > 3 }
}

impl Verbosity {
    /// Whether a message of `level` is reported; `own` says whether it is a
    /// message of the program itself rather than of a library.
    pub open spec fn admits_of(self, level: LogLevel, own: bool) -> bool {
        level.rank_of() <= self.level.rank_of() && (own || self.extra)
    }

    /// Whether a message of `level` is reported; `own` says whether it is a
    /// message of the program itself rather than of a library.
    pub fn admits(&self, level: LogLevel, own: bool) -> (shown: bool)
        ensures
            shown == self.admits_of(level, own),
    {
        level.rank() <= self.level.rank() && (own || self.extra)
    }
}

/// The settings of one run.
#[derive(Clone, Debug)]
pub struct Config {
    /// The image format to convert to.
    pub format: TargetFormat,
    /// Encoder quality, 1 to 100.
    pub quality: u8,
    /// Whether to encode without loss, where the format can.
    pub lossless: bool,
    /// Encoder speed, 1 to 10.
    pub speed: u8,
    /// The worker budget.
    pub jobs: usize,
    /// The container type of the output.
    pub archive: ArchiveType,
    /// Whether an existing output file may be overwritten.
    pub force: bool,
}

} // verus!
