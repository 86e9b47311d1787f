//! Batch conversion of image archives: the rules that decide which entries of
//! a container are converted, under which names they are stored, where the
//! output of a source file goes, and how much work runs at once.
//!
//! The library decides and computes; it reads no file and writes none. Its
//! caller lists the entries of a container, reads their bytes, writes the
//! output, and reports each completion.
//!
//! - [`path`] is the model of paths that everything else is stated over.
//! - [`resolve`] orders the source files and drops those named twice;
//!   [`paths`] gives each its output path, which [`safety`] shows to stay
//!   within the output directory.
//! - [`entries`] and [`listing`] choose the entries of a container that are
//!   worth converting.
//! - [`transcode`] decides what becomes of one entry, and has the image codec
//!   of [`codec`] do it; [`format`] reads the name of the target format.
//! - [`schedule`] and [`job`] bound what is in flight and order the steps of
//!   one file; [`budget`] divides the workers between files and entries.
//! - [`writer`] decides how an output file is opened.

pub mod budget;
pub mod codec;
pub mod config;
pub mod entries;
pub mod error;
pub mod format;
pub mod job;
pub mod listing;
pub mod order;
pub mod path;
pub mod paths;
pub mod resolve;
pub mod safety;
pub mod schedule;
pub mod text;
pub mod transcode;
pub mod writer;
