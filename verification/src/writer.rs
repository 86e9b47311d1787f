//! Opening the output of a file: whether it may be written at all, and how
//! the file is to be opened.

use crate::error::Error;
use vstd::prelude::*;
use vstd::string::StringExecFns;

verus! {

/// How the output file is to be opened for writing.
#[derive(Copy, Clone, PartialEq, Eq, Debug, Structural)]
pub struct OpenMode {
    /// Whether the file must not exist before.
    pub create_new: bool,
    /// Whether what the file holds is to be dropped.
    pub truncate: bool,
}

/// What is said of an output that exists and may not be overwritten.
pub open spec fn already_exists_message(path: Seq<char>) -> Seq<char> {
    "Output file already exists "@ + path
}

/// Decides how the output at `path` is opened. An output that exists and
/// may not be overwritten is refused and left alone. Any other is opened for
/// writing: as a new file where none exists, and with its content dropped
/// only where overwriting is allowed.
pub fn open_mode(path: &str, exists: bool, force: bool) -> (mode: Result<OpenMode, Error>)
    ensures
        match mode {
            Ok(mode) => !(exists && !force) && mode == (OpenMode {
                create_new: !exists,
                truncate: force,
            }),
            Err(error) => exists && !force && (error matches Error::Io(report) && report@
                == already_exists_message(path@)),
        },
{
    if exists && !force {
        let mut report = String::from_str("Output file already exists ");
        report.append(path);
        Err(Error::Io(report))
    } else {
        Ok(OpenMode { create_new: !exists, truncate: force })
    }
}

} // verus!
