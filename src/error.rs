//! The failures that a run or one package's test can meet.
use vstd::prelude::*;

verus! {

/// One case per kind of failure; the payload is the detail reported for it.
#[derive(Debug, Clone, PartialEq, Eq)]
pub enum Error {
    /// The manifest names no package; holds the manifest's path.
    ManifestName(String),
    TomlError(String),
    IoError(String),
    CurlError(String),
    /// The registry answered with this status code.
    HttpError(u32),
    FromUtf8Error,
    JsonDecode,
    /// The worker running a package's test went away without a result.
    RecvError,
    NoCrateVersions,
    /// An external tool exited with failure; holds what it wrote to stderr.
    ProcessError(String),
}

} // verus!
