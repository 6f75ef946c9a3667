//! The failure kinds that the download pipeline reports.

use vstd::prelude::*;

verus! {

/// One of the ways a run, or a single link within a run, can fail.
#[derive(Clone, Copy, Debug, PartialEq, Eq)]
pub enum DownloadError {
    /// The thread URL lacks the expected `/`-segment structure.
    MalformedUrl,
    /// A request could not be sent, or the connection failed.
    TransportError,
    /// A media fetch was answered with the given non-success HTTP status.
    HttpStatusError(u16),
    /// The fetched bytes could not be written to local storage.
    IoError,
}

} // verus!
