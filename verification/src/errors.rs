use vstd::prelude::*;

verus! {

/// Failure of a single mirror operation, as seen by the download
/// endpoint, the fetch workers and the background loops.
#[derive(Debug, Clone, Copy, PartialEq, Eq, Structural)]
pub enum Error {
    /// The index has no entry for the requested identity.
    NotInIndex,
    /// The pending-task table is saturated; the submission was refused.
    Overloaded,
    /// The upstream registry did not hand back a tarball.
    UpstreamFetch,
    /// The downloaded bytes do not hash to the checksum the index promised.
    ChecksumMismatch,
    /// The underlying content store refused a write.
    StoreError,
    /// A synchronizer pass failed; the previous snapshot stays in service.
    IndexSyncError,
    /// An index line could not be decoded; the line is skipped.
    IndexParseError,
}

impl Error {
    /// The HTTP status a client sees for this failure: 404 when the
    /// index lacks the release, 500 for every failure of the fetch
    /// path, and nothing at all for the background loops' failures,
    /// which never reach a client.
    pub fn http_status(&self) -> (r: Option<u16>)
        ensures
            r == Some(404u16) <==> *self == Error::NotInIndex,
            r == Some(500u16) <==> (*self == Error::Overloaded || *self == Error::UpstreamFetch
                || *self == Error::ChecksumMismatch || *self == Error::StoreError),
            r is None <==> (*self == Error::IndexSyncError || *self == Error::IndexParseError),
    {
        match self {
            Error::NotInIndex => Some(404),
            Error::Overloaded => Some(500),
            Error::UpstreamFetch => Some(500),
            Error::ChecksumMismatch => Some(500),
            Error::StoreError => Some(500),
            Error::IndexSyncError => None,
            Error::IndexParseError => None,
        }
    }
}

/// A spawned process finished with a non-zero exit code.
#[derive(Debug, Clone, Copy, PartialEq, Eq, Structural)]
pub struct ExitCodeNotZero;

/// Rejection of the configured download-URL template at startup.
#[derive(Debug, Clone, Copy, PartialEq, Eq, Structural)]
pub enum ConfigError {
    /// The template does not contain the crate-name placeholder.
    MissingCrateMarker,
    /// The template does not contain the version placeholder.
    MissingVersionMarker,
    /// The template does not substitute into a well-formed URI.
    InvalidUri,
}

} // verus!
