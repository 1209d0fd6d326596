use vstd::prelude::*;

verus! {

/// The failure kinds of the extraction pipeline. Each worker aborts on the
/// first error it meets; the scheduler turns any worker's error into overall
/// failure.
#[derive(Clone, Copy, Debug, PartialEq, Eq, Structural)]
pub enum ApkError {
    /// The package index was unreachable or malformed.
    IndexFetchError,
    /// The package name is absent from both relevant indices.
    PackageNotFound,
    /// The package archive could not be downloaded.
    ArchiveFetchError,
    /// The container or its payload is malformed, or an entry path is
    /// shorter than the configured strip prefix.
    ArchiveFormatError,
    /// The output root already exists; nothing may be overwritten.
    OutputExistsError,
    /// A local write failed.
    FilesystemWriteError,
}

} // verus!
