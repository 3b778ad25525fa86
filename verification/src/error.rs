use vstd::prelude::*;

verus! {

/// Errors raised while decoding, building or writing a tar stream.
#[derive(Clone, Copy, Debug, PartialEq, Eq, Structural)]
pub enum TarError {
    /// The all-zero end-of-archive sentinel was read instead of an entry
    /// header. This marks a normal end of the stream, not a defect.
    EndOfTar,
    /// A decoded header's magic field does not hold the USTAR identifier.
    InvalidMagic,
    /// A decoded header's stored checksum does not match the recomputed one.
    InvalidChecksum,
    /// The byte stream ended before a full header record could be read.
    IoFailure,
    /// File metadata could not be resolved for a path.
    MetadataFailure,
    /// A numeric field does not hold parseable octal text.
    EncodingFailure,
}

/// Errors raised while classifying a file's type from its metadata.
#[derive(Clone, Copy, Debug, PartialEq, Eq, Structural)]
pub enum FileTypeError {
    Unknown,
    IoError,
    InvalidMetaData,
}

/// The union of the error kinds a caller of this crate can see.
#[derive(Clone, Copy, Debug, PartialEq, Eq, Structural)]
pub enum LibraryError {
    Filetype(FileTypeError),
    Io,
    Tar(TarError),
}

impl From<FileTypeError> for LibraryError {
    fn from(error: FileTypeError) -> (r: Self) {
        LibraryError::Filetype(error)
    }
}

impl vstd::std_specs::convert::FromSpecImpl<FileTypeError> for LibraryError {
    open spec fn obeys_from_spec() -> bool {
        true
    }

    open spec fn from_spec(error: FileTypeError) -> Self {
        LibraryError::Filetype(error)
    }
}

impl From<TarError> for LibraryError {
    fn from(error: TarError) -> (r: Self) {
        LibraryError::Tar(error)
    }
}

impl vstd::std_specs::convert::FromSpecImpl<TarError> for LibraryError {
    open spec fn obeys_from_spec() -> bool {
        true
    }

    open spec fn from_spec(error: TarError) -> Self {
        LibraryError::Tar(error)
    }
}

} // verus!
