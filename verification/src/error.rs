use vstd::prelude::*;

verus! {

/// The error taxonomy of the library. `Io` stands for a read or open failure
/// against the index file or the entries directory (the I/O itself happens
/// outside the library and is reported through this variant); `MissingHeader`
/// means fewer than a full header's worth of bytes were available;
/// `FileTooSmall` means a buffer was too short for the structure asked of it;
/// `Utf` means malformed text was met where hex or UTF-8 text was expected.
/// `NoError` is a placeholder for uniform result typing and is never surfaced.
#[derive(Debug, Clone, Copy, PartialEq, Eq, Structural)]
pub enum MzError {
    NoError,
    Io,
    MissingHeader,
    FileTooSmall,
    Utf,
}

pub type MzResult<T> = Result<T, MzError>;

} // verus!
