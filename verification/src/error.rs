use vstd::prelude::*;

verus! {

/// The fallible outcomes that every log operation can produce.
#[derive(Debug, Clone, Copy, PartialEq, Eq)]
pub enum Error {
    /// The container's size is not a multiple of the block size; fatal at open.
    InvalidLength,
    /// The trailer sentinel is missing or mismatched; fatal at open.
    InvalidMagic,
    /// The payload bytes do not match their stored checksum; fatal for that read only.
    InvalidChecksum,
    /// The requested capability is a reserved extension point.
    NotImplemented,
    /// Bytes were missing where the format requires them, as after a short read.
    IO,
}

impl Error {
    /// A short description of the failure, one per variant.
    pub fn description(&self) -> (r: &'static str)
        ensures
            self is InvalidLength ==> r@ == "Log file length is not a multiple of block size"@,
            self is InvalidMagic ==> r@ == "Invalid magic value at the end of the log file"@,
            self is InvalidChecksum ==> r@ == "Checksum mismatch during read"@,
            self is NotImplemented ==> r@ == "Feature is not implemented yet"@,
            self is IO ==> r@ == "IO error"@,
    {
        match self {
            Error::InvalidLength => "Log file length is not a multiple of block size",
            Error::InvalidMagic => "Invalid magic value at the end of the log file",
            Error::InvalidChecksum => "Checksum mismatch during read",
            Error::NotImplemented => "Feature is not implemented yet",
            Error::IO => "IO error",
        }
    }
}

} // verus!
