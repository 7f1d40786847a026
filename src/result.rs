use vstd::prelude::*;

verus! {

/// What can be wrong with the bytes of a container.
#[derive(Clone, Copy, Debug, PartialEq, Eq, Structural)]
pub enum FormatError {
    /// A header's magic field does not hold the expected constant.
    BadSignature,
    /// The file header declares a data type other than compression.
    UnsupportedDataType,
    /// The file header declares a compression format other than LZNT1.
    UnsupportedCompression,
    /// A block's `data_size` is larger than the file's `block_size`.
    BlockSizeExceeded { data_size: u32, block_size: u32 },
    /// A block's payload does not match its stored CRC-32.
    ChecksumMismatch { computed: u32, expected: u32 },
    /// A block expanded to `size` bytes, more than `block_size`.
    DecompressedTooLarge { size: u64, block_size: u32 },
    /// Fewer bytes were available than a header needs.
    Truncated,
    /// The reconstructed size no longer fits in 64 bits.
    SizeOverflow,
}

/// The errors of this library.
#[derive(Debug)]
pub enum Error {
    /// Storage could not be read or written; the text names the path.
    IoError(String),
    /// The container is malformed.
    DumpParseError(FormatError),
    /// A number could not be parsed.
    IntParseError(String),
    /// A log level name that is not one of the known levels.
    UnknownLogLevel(String),
}

pub type Result<T> = core::result::Result<T, Error>;

/// Lifts a format error into the library's error type.
pub open spec fn lift<T>(r: core::result::Result<T, FormatError>) -> Result<T> {
    match r {
        Ok(v) => Ok(v),
        Err(e) => Err(Error::DumpParseError(e)),
    }
}

} // verus!
