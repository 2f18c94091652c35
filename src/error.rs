use vstd::prelude::*;

use crate::header::PMTilesCompression;

verus! {

/// Why a varint or a directory block could not be decoded.
#[derive(Debug, Clone, Copy, PartialEq, Eq, Structural)]
pub enum DirectoryError {
    /// The input ended before a byte with the high bit clear.
    MalformedVarint,
    /// The varint's value does not fit in 64 bits.
    VarintOverflow,
    /// One of the four arrays ran out of input before the declared count.
    TruncatedDirectory,
    /// The arrays were read but describe no valid directory: a first entry
    /// that claims to follow a previous one, or an id or offset past `u64::MAX`.
    InvalidDirectoryEncoding,
}

/// Why the archive header could not be decoded.
#[derive(Debug, Clone, Copy, PartialEq, Eq, Structural)]
pub enum HeaderError {
    /// Fewer bytes than the header takes.
    Truncated,
    /// The first seven bytes are not the magic token.
    BadMagic,
    /// The version byte is not 3.
    UnsupportedVersion,
    /// The clustered flag, a compression kind or the tile type is out of range.
    InvalidEnum,
}

/// Why a block could not be decompressed.
#[derive(Debug, Clone, Copy, PartialEq, Eq, Structural)]
pub enum DecompressionError {
    /// The block declares a compression kind that this library does not decode.
    NotImplemented(PMTilesCompression),
    /// The compressed stream is corrupt.
    CorruptStream,
}

/// Why a read from an archive failed.
#[derive(Debug, Clone, Copy, PartialEq, Eq, Structural)]
pub enum PMTilesError {
    Header(HeaderError),
    Directory(DirectoryError),
    Decompression(DecompressionError),
    /// The metadata region is not valid UTF-8.
    InvalidUtf8,
    /// A region's start lies past `u64::MAX`.
    OffsetOverflow,
    /// A leaf directory points to a further leaf directory.
    NestedLeafDirectory,
}

} // verus!
