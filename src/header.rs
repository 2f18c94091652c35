use vstd::prelude::*;

use crate::error::HeaderError;

verus! {

/// Size of the header at the start of every archive.
pub const HEADER_BYTES: usize = 127;

/// The version of the format that this library reads.
pub const SUPPORTED_VERSION: u8 = 3;

/// How a block of the archive is compressed.
#[derive(Debug, Clone, Copy, PartialEq, Eq, Structural)]
pub enum PMTilesCompression {
    Unknown,
    Uncompressed,
    Gzip,
    Brotli,
    Zstd,
}

/// What kind of payload the tiles hold.
#[derive(Debug, Clone, Copy, PartialEq, Eq, Structural)]
pub enum PMTilesTileType {
    Other,
    Mvt,
    Png,
    Jpeg,
    Webp,
    Avif,
}

/// A geographic position in fixed point: degrees times ten million, as the
/// header stores them.
#[derive(Debug, Clone, Copy, PartialEq, Eq, Structural)]
pub struct PMTilesPosition {
    pub lon_e7: i32,
    pub lat_e7: i32,
}

/// The archive header: where the four regions lie, tile counts, the two
/// compression kinds, the tile type, and the zoom and extent metadata.
#[derive(Debug, Clone, Copy, PartialEq, Eq, Structural)]
pub struct PMTilesHeaderV3 {
    pub root_directory_offset: u64,
    pub root_directory_length: u64,
    pub metadata_offset: u64,
    pub metadata_length: u64,
    pub leaf_directories_offset: u64,
    pub leaf_directories_length: u64,
    pub tile_data_offset: u64,
    pub tile_data_length: u64,
    pub number_of_addressed_tiles: u64,
    pub number_of_tile_entries: u64,
    pub number_of_tile_contents: u64,
    pub clustered: bool,
    pub internal_compression: PMTilesCompression,
    pub tile_compression: PMTilesCompression,
    pub tile_type: PMTilesTileType,
    pub min_zoom: u8,
    pub max_zoom: u8,
    pub min_position: PMTilesPosition,
    pub max_position: PMTilesPosition,
    pub center_zoom: u8,
    pub center_position: PMTilesPosition,
}

/// The magic token "PMTiles" in ASCII.
pub open spec fn magic_spec() -> Seq<u8> {
    seq![0x50u8, 0x4du8, 0x54u8, 0x69u8, 0x6cu8, 0x65u8, 0x73u8]
}

/// The little-endian unsigned 64-bit integer in `s` at `i`.
pub open spec fn le_u64_at(s: Seq<u8>, i: int) -> int {
    s[i] + s[i + 1] * 0x100 + s[i + 2] * 0x1_0000 + s[i + 3] * 0x100_0000 + s[i + 4]
        * 0x1_0000_0000 + s[i + 5] * 0x100_0000_0000 + s[i + 6] * 0x1_0000_0000_0000 + s[i + 7]
        * 0x100_0000_0000_0000
}

/// The little-endian unsigned 32-bit integer in `s` at `i`.
pub open spec fn le_u32_at(s: Seq<u8>, i: int) -> int {
    s[i] + s[i + 1] * 0x100 + s[i + 2] * 0x1_0000 + s[i + 3] * 0x100_0000
}

/// The little-endian two's-complement 32-bit integer in `s` at `i`.
pub open spec fn le_i32_at(s: Seq<u8>, i: int) -> int {
    if le_u32_at(s, i) >= 0x8000_0000 {
        le_u32_at(s, i) - 0x1_0000_0000
    } else {
        le_u32_at(s, i)
    }
}

/// The compression kind that a byte denotes, if any.
pub open spec fn compression_of(b: u8) -> Option<PMTilesCompression> {
    if b == 0 {
        Some(PMTilesCompression::Unknown)
    } else if b == 1 {
        Some(PMTilesCompression::Uncompressed)
    } else if b == 2 {
        Some(PMTilesCompression::Gzip)
    } else if b == 3 {
        Some(PMTilesCompression::Brotli)
    } else if b == 4 {
        Some(PMTilesCompression::Zstd)
    } else {
        None
    }
}

/// The tile type that a byte denotes, if any.
pub open spec fn tile_type_of(b: u8) -> Option<PMTilesTileType> {
    if b == 0 {
        Some(PMTilesTileType::Other)
    } else if b == 1 {
        Some(PMTilesTileType::Mvt)
    } else if b == 2 {
        Some(PMTilesTileType::Png)
    } else if b == 3 {
        Some(PMTilesTileType::Jpeg)
    } else if b == 4 {
        Some(PMTilesTileType::Webp)
    } else if b == 5 {
        Some(PMTilesTileType::Avif)
    } else {
        None
    }
}

/// The position stored at `i`: longitude, then latitude.
pub open spec fn position_at(s: Seq<u8>, i: int) -> PMTilesPosition {
    PMTilesPosition { lon_e7: le_i32_at(s, i) as i32, lat_e7: le_i32_at(s, i + 4) as i32 }
}

/// What decoding the header at the start of `s` gives.
pub open spec fn header_spec(s: Seq<u8>) -> Result<PMTilesHeaderV3, HeaderError> {
    if s.len() < 127 {
        Err(HeaderError::Truncated)
    } else if s.take(7) != magic_spec() {
        Err(HeaderError::BadMagic)
    } else if s[7] != 3 {
        Err(HeaderError::UnsupportedVersion)
    } else if s[96] > 1 || compression_of(s[97]) is None || compression_of(s[98]) is None
        || tile_type_of(s[99]) is None {
        Err(HeaderError::InvalidEnum)
    } else {
        Ok(
            PMTilesHeaderV3 {
                root_directory_offset: le_u64_at(s, 8) as u64,
                root_directory_length: le_u64_at(s, 16) as u64,
                metadata_offset: le_u64_at(s, 24) as u64,
                metadata_length: le_u64_at(s, 32) as u64,
                leaf_directories_offset: le_u64_at(s, 40) as u64,
                leaf_directories_length: le_u64_at(s, 48) as u64,
                tile_data_offset: le_u64_at(s, 56) as u64,
                tile_data_length: le_u64_at(s, 64) as u64,
                number_of_addressed_tiles: le_u64_at(s, 72) as u64,
                number_of_tile_entries: le_u64_at(s, 80) as u64,
                number_of_tile_contents: le_u64_at(s, 88) as u64,
                clustered: s[96] == 1,
                internal_compression: compression_of(s[97])->Some_0,
                tile_compression: compression_of(s[98])->Some_0,
                tile_type: tile_type_of(s[99])->Some_0,
                min_zoom: s[100],
                max_zoom: s[101],
                min_position: position_at(s, 102),
                max_position: position_at(s, 110),
                center_zoom: s[118],
                center_position: position_at(s, 119),
            },
        )
    }
}

/// Reads the little-endian `u64` at `at`.
fn read_le_u64(input: &[u8], at: usize) -> (r: u64)
    requires
        at + 8 <= input@.len(),
    ensures
        r == le_u64_at(input@, at as int),
{
    let b0 = input[at] as u64;
    let b1 = input[at + 1] as u64;
    let b2 = input[at + 2] as u64;
    let b3 = input[at + 3] as u64;
    let b4 = input[at + 4] as u64;
    let b5 = input[at + 5] as u64;
    let b6 = input[at + 6] as u64;
    let b7 = input[at + 7] as u64;
    b0 + b1 * 0x100 + b2 * 0x1_0000 + b3 * 0x100_0000 + b4 * 0x1_0000_0000 + b5 * 0x100_0000_0000
        + b6 * 0x1_0000_0000_0000 + b7 * 0x100_0000_0000_0000
}

/// Reads the little-endian `i32` at `at`.
fn read_le_i32(input: &[u8], at: usize) -> (r: i32)
    requires
        at + 4 <= input@.len(),
    ensures
        r == le_i32_at(input@, at as int),
{
    let b0 = input[at] as u32;
    let b1 = input[at + 1] as u32;
    let b2 = input[at + 2] as u32;
    let b3 = input[at + 3] as u32;
    let u: u32 = b0 + b1 * 0x100 + b2 * 0x1_0000 + b3 * 0x100_0000;
    if u < 0x8000_0000 {
        u as i32
    } else {
        ((u - 0x8000_0000) as i32) - 0x7fff_ffff - 1
    }
}

/// Reads the position at `at`: longitude, then latitude.
fn parse_position(input: &[u8], at: usize) -> (r: PMTilesPosition)
    requires
        at + 8 <= input@.len(),
        at <= HEADER_BYTES,
    ensures
        r == position_at(input@, at as int),
{
    let lon_e7 = read_le_i32(input, at);
    let lat_e7 = read_le_i32(input, at + 4);
    PMTilesPosition { lon_e7, lat_e7 }
}

/// Decodes the clustered flag: 0 or 1.
fn parse_clustered(raw: u8) -> (r: Result<bool, HeaderError>)
    ensures
        raw <= 1 ==> r == Ok::<bool, HeaderError>(raw == 1),
        raw > 1 ==> r == Err::<bool, HeaderError>(HeaderError::InvalidEnum),
{
    match raw {
        0 => Ok(false),
        1 => Ok(true),
        _ => Err(HeaderError::InvalidEnum),
    }
}

/// Decodes a compression kind.
fn parse_compression(raw: u8) -> (r: Result<PMTilesCompression, HeaderError>)
    ensures
        match compression_of(raw) {
            Some(c) => r == Ok::<PMTilesCompression, HeaderError>(c),
            None => r == Err::<PMTilesCompression, HeaderError>(HeaderError::InvalidEnum),
        },
{
    match raw {
        0 => Ok(PMTilesCompression::Unknown),
        1 => Ok(PMTilesCompression::Uncompressed),
        2 => Ok(PMTilesCompression::Gzip),
        3 => Ok(PMTilesCompression::Brotli),
        4 => Ok(PMTilesCompression::Zstd),
        _ => Err(HeaderError::InvalidEnum),
    }
}

/// Decodes a tile type.
fn parse_tile_type(raw: u8) -> (r: Result<PMTilesTileType, HeaderError>)
    ensures
        match tile_type_of(raw) {
            Some(t) => r == Ok::<PMTilesTileType, HeaderError>(t),
            None => r == Err::<PMTilesTileType, HeaderError>(HeaderError::InvalidEnum),
        },
{
    match raw {
        0 => Ok(PMTilesTileType::Other),
        1 => Ok(PMTilesTileType::Mvt),
        2 => Ok(PMTilesTileType::Png),
        3 => Ok(PMTilesTileType::Jpeg),
        4 => Ok(PMTilesTileType::Webp),
        5 => Ok(PMTilesTileType::Avif),
        _ => Err(HeaderError::InvalidEnum),
    }
}

/// Decodes the header at the start of `input`, and gives the input that
/// follows it.
pub fn parse_header(input: &[u8]) -> (r: Result<(&[u8], PMTilesHeaderV3), HeaderError>)
    ensures
        match header_spec(input@) {
            Ok(h) => r matches Ok((rest, header)) && header == h && rest@ == input@.skip(
                HEADER_BYTES as int,
            ),
            Err(e) => r == Err::<(&[u8], PMTilesHeaderV3), HeaderError>(e),
        },
{
    if input.len() < HEADER_BYTES {
        return Err(HeaderError::Truncated);
    }
    let magic_ok = input[0] == 0x50 && input[1] == 0x4d && input[2] == 0x54 && input[3] == 0x69
        && input[4] == 0x6c && input[5] == 0x65 && input[6] == 0x73;
    if !magic_ok {
        proof {
            let m = magic_spec();
            if input@.take(7) == m {
                assert(input@.take(7)[0] == m[0]);
                assert(input@.take(7)[1] == m[1]);
                assert(input@.take(7)[2] == m[2]);
                assert(input@.take(7)[3] == m[3]);
                assert(input@.take(7)[4] == m[4]);
                assert(input@.take(7)[5] == m[5]);
                assert(input@.take(7)[6] == m[6]);
            }
        }
        return Err(HeaderError::BadMagic);
    }
    assert(input@.take(7) =~= magic_spec());
    if input[7] != SUPPORTED_VERSION {
        return Err(HeaderError::UnsupportedVersion);
    }
    let clustered = match parse_clustered(input[96]) {
        Ok(c) => c,
        Err(e) => {
            return Err(e);
        },
    };
    let internal_compression = match parse_compression(input[97]) {
        Ok(c) => c,
        Err(e) => {
            return Err(e);
        },
    };
    let tile_compression = match parse_compression(input[98]) {
        Ok(c) => c,
        Err(e) => {
            return Err(e);
        },
    };
    let tile_type = match parse_tile_type(input[99]) {
        Ok(t) => t,
        Err(e) => {
            return Err(e);
        },
    };
    let header = PMTilesHeaderV3 {
        root_directory_offset: read_le_u64(input, 8),
        root_directory_length: read_le_u64(input, 16),
        metadata_offset: read_le_u64(input, 24),
        metadata_length: read_le_u64(input, 32),
        leaf_directories_offset: read_le_u64(input, 40),
        leaf_directories_length: read_le_u64(input, 48),
        tile_data_offset: read_le_u64(input, 56),
        tile_data_length: read_le_u64(input, 64),
        number_of_addressed_tiles: read_le_u64(input, 72),
        number_of_tile_entries: read_le_u64(input, 80),
        number_of_tile_contents: read_le_u64(input, 88),
        clustered,
        internal_compression,
        tile_compression,
        tile_type,
        min_zoom: input[100],
        max_zoom: input[101],
        min_position: parse_position(input, 102),
        max_position: parse_position(input, 110),
        center_zoom: input[118],
        center_position: parse_position(input, 119),
    };
    let (_, rest) = input.split_at(HEADER_BYTES);
    Ok((rest, header))
}

} // verus!
