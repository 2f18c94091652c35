use vstd::prelude::*;
use vstd::utf8::{decode_utf8, valid_utf8};

use crate::decompress::{decompress, decompress_spec, is_supported};
use crate::directory::{directory_spec, parse_directory, PMTilesEntry};
use crate::error::{DecompressionError, PMTilesError};
use crate::header::{header_spec, parse_header, PMTilesHeaderV3, PMTilesTileType};

verus! {

/// A range of bytes of the archive file, from its start.
#[derive(Debug, Clone, Copy, PartialEq, Eq, Structural)]
pub struct ByteRange {
    pub offset: u64,
    pub length: u64,
}

/// The range to read for a region at `offset` of `length` bytes, or `None`
/// where the region is empty and nothing is to be read.
pub open spec fn region_spec(offset: u64, length: u64) -> Option<ByteRange> {
    if length == 0 {
        None
    } else {
        Some(ByteRange { offset, length })
    }
}

/// The range to read for a block at `offset` within a region that starts at
/// `base`, or `None` where the block is empty and nothing is to be read.
pub open spec fn relative_region_spec(base: u64, offset: u64, length: u64) -> Result<
    Option<ByteRange>,
    PMTilesError,
> {
    if length == 0 {
        Ok(None)
    } else if base + offset > u64::MAX {
        Err(PMTilesError::OffsetOverflow)
    } else {
        Ok(Some(ByteRange { offset: (base + offset) as u64, length }))
    }
}

/// What the metadata region, read as the bytes `raw`, holds as text.
pub open spec fn metadata_spec(h: PMTilesHeaderV3, raw: Seq<u8>) -> Result<Seq<char>, PMTilesError> {
    match decompress_spec(raw, h.internal_compression) {
        Err(e) => Err(PMTilesError::Decompression(e)),
        Ok(b) => if valid_utf8(b) {
            Ok(decode_utf8(b))
        } else {
            Err(PMTilesError::InvalidUtf8)
        },
    }
}

/// The entries of a directory block read as the bytes `raw`; an empty block
/// is an absent directory with no entries.
pub open spec fn directory_block_spec(h: PMTilesHeaderV3, raw: Seq<u8>) -> Result<
    Seq<PMTilesEntry>,
    PMTilesError,
> {
    if raw.len() == 0 {
        Ok(Seq::empty())
    } else {
        match decompress_spec(raw, h.internal_compression) {
            Err(e) => Err(PMTilesError::Decompression(e)),
            Ok(b) => match directory_spec(b) {
                Ok((entries, _)) => Ok(entries),
                Err(e) => Err(PMTilesError::Directory(e)),
            },
        }
    }
}

/// The payload of a tile read as the bytes `raw`.
pub open spec fn tile_spec(h: PMTilesHeaderV3, raw: Seq<u8>) -> Result<Seq<u8>, PMTilesError> {
    match decompress_spec(raw, h.tile_compression) {
        Err(e) => Err(PMTilesError::Decompression(e)),
        Ok(b) => Ok(b),
    }
}

/// Index of the last of the first `n` entries whose tile id is at most `id`.
pub open spec fn last_at_or_below(es: Seq<PMTilesEntry>, id: u64, n: int) -> Option<int>
    decreases n,
{
    if n <= 0 {
        None
    } else if es[n - 1].tile_id <= id {
        Some(n - 1)
    } else {
        last_at_or_below(es, id, n - 1)
    }
}

/// The entry of a directory, in ascending tile id order, that covers tile
/// `id`: the tile entry with that id, or the leaf pointer whose range of ids
/// holds it, which runs from the pointer's id to the next entry's.
pub open spec fn covering_entry(es: Seq<PMTilesEntry>, id: u64) -> Option<PMTilesEntry> {
    match last_at_or_below(es, id, es.len() as int) {
        None => None,
        Some(i) => if es[i].is_tile && es[i].tile_id != id {
            None
        } else {
            Some(es[i])
        },
    }
}

/// The next step of looking up a tile by id.
#[derive(Debug, Clone, Copy, PartialEq, Eq, Structural)]
pub enum LookupStep {
    /// No entry covers the tile: the archive does not hold it.
    Missing,
    /// The entry that addresses the tile within the tile-data region.
    Tile(PMTilesEntry),
    /// The leaf directory to decode and search one level down.
    Leaf(PMTilesEntry),
}

/// What searching the directory `es` for tile `id` gives. `in_leaf` tells
/// that `es` is a leaf directory, where a further leaf pointer is an error:
/// the format nests one level of leaves at most.
pub open spec fn lookup_spec(es: Seq<PMTilesEntry>, id: u64, in_leaf: bool) -> Result<
    LookupStep,
    PMTilesError,
> {
    match covering_entry(es, id) {
        None => Ok(LookupStep::Missing),
        Some(e) => if e.is_tile {
            Ok(LookupStep::Tile(e))
        } else if in_leaf {
            Err(PMTilesError::NestedLeafDirectory)
        } else {
            Ok(LookupStep::Leaf(e))
        },
    }
}

/// The entry of `entries`, in ascending tile id order, that covers tile
/// `tile_id`, if any.
pub fn find_entry(entries: &[PMTilesEntry], tile_id: u64) -> (r: Option<PMTilesEntry>)
    ensures
        r == covering_entry(entries@, tile_id),
{
    let mut n: usize = entries.len();
    while n > 0
        invariant
            n <= entries@.len(),
            last_at_or_below(entries@, tile_id, entries@.len() as int) == last_at_or_below(
                entries@,
                tile_id,
                n as int,
            ),
        decreases n,
    {
        let e = entries[n - 1];
        if e.tile_id <= tile_id {
            if e.is_tile && e.tile_id != tile_id {
                return None;
            }
            return Some(e);
        }
        n = n - 1;
    }
    None
}

/// Searches the directory `entries` for tile `tile_id`: the tile's entry, the
/// leaf directory to descend into, or that it is missing. A lookup starts at
/// the root directory and descends at most once.
pub fn lookup_step(entries: &[PMTilesEntry], tile_id: u64, in_leaf: bool) -> (r: Result<
    LookupStep,
    PMTilesError,
>)
    ensures
        r == lookup_spec(entries@, tile_id, in_leaf),
{
    match find_entry(entries, tile_id) {
        None => Ok(LookupStep::Missing),
        Some(e) => if e.is_tile {
            Ok(LookupStep::Tile(e))
        } else if in_leaf {
            Err(PMTilesError::NestedLeafDirectory)
        } else {
            Ok(LookupStep::Leaf(e))
        },
    }
}

/// An empty region is never read: its range is `None`, and an empty block
/// decodes to an empty directory and to empty metadata text.
pub proof fn lemma_empty_region_reads_nothing(h: PMTilesHeaderV3, base: u64, offset: u64)
    ensures
        region_spec(offset, 0) is None,
        relative_region_spec(base, offset, 0) == Ok::<Option<ByteRange>, PMTilesError>(None),
        directory_block_spec(h, Seq::empty()) == Ok::<Seq<PMTilesEntry>, PMTilesError>(
            Seq::empty(),
        ),
        metadata_spec(h, Seq::empty()) == Ok::<Seq<char>, PMTilesError>(Seq::empty()),
{
    assert(valid_utf8(Seq::<u8>::empty()));
    assert(decode_utf8(Seq::<u8>::empty()) =~= Seq::<char>::empty());
}

/// A directory or tile block that declares a compression kind this library
/// does not decode fails with `NotImplemented`, never with a success.
pub proof fn lemma_unsupported_compression_fails(h: PMTilesHeaderV3, raw: Seq<u8>)
    requires
        raw.len() > 0,
    ensures
        !is_supported(h.internal_compression) ==> directory_block_spec(h, raw) == Err::<
            Seq<PMTilesEntry>,
            PMTilesError,
        >(PMTilesError::Decompression(DecompressionError::NotImplemented(h.internal_compression))),
        !is_supported(h.tile_compression) ==> tile_spec(h, raw) == Err::<Seq<u8>, PMTilesError>(
            PMTilesError::Decompression(DecompressionError::NotImplemented(h.tile_compression)),
        ),
{
}

/// Relies on `String::from_utf8`: it succeeds exactly on valid UTF-8, and the
/// string then holds the characters that the bytes encode.
#[verifier::external_body]
fn string_from_utf8(b: Vec<u8>) -> (r: Option<String>)
    ensures
        match r {
            Some(s) => valid_utf8(b@) && s@ == decode_utf8(b@),
            None => !valid_utf8(b@),
        },
{
    String::from_utf8(b).ok()
}

/// An open archive: its header, decoded once. Reading the file is left to the
/// caller, who asks for the range of each region and hands its bytes back.
pub struct PMTilesFile {
    header: PMTilesHeaderV3,
}

impl View for PMTilesFile {
    type V = PMTilesHeaderV3;

    closed spec fn view(&self) -> PMTilesHeaderV3 {
        self.header
    }
}

impl PMTilesFile {
    /// Opens an archive from the bytes at the start of its file.
    pub fn new(header_bytes: &[u8]) -> (r: Result<PMTilesFile, PMTilesError>)
        ensures
            match header_spec(header_bytes@) {
                Ok(h) => r matches Ok(f) && f@ == h,
                Err(e) => r == Err::<PMTilesFile, PMTilesError>(PMTilesError::Header(e)),
            },
    {
        match parse_header(header_bytes) {
            Ok((_, header)) => Ok(PMTilesFile { header }),
            Err(e) => Err(PMTilesError::Header(e)),
        }
    }

    /// The archive's header.
    pub fn parse_header(&self) -> (r: &PMTilesHeaderV3)
        ensures
            *r == self@,
    {
        &self.header
    }

    /// Whether the tiles are vector tiles, the one type whose payload can be
    /// decoded into layers.
    pub fn has_vector_tiles(&self) -> (r: bool)
        ensures
            r == (self@.tile_type == PMTilesTileType::Mvt),
    {
        match self.header.tile_type {
            PMTilesTileType::Mvt => true,
            _ => false,
        }
    }

    /// The range of the metadata region, or `None` where it is empty.
    pub fn metadata_region(&self) -> (r: Option<ByteRange>)
        ensures
            r == region_spec(self@.metadata_offset, self@.metadata_length),
    {
        if self.header.metadata_length == 0 {
            None
        } else {
            Some(ByteRange { offset: self.header.metadata_offset, length: self.header.metadata_length })
        }
    }

    /// The range of the root directory, or `None` where it is empty.
    pub fn root_directory_region(&self) -> (r: Option<ByteRange>)
        ensures
            r == region_spec(self@.root_directory_offset, self@.root_directory_length),
    {
        if self.header.root_directory_length == 0 {
            None
        } else {
            Some(
                ByteRange {
                    offset: self.header.root_directory_offset,
                    length: self.header.root_directory_length,
                },
            )
        }
    }

    /// The range of the leaf directory at `offset` within the leaf-directories
    /// region, or `None` where it is empty.
    pub fn leaf_directory_region(&self, offset: u64, length: u64) -> (r: Result<
        Option<ByteRange>,
        PMTilesError,
    >)
        ensures
            r == relative_region_spec(self@.leaf_directories_offset, offset, length),
    {
        relative_region(self.header.leaf_directories_offset, offset, length)
    }

    /// The range of the tile at `offset` within the tile-data region, or
    /// `None` where it is empty.
    pub fn tile_region(&self, offset: u64, length: u64) -> (r: Result<
        Option<ByteRange>,
        PMTilesError,
    >)
        ensures
            r == relative_region_spec(self@.tile_data_offset, offset, length),
    {
        relative_region(self.header.tile_data_offset, offset, length)
    }

    /// Decodes the metadata region, read as `raw`, into text.
    pub fn parse_metadata(&self, raw: &[u8]) -> (r: Result<String, PMTilesError>)
        ensures
            match metadata_spec(self@, raw@) {
                Ok(text) => r matches Ok(s) && s@ == text,
                Err(e) => r == Err::<String, PMTilesError>(e),
            },
    {
        let decoded = match decompress(raw, self.header.internal_compression) {
            Ok(v) => v,
            Err(e) => {
                return Err(PMTilesError::Decompression(e));
            },
        };
        match string_from_utf8(decoded) {
            Some(s) => Ok(s),
            None => Err(PMTilesError::InvalidUtf8),
        }
    }

    fn parse_directory(&self, raw: &[u8]) -> (r: Result<Vec<PMTilesEntry>, PMTilesError>)
        ensures
            match directory_block_spec(self@, raw@) {
                Ok(entries) => r matches Ok(v) && v@ == entries,
                Err(e) => r == Err::<Vec<PMTilesEntry>, PMTilesError>(e),
            },
    {
        if raw.len() == 0 {
            return Ok(Vec::new());
        }
        let decoded = match decompress(raw, self.header.internal_compression) {
            Ok(v) => v,
            Err(e) => {
                return Err(PMTilesError::Decompression(e));
            },
        };
        match parse_directory(decoded.as_slice()) {
            Ok((_, entries)) => Ok(entries),
            Err(e) => Err(PMTilesError::Directory(e)),
        }
    }

    /// Decodes the root directory, read as `raw`.
    pub fn parse_root_directory(&self, raw: &[u8]) -> (r: Result<Vec<PMTilesEntry>, PMTilesError>)
        ensures
            match directory_block_spec(self@, raw@) {
                Ok(entries) => r matches Ok(v) && v@ == entries,
                Err(e) => r == Err::<Vec<PMTilesEntry>, PMTilesError>(e),
            },
    {
        self.parse_directory(raw)
    }

    /// Decodes a leaf directory, read as `raw`.
    pub fn parse_leaf_directory(&self, raw: &[u8]) -> (r: Result<Vec<PMTilesEntry>, PMTilesError>)
        ensures
            match directory_block_spec(self@, raw@) {
                Ok(entries) => r matches Ok(v) && v@ == entries,
                Err(e) => r == Err::<Vec<PMTilesEntry>, PMTilesError>(e),
            },
    {
        self.parse_directory(raw)
    }

    /// Decompresses a tile, read as `raw`, with the tile compression kind.
    pub fn parse_tile(&self, raw: &[u8]) -> (r: Result<Vec<u8>, PMTilesError>)
        ensures
            match tile_spec(self@, raw@) {
                Ok(payload) => r matches Ok(v) && v@ == payload,
                Err(e) => r == Err::<Vec<u8>, PMTilesError>(e),
            },
    {
        match decompress(raw, self.header.tile_compression) {
            Ok(v) => Ok(v),
            Err(e) => Err(PMTilesError::Decompression(e)),
        }
    }
}

fn relative_region(base: u64, offset: u64, length: u64) -> (r: Result<
    Option<ByteRange>,
    PMTilesError,
>)
    ensures
        r == relative_region_spec(base, offset, length),
{
    if length == 0 {
        Ok(None)
    } else if base > u64::MAX - offset {
        Err(PMTilesError::OffsetOverflow)
    } else {
        Ok(Some(ByteRange { offset: base + offset, length }))
    }
}

} // verus!
