//! Random-access decoding of PMTiles version 3 archives: the fixed header, the
//! delta and run-length encoded directories, and compression-aware retrieval
//! of the archive's regions.

pub mod error;
pub mod varint;
pub mod directory;
pub mod header;
pub mod decompress;
pub mod archive;
pub mod tally;
