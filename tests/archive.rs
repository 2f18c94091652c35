use std::io::Write;

use flate2::write::GzEncoder;
use flate2::Compression;
use pmtiles_reader::archive::{find_entry, lookup_step, ByteRange, LookupStep, PMTilesFile};
use pmtiles_reader::decompress::decompress;
use pmtiles_reader::directory::PMTilesEntry;
use pmtiles_reader::error::{DecompressionError, DirectoryError, HeaderError, PMTilesError};
use pmtiles_reader::header::PMTilesCompression;
use pmtiles_reader::varint::encode_varint;

fn gzip(b: &[u8]) -> Vec<u8> {
    let mut e = GzEncoder::new(Vec::new(), Compression::default());
    e.write_all(b).unwrap();
    e.finish().unwrap()
}

fn encode_directory(deltas: &[u64], runs: &[u64], lengths: &[u64], codes: &[u64]) -> Vec<u8> {
    let mut out = encode_varint(deltas.len() as u64);
    for array in [deltas, runs, lengths, codes] {
        for v in array {
            out.extend(encode_varint(*v));
        }
    }
    out
}

/// Header with the given region offsets and lengths and compression kinds.
fn header(regions: [u64; 8], internal: u8, tile: u8) -> Vec<u8> {
    let mut b = b"PMTiles".to_vec();
    b.push(3);
    for n in regions {
        b.extend_from_slice(&n.to_le_bytes());
    }
    for n in [1u64, 1, 1] {
        b.extend_from_slice(&n.to_le_bytes());
    }
    b.extend_from_slice(&[0, internal, tile, 1, 0, 0]);
    b.resize(127, 0);
    b
}

/// A vector tile holding one layer named "water".
fn tile_payload() -> Vec<u8> {
    let mut layer = vec![0x78, 0x02, 0x0a, 0x05];
    layer.extend_from_slice(b"water");
    let mut tile = vec![0x1a, layer.len() as u8];
    tile.extend(layer);
    tile
}

fn read(file: &[u8], range: Option<ByteRange>) -> Vec<u8> {
    match range {
        None => Vec::new(),
        Some(r) => file[r.offset as usize..(r.offset + r.length) as usize].to_vec(),
    }
}

struct Fixture {
    bytes: Vec<u8>,
    tile_length: u64,
}

/// A one-tile archive: header, gzip root directory, gzip metadata, one gzip tile.
fn one_tile_archive() -> Fixture {
    let tile = gzip(&tile_payload());
    let root = gzip(&encode_directory(&[0], &[1], &[tile.len() as u64], &[1]));
    let metadata = gzip(br#"{"name":"one tile"}"#);
    let root_offset = 127u64;
    let metadata_offset = root_offset + root.len() as u64;
    let tile_offset = metadata_offset + metadata.len() as u64;
    let mut bytes = header(
        [
            root_offset,
            root.len() as u64,
            metadata_offset,
            metadata.len() as u64,
            0,
            0,
            tile_offset,
            tile.len() as u64,
        ],
        2,
        2,
    );
    bytes.extend(root);
    bytes.extend(metadata);
    bytes.extend(tile.iter().copied());
    Fixture { bytes, tile_length: tile.len() as u64 }
}

#[test]
fn one_tile_archive_end_to_end() {
    let fixture = one_tile_archive();
    let data = &fixture.bytes;
    let file = PMTilesFile::new(&data[..127]).unwrap();
    let h = file.parse_header();
    assert_eq!(h.root_directory_offset, 127);
    assert_eq!(h.tile_compression, PMTilesCompression::Gzip);
    assert!(file.has_vector_tiles());

    let root_range = file.root_directory_region().unwrap();
    assert_eq!(root_range.offset, 127);
    let root = file.parse_root_directory(&read(data, Some(root_range))).unwrap();
    assert_eq!(
        root,
        vec![PMTilesEntry { tile_id: 0, offset: 0, length: fixture.tile_length, is_tile: true }]
    );

    let metadata = file.parse_metadata(&read(data, file.metadata_region())).unwrap();
    assert_eq!(metadata, r#"{"name":"one tile"}"#);

    let step = lookup_step(&root, 0, false).unwrap();
    let e = match step {
        LookupStep::Tile(e) => e,
        other => panic!("unexpected step {other:?}"),
    };
    let range = file.tile_region(e.offset, e.length).unwrap().unwrap();
    assert_eq!(range.offset, h.tile_data_offset);
    let payload = file.parse_tile(&read(data, Some(range))).unwrap();
    assert_eq!(payload, tile_payload());
    // field 3 of a vector tile, length-delimited: a layer
    assert_eq!(payload[0], 0x1a);
    assert!(payload.len() > 2);
}

#[test]
fn minimal_fixture_root_directory_decodes_to_one_tile() {
    let root = gzip(&encode_directory(&[0], &[1], &[69], &[1]));
    let mut bytes = header([127, root.len() as u64, 0, 0, 0, 0, 399, 69], 2, 2);
    bytes.extend(root);
    let file = PMTilesFile::new(&bytes).unwrap();
    let entries = file.parse_root_directory(&read(&bytes, file.root_directory_region())).unwrap();
    assert_eq!(entries, vec![PMTilesEntry { tile_id: 0, offset: 0, length: 69, is_tile: true }]);
    assert_eq!(file.parse_header().tile_data_offset, 399);
}

#[test]
fn zero_length_regions_read_nothing() {
    let bytes = header([127, 0, 127, 0, 127, 0, 127, 0], 2, 2);
    let file = PMTilesFile::new(&bytes).unwrap();
    assert_eq!(file.metadata_region(), None);
    assert_eq!(file.root_directory_region(), None);
    assert_eq!(file.leaf_directory_region(5, 0), Ok(None));
    assert_eq!(file.tile_region(5, 0), Ok(None));
    assert_eq!(file.parse_metadata(&[]).unwrap(), "");
    assert!(file.parse_leaf_directory(&[]).unwrap().is_empty());
    assert!(file.parse_root_directory(&[]).unwrap().is_empty());
}

#[test]
fn relative_regions_add_the_region_start() {
    let bytes = header([127, 10, 137, 10, 1000, 50, 5000, 100], 2, 2);
    let file = PMTilesFile::new(&bytes).unwrap();
    assert_eq!(file.leaf_directory_region(20, 30), Ok(Some(ByteRange { offset: 1020, length: 30 })));
    assert_eq!(file.tile_region(7, 3), Ok(Some(ByteRange { offset: 5007, length: 3 })));
    assert_eq!(file.tile_region(u64::MAX, 3), Err(PMTilesError::OffsetOverflow));
    assert_eq!(file.metadata_region(), Some(ByteRange { offset: 137, length: 10 }));
}

#[test]
fn unsupported_compression_is_not_implemented() {
    for kind in [3u8, 4, 0] {
        let bytes = header([127, 10, 137, 10, 0, 0, 200, 10], kind, kind);
        let file = PMTilesFile::new(&bytes).unwrap();
        let expected = match kind {
            3 => PMTilesCompression::Brotli,
            4 => PMTilesCompression::Zstd,
            _ => PMTilesCompression::Unknown,
        };
        let err = PMTilesError::Decompression(DecompressionError::NotImplemented(expected));
        assert_eq!(file.parse_root_directory(&[1, 2, 3]), Err(err));
        assert_eq!(file.parse_tile(&[1, 2, 3]), Err(err));
        assert_eq!(file.parse_metadata(&[1, 2, 3]), Err(err));
    }
}

#[test]
fn uncompressed_blocks_pass_through() {
    let bytes = header([127, 10, 137, 10, 0, 0, 200, 10], 1, 1);
    let file = PMTilesFile::new(&bytes).unwrap();
    let dir = encode_directory(&[3], &[0], &[9], &[5]);
    assert_eq!(
        file.parse_leaf_directory(&dir).unwrap(),
        vec![PMTilesEntry { tile_id: 3, offset: 4, length: 9, is_tile: false }]
    );
    assert_eq!(file.parse_tile(&[7, 8, 9]).unwrap(), vec![7, 8, 9]);
}

#[test]
fn gzip_is_inflated() {
    let text = b"hello hello hello hello";
    let packed = gzip(text);
    assert_ne!(packed, text.to_vec());
    assert_eq!(decompress(&packed, PMTilesCompression::Gzip).unwrap(), text.to_vec());
    assert_eq!(decompress(&[], PMTilesCompression::Brotli).unwrap(), Vec::<u8>::new());
}

#[test]
fn corrupt_gzip_fails() {
    assert_eq!(
        decompress(&[1, 2, 3, 4], PMTilesCompression::Gzip),
        Err(DecompressionError::CorruptStream)
    );
}

#[test]
fn corrupt_directory_and_bad_text_fail() {
    let bytes = header([127, 10, 137, 10, 0, 0, 200, 10], 1, 1);
    let file = PMTilesFile::new(&bytes).unwrap();
    assert_eq!(
        file.parse_root_directory(&[2, 0]),
        Err(PMTilesError::Directory(DirectoryError::TruncatedDirectory))
    );
    assert_eq!(file.parse_metadata(&[0xff, 0xfe]), Err(PMTilesError::InvalidUtf8));
    assert_eq!(file.parse_metadata("grüße".as_bytes()).unwrap(), "grüße");
}

#[test]
fn opening_with_a_bad_header_fails() {
    let mut bytes = header([127, 10, 137, 10, 0, 0, 200, 10], 1, 1);
    bytes[7] = 4;
    assert!(matches!(
        PMTilesFile::new(&bytes),
        Err(PMTilesError::Header(HeaderError::UnsupportedVersion))
    ));
}

#[test]
fn lookup_finds_tiles_and_leaves() {
    let root = vec![
        PMTilesEntry { tile_id: 0, offset: 0, length: 5, is_tile: true },
        PMTilesEntry { tile_id: 1, offset: 5, length: 5, is_tile: true },
        PMTilesEntry { tile_id: 10, offset: 0, length: 40, is_tile: false },
        PMTilesEntry { tile_id: 100, offset: 40, length: 40, is_tile: false },
    ];
    assert_eq!(find_entry(&root, 1), Some(root[1]));
    assert_eq!(find_entry(&root, 5), None);
    assert_eq!(find_entry(&root, 57), Some(root[2]));
    assert_eq!(find_entry(&root, 100), Some(root[3]));
    assert_eq!(lookup_step(&root, 0, false), Ok(LookupStep::Tile(root[0])));
    assert_eq!(lookup_step(&root, 3, false), Ok(LookupStep::Missing));
    assert_eq!(lookup_step(&root, 500, false), Ok(LookupStep::Leaf(root[3])));
    assert_eq!(lookup_step(&root, 500, true), Err(PMTilesError::NestedLeafDirectory));
    assert_eq!(lookup_step(&[], 0, false), Ok(LookupStep::Missing));
}
