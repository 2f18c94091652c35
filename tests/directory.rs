use std::io::{Read, Write};

use flate2::read::GzDecoder;
use flate2::write::GzEncoder;
use flate2::Compression;
use pmtiles_reader::directory::{parse_directory, PMTilesEntry};
use pmtiles_reader::error::DirectoryError;
use pmtiles_reader::varint::encode_varint;

fn encode_directory(deltas: &[u64], runs: &[u64], lengths: &[u64], codes: &[u64]) -> Vec<u8> {
    let mut out = encode_varint(deltas.len() as u64);
    for array in [deltas, runs, lengths, codes] {
        for v in array {
            out.extend(encode_varint(*v));
        }
    }
    out
}

fn gzip(b: &[u8]) -> Vec<u8> {
    let mut e = GzEncoder::new(Vec::new(), Compression::default());
    e.write_all(b).unwrap();
    e.finish().unwrap()
}

fn entry(tile_id: u64, offset: u64, length: u64, is_tile: bool) -> PMTilesEntry {
    PMTilesEntry { tile_id, offset, length, is_tile }
}

#[test]
fn test_parse_root_directory() {
    let mut data = vec![0u8; 127];
    data.extend(gzip(&encode_directory(&[0], &[1], &[69], &[1])));
    let end = data.len();

    let mut root_dir_decoded = vec![];
    let mut decoded_reader = GzDecoder::new(&data[127..end]);
    decoded_reader.read_to_end(&mut root_dir_decoded).unwrap();

    let (remaining, result) = parse_directory(&root_dir_decoded).expect("Failed to parse");
    assert!(remaining.is_empty());
    assert_eq!(result.len(), 1);

    assert_eq!(result[0].tile_id, 0);
    assert_eq!(result[0].offset, 0);
    assert_eq!(result[0].length, 69);
}

#[test]
fn directory_expands_runs_and_leaf_pointers() {
    let raw = encode_directory(&[5, 3, 2], &[3, 0, 2], &[10, 20, 30], &[1, 0, 101]);
    let (rest, entries) = parse_directory(&raw).unwrap();
    assert!(rest.is_empty());
    assert_eq!(
        entries,
        vec![
            entry(5, 0, 10, true),
            entry(6, 0, 10, true),
            entry(7, 0, 10, true),
            entry(8, 10, 20, false),
            entry(10, 100, 30, true),
            entry(11, 100, 30, true),
        ]
    );
}

#[test]
fn directory_contiguous_offsets_chain() {
    let raw = encode_directory(&[0, 1, 1, 1], &[1, 1, 1, 1], &[7, 8, 9, 4], &[41, 0, 0, 3]);
    let (_, entries) = parse_directory(&raw).unwrap();
    let offsets: Vec<u64> = entries.iter().map(|e| e.offset).collect();
    assert_eq!(offsets, vec![40, 47, 55, 2]);
    for i in 1..3 {
        assert_eq!(entries[i].offset, entries[i - 1].offset + entries[i - 1].length);
    }
}

#[test]
fn directory_ids_ascend_and_counts_match_runs() {
    let runs = [2u64, 0, 0, 4, 1];
    let raw = encode_directory(&[1, 2, 1, 1, 4], &runs, &[1, 1, 1, 1, 1], &[1, 2, 3, 4, 5]);
    let (_, entries) = parse_directory(&raw).unwrap();
    for w in entries.windows(2) {
        assert!(w[0].tile_id < w[1].tile_id);
    }
    let tiles = entries.iter().filter(|e| e.is_tile).count() as u64;
    let leaves = entries.iter().filter(|e| !e.is_tile).count();
    assert_eq!(tiles, runs.iter().sum::<u64>());
    assert_eq!(leaves, 2);
}

#[test]
fn directory_first_entry_cannot_be_contiguous() {
    let raw = encode_directory(&[0], &[1], &[5], &[0]);
    assert_eq!(parse_directory(&raw).unwrap_err(), DirectoryError::InvalidDirectoryEncoding);
}

#[test]
fn directory_overlapping_runs_rejected() {
    let raw = encode_directory(&[0, 2], &[3, 1], &[5, 5], &[1, 1]);
    assert_eq!(parse_directory(&raw).unwrap_err(), DirectoryError::InvalidDirectoryEncoding);
    let repeated = encode_directory(&[4, 0], &[0, 0], &[5, 5], &[1, 7]);
    assert_eq!(parse_directory(&repeated).unwrap_err(), DirectoryError::InvalidDirectoryEncoding);
}

#[test]
fn directory_tile_id_past_u64_rejected() {
    let raw = encode_directory(&[u64::MAX - 1], &[3], &[5], &[1]);
    assert_eq!(parse_directory(&raw).unwrap_err(), DirectoryError::InvalidDirectoryEncoding);
    let fits = encode_directory(&[u64::MAX - 2], &[3], &[5], &[1]);
    let (_, entries) = parse_directory(&fits).unwrap();
    assert_eq!(entries[2].tile_id, u64::MAX);
}

#[test]
fn directory_contiguous_offset_past_u64_rejected() {
    let raw = encode_directory(&[0, 1], &[1, 1], &[10, 1], &[u64::MAX, 0]);
    assert_eq!(parse_directory(&raw).unwrap_err(), DirectoryError::InvalidDirectoryEncoding);
}

#[test]
fn directory_truncated_array() {
    let mut raw = encode_directory(&[0, 1], &[1, 1], &[10, 1], &[1, 0]);
    raw.pop();
    assert_eq!(parse_directory(&raw).unwrap_err(), DirectoryError::TruncatedDirectory);
    assert_eq!(parse_directory(&[3, 0, 1]).unwrap_err(), DirectoryError::TruncatedDirectory);
}

#[test]
fn directory_malformed_varints() {
    assert_eq!(parse_directory(&[]).unwrap_err(), DirectoryError::MalformedVarint);
    assert_eq!(parse_directory(&[1, 0x80]).unwrap_err(), DirectoryError::MalformedVarint);
}

#[test]
fn directory_empty_count_and_trailing_bytes() {
    let (rest, entries) = parse_directory(&[0, 9, 9]).unwrap();
    assert!(entries.is_empty());
    assert_eq!(rest, &[9, 9]);
}
