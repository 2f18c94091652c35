use vstd::prelude::*;

use crate::error::DirectoryError;
use crate::varint::{read_varint, varint_spec};

verus! {

/// One resolved directory entry: a tile, or a pointer to a leaf directory.
#[derive(Debug, Clone, Copy, PartialEq, Eq, Structural)]
pub struct PMTilesEntry {
    /// Position of the tile in the archive's global tile ordering.
    pub tile_id: u64,
    /// Byte offset within the tile-data region, or within the leaf-directories
    /// region when `is_tile` is false.
    pub offset: u64,
    /// Byte length of the referenced block.
    pub length: u64,
    /// True for a tile, false for a pointer to a leaf directory.
    pub is_tile: bool,
}

/// Reads `n` varints one after another from the start of `s`: their values
/// and the number of bytes they take. Running out of input between two
/// varints is a truncated directory; running out inside one is a malformed
/// varint.
pub open spec fn varints_spec(s: Seq<u8>, n: nat) -> Result<(Seq<u64>, nat), DirectoryError>
    decreases n,
{
    if n == 0 {
        Ok((Seq::empty(), 0))
    } else {
        match varints_spec(s, (n - 1) as nat) {
            Err(e) => Err(e),
            Ok((vs, used)) => if used >= s.len() {
                Err(DirectoryError::TruncatedDirectory)
            } else {
                match varint_spec(s.skip(used as int)) {
                    Err(e) => Err(e),
                    Ok((v, k)) => Ok((vs.push(v), used + k)),
                }
            },
        }
    }
}

/// The tile id of raw entry `i`: the sum of the deltas up to and including `i`.
pub open spec fn tile_id_at(deltas: Seq<u64>, i: int) -> int
    decreases i + 1,
{
    if i < 0 {
        0
    } else {
        tile_id_at(deltas, i - 1) + deltas[i]
    }
}

/// The offset of raw entry `i`. A code of zero after the first entry means
/// that the block follows the previous entry's block; any other code is the
/// offset plus one. A first entry with code zero resolves to -1.
pub open spec fn offset_at(codes: Seq<u64>, lengths: Seq<u64>, i: int) -> int
    decreases i,
{
    if i > 0 && codes[i] == 0 {
        offset_at(codes, lengths, i - 1) + lengths[i - 1]
    } else {
        codes[i] - 1
    }
}

/// Number of tile ids that raw entry with run length `run` covers.
pub open spec fn span(run: u64) -> int {
    if run == 0 {
        1
    } else {
        run as int
    }
}

/// Raw entry `i` resolves to offsets and tile ids within `u64`, and starts past
/// every tile id of the entry before it.
pub open spec fn entry_valid(
    deltas: Seq<u64>,
    runs: Seq<u64>,
    lengths: Seq<u64>,
    codes: Seq<u64>,
    i: int,
) -> bool {
    &&& 0 <= offset_at(codes, lengths, i) <= u64::MAX
    &&& tile_id_at(deltas, i) + span(runs[i]) - 1 <= u64::MAX
    &&& i > 0 ==> deltas[i] >= span(runs[i - 1])
}

/// Every one of the first `n` raw entries is valid.
pub open spec fn arrays_valid(
    deltas: Seq<u64>,
    runs: Seq<u64>,
    lengths: Seq<u64>,
    codes: Seq<u64>,
    n: int,
) -> bool {
    forall|i: int| 0 <= i < n ==> entry_valid(deltas, runs, lengths, codes, i)
}

/// The entries that raw entry `i` expands to: one leaf pointer for a run of
/// zero, else one tile for each id of the run.
pub open spec fn entry_group(
    deltas: Seq<u64>,
    runs: Seq<u64>,
    lengths: Seq<u64>,
    codes: Seq<u64>,
    i: int,
) -> Seq<PMTilesEntry> {
    let id = tile_id_at(deltas, i);
    let offset = offset_at(codes, lengths, i) as u64;
    if runs[i] == 0 {
        seq![PMTilesEntry { tile_id: id as u64, offset, length: lengths[i], is_tile: false }]
    } else {
        Seq::new(
            runs[i] as nat,
            |j: int| PMTilesEntry { tile_id: (id + j) as u64, offset, length: lengths[i], is_tile: true },
        )
    }
}

/// The entries that the first `n` raw entries expand to, in order.
pub open spec fn entries_upto(
    deltas: Seq<u64>,
    runs: Seq<u64>,
    lengths: Seq<u64>,
    codes: Seq<u64>,
    n: int,
) -> Seq<PMTilesEntry>
    decreases n,
{
    if n <= 0 {
        Seq::empty()
    } else {
        entries_upto(deltas, runs, lengths, codes, n - 1) + entry_group(
            deltas,
            runs,
            lengths,
            codes,
            n - 1,
        )
    }
}

/// What decoding the directory block `s` gives: its entries and the number of
/// bytes read. The block is an entry count followed by four arrays of that
/// many varints: tile id deltas, run lengths, lengths and offset codes.
pub open spec fn directory_spec(s: Seq<u8>) -> Result<(Seq<PMTilesEntry>, nat), DirectoryError> {
    match varint_spec(s) {
        Err(e) => Err(e),
        Ok((count, k0)) => match varints_spec(s.skip(k0 as int), count as nat) {
            Err(e) => Err(e),
            Ok((deltas, k1)) => match varints_spec(s.skip((k0 + k1) as int), count as nat) {
                Err(e) => Err(e),
                Ok((runs, k2)) => match varints_spec(s.skip((k0 + k1 + k2) as int), count as nat) {
                    Err(e) => Err(e),
                    Ok((lengths, k3)) => match varints_spec(
                        s.skip((k0 + k1 + k2 + k3) as int),
                        count as nat,
                    ) {
                        Err(e) => Err(e),
                        Ok((codes, k4)) => if arrays_valid(
                            deltas,
                            runs,
                            lengths,
                            codes,
                            count as int,
                        ) {
                            Ok(
                                (
                                    entries_upto(deltas, runs, lengths, codes, count as int),
                                    k0 + k1 + k2 + k3 + k4,
                                ),
                            )
                        } else {
                            Err(DirectoryError::InvalidDirectoryEncoding)
                        },
                    },
                },
            },
        },
    }
}

/// Number of tile entries in `es`.
pub open spec fn tile_count(es: Seq<PMTilesEntry>) -> nat
    decreases es.len(),
{
    if es.len() == 0 {
        0
    } else {
        tile_count(es.drop_last()) + if es.last().is_tile {
            1nat
        } else {
            0nat
        }
    }
}

/// Number of leaf-directory pointers in `es`.
pub open spec fn leaf_count(es: Seq<PMTilesEntry>) -> nat
    decreases es.len(),
{
    if es.len() == 0 {
        0
    } else {
        leaf_count(es.drop_last()) + if es.last().is_tile {
            0nat
        } else {
            1nat
        }
    }
}

/// Sum of the first `n` run lengths.
pub open spec fn run_sum(runs: Seq<u64>, n: int) -> int
    decreases n,
{
    if n <= 0 {
        0
    } else {
        run_sum(runs, n - 1) + runs[n - 1]
    }
}

/// Number of zero run lengths among the first `n`.
pub open spec fn zero_runs(runs: Seq<u64>, n: int) -> int
    decreases n,
{
    if n <= 0 {
        0
    } else {
        zero_runs(runs, n - 1) + if runs[n - 1] == 0 {
            1int
        } else {
            0int
        }
    }
}

/// The tile ids of `es` strictly increase.
pub open spec fn strictly_ascending(es: Seq<PMTilesEntry>) -> bool {
    forall|i: int, j: int| 0 <= i < j < es.len() ==> es[i].tile_id < es[j].tile_id
}

proof fn lemma_counts_append(a: Seq<PMTilesEntry>, b: Seq<PMTilesEntry>)
    ensures
        tile_count(a + b) == tile_count(a) + tile_count(b),
        leaf_count(a + b) == leaf_count(a) + leaf_count(b),
    decreases b.len(),
{
    if b.len() == 0 {
        assert(a + b =~= a);
    } else {
        lemma_counts_append(a, b.drop_last());
        assert((a + b).drop_last() =~= a + b.drop_last());
    }
}

proof fn lemma_counts_all_tiles(es: Seq<PMTilesEntry>)
    requires
        forall|k: int| 0 <= k < es.len() ==> es[k].is_tile,
    ensures
        tile_count(es) == es.len(),
        leaf_count(es) == 0,
    decreases es.len(),
{
    if es.len() > 0 {
        lemma_counts_all_tiles(es.drop_last());
    }
}

proof fn lemma_tile_id_nonneg(deltas: Seq<u64>, i: int)
    requires
        -1 <= i < deltas.len(),
    ensures
        0 <= tile_id_at(deltas, i),
    decreases i + 1,
{
    if i >= 0 {
        lemma_tile_id_nonneg(deltas, i - 1);
    }
}

/// Of every directory that decodes: each raw entry with a nonzero run length
/// contributes that many tile entries and each with a zero run length exactly
/// one leaf pointer, so the tile entries number the sum of the run lengths;
/// and the tile ids strictly increase.
pub proof fn lemma_directory_order_and_counts(
    deltas: Seq<u64>,
    runs: Seq<u64>,
    lengths: Seq<u64>,
    codes: Seq<u64>,
    n: int,
)
    requires
        0 <= n <= deltas.len(),
        runs.len() == deltas.len(),
        lengths.len() == deltas.len(),
        codes.len() == deltas.len(),
        arrays_valid(deltas, runs, lengths, codes, n),
    ensures
        strictly_ascending(entries_upto(deltas, runs, lengths, codes, n)),
        tile_count(entries_upto(deltas, runs, lengths, codes, n)) == run_sum(runs, n),
        leaf_count(entries_upto(deltas, runs, lengths, codes, n)) == zero_runs(runs, n),
        n > 0 ==> forall|k: int|
            0 <= k < entries_upto(deltas, runs, lengths, codes, n).len() ==> entries_upto(
                deltas,
                runs,
                lengths,
                codes,
                n,
            )[k].tile_id <= tile_id_at(deltas, n - 1) + span(runs[n - 1]) - 1,
    decreases n,
{
    if n > 0 {
        let i = n - 1;
        lemma_directory_order_and_counts(deltas, runs, lengths, codes, i);
        assert(entry_valid(deltas, runs, lengths, codes, i));
        lemma_tile_id_nonneg(deltas, i - 1);
        let prev = entries_upto(deltas, runs, lengths, codes, i);
        let group = entry_group(deltas, runs, lengths, codes, i);
        let all = entries_upto(deltas, runs, lengths, codes, n);
        assert(all == prev + group);
        lemma_counts_append(prev, group);
        let id = tile_id_at(deltas, i);
        if runs[i] == 0 {
            assert(group.drop_last() =~= Seq::<PMTilesEntry>::empty());
            assert(tile_count(group.drop_last()) == 0);
            assert(leaf_count(group.drop_last()) == 0);
            assert(!group.last().is_tile);
            assert(tile_count(group) == 0);
            assert(leaf_count(group) == 1);
        } else {
            lemma_counts_all_tiles(group);
            assert(tile_count(group) == runs[i]);
        }
        assert(run_sum(runs, n) == run_sum(runs, i) + runs[i]);
        assert forall|k: int| 0 <= k < group.len() implies group[k].tile_id == id + k by {}
        if i > 0 {
            assert(deltas[i] >= span(runs[i - 1]));
        }
        assert forall|a: int, b: int| 0 <= a < b < all.len() implies all[a].tile_id
            < all[b].tile_id by {
            if b < prev.len() {
                assert(all[a] == prev[a] && all[b] == prev[b]);
            } else if a < prev.len() {
                assert(all[a] == prev[a] && all[b] == group[b - prev.len()]);
            } else {
                assert(all[a] == group[a - prev.len()] && all[b] == group[b - prev.len()]);
            }
        }
        assert forall|k: int| 0 <= k < all.len() implies all[k].tile_id <= id + span(runs[i])
            - 1 by {
            if k < prev.len() {
                assert(all[k] == prev[k]);
            } else {
                assert(all[k] == group[k - prev.len()]);
            }
        }
    }
}

/// Every directory block that decodes gives entries in strictly ascending
/// tile id order.
pub proof fn lemma_decoded_directory_ascending(s: Seq<u8>)
    requires
        directory_spec(s) is Ok,
    ensures
        strictly_ascending(directory_spec(s)->Ok_0.0),
{
    let (count, k0) = varint_spec(s)->Ok_0;
    let n = count as nat;
    lemma_varints_within(s.skip(k0 as int), n);
    let (deltas, k1) = varints_spec(s.skip(k0 as int), n)->Ok_0;
    lemma_varints_within(s.skip((k0 + k1) as int), n);
    let (runs, k2) = varints_spec(s.skip((k0 + k1) as int), n)->Ok_0;
    lemma_varints_within(s.skip((k0 + k1 + k2) as int), n);
    let (lengths, k3) = varints_spec(s.skip((k0 + k1 + k2) as int), n)->Ok_0;
    lemma_varints_within(s.skip((k0 + k1 + k2 + k3) as int), n);
    let (codes, k4) = varints_spec(s.skip((k0 + k1 + k2 + k3) as int), n)->Ok_0;
    lemma_directory_order_and_counts(deltas, runs, lengths, codes, n as int);
}

/// An entry whose offset code is zero, other than the first, starts where the
/// block of the entry before it ends.
pub proof fn lemma_contiguous_offset(
    deltas: Seq<u64>,
    runs: Seq<u64>,
    lengths: Seq<u64>,
    codes: Seq<u64>,
    i: int,
)
    requires
        0 < i < deltas.len(),
        runs.len() == deltas.len(),
        lengths.len() == deltas.len(),
        codes.len() == deltas.len(),
        arrays_valid(deltas, runs, lengths, codes, deltas.len() as int),
        codes[i] == 0,
    ensures
        forall|k: int|
            0 <= k < entry_group(deltas, runs, lengths, codes, i).len() ==> entry_group(
                deltas,
                runs,
                lengths,
                codes,
                i,
            )[k].offset == entry_group(deltas, runs, lengths, codes, i - 1)[0].offset
                + entry_group(deltas, runs, lengths, codes, i - 1)[0].length,
{
    assert(entry_valid(deltas, runs, lengths, codes, i));
    assert(entry_valid(deltas, runs, lengths, codes, i - 1));
}

proof fn lemma_varints_within(s: Seq<u8>, n: nat)
    ensures
        varints_spec(s, n) matches Ok((vs, used)) ==> vs.len() == n && used <= s.len(),
    decreases n,
{
    if n > 0 {
        lemma_varints_within(s, (n - 1) as nat);
    }
}

proof fn lemma_varints_err_persists(s: Seq<u8>, m: nat, n: nat)
    requires
        m <= n,
        varints_spec(s, m) is Err,
    ensures
        varints_spec(s, n) == varints_spec(s, m),
    decreases n - m,
{
    if m < n {
        lemma_varints_err_persists(s, m, (n - 1) as nat);
    }
}

/// Reads `n` varints one after another, starting at `pos`.
fn read_varints(input: &[u8], pos: usize, n: u64) -> (r: Result<(Vec<u64>, usize), DirectoryError>)
    requires
        pos <= input@.len(),
    ensures
        match varints_spec(input@.skip(pos as int), n as nat) {
            Ok((vs, k)) => r matches Ok((v, p)) && v@ == vs && p == pos + k,
            Err(e) => r == Err::<(Vec<u64>, usize), DirectoryError>(e),
        },
{
    let ghost s = input@.skip(pos as int);
    let mut out: Vec<u64> = Vec::new();
    let mut at: usize = pos;
    let mut i: u64 = 0;
    while i < n
        invariant
            pos <= at <= input@.len(),
            i <= n,
            s == input@.skip(pos as int),
            varints_spec(s, i as nat) == Ok::<(Seq<u64>, nat), DirectoryError>(
                (out@, (at - pos) as nat),
            ),
        decreases n - i,
    {
        assert(s.skip(at - pos) =~= input@.skip(at as int));
        if at == input.len() {
            proof {
                lemma_varints_err_persists(s, (i + 1) as nat, n as nat);
            }
            return Err(DirectoryError::TruncatedDirectory);
        }
        match read_varint(input, at) {
            Err(e) => {
                proof {
                    lemma_varints_err_persists(s, (i + 1) as nat, n as nat);
                }
                return Err(e);
            },
            Ok((v, next)) => {
                out.push(v);
                at = next;
            },
        }
        i = i + 1;
    }
    Ok((out, at))
}

/// Expands the four decoded arrays into entries, or tells that they describe
/// no valid directory.
fn build_entries(deltas: &Vec<u64>, runs: &Vec<u64>, lengths: &Vec<u64>, codes: &Vec<u64>) -> (r:
    Result<Vec<PMTilesEntry>, DirectoryError>)
    requires
        runs@.len() == deltas@.len(),
        lengths@.len() == deltas@.len(),
        codes@.len() == deltas@.len(),
    ensures
        arrays_valid(deltas@, runs@, lengths@, codes@, deltas@.len() as int) ==> (r matches Ok(v)
            && v@ == entries_upto(deltas@, runs@, lengths@, codes@, deltas@.len() as int)),
        !arrays_valid(deltas@, runs@, lengths@, codes@, deltas@.len() as int) ==> r == Err::<
            Vec<PMTilesEntry>,
            DirectoryError,
        >(DirectoryError::InvalidDirectoryEncoding),
{
    let ghost (d, rl, l, c) = (deltas@, runs@, lengths@, codes@);
    let n = deltas.len();
    let mut out: Vec<PMTilesEntry> = Vec::new();
    let mut last_tile_id: u64 = 0;
    let mut last_offset: u64 = 0;
    let mut i: usize = 0;
    while i < n
        invariant
            i <= n,
            n == d.len(),
            d == deltas@,
            rl == runs@,
            l == lengths@,
            c == codes@,
            rl.len() == n,
            l.len() == n,
            c.len() == n,
            out@ == entries_upto(d, rl, l, c, i as int),
            arrays_valid(d, rl, l, c, i as int),
            last_tile_id == tile_id_at(d, i - 1),
            i > 0 ==> last_offset == offset_at(c, l, i - 1),
        decreases n - i,
    {
        let delta = deltas[i];
        let run = runs[i];
        let length = lengths[i];
        let code = codes[i];
        if i > 0 && (delta == 0 || delta < runs[i - 1]) {
            proof {
                assert(!entry_valid(d, rl, l, c, i as int));
            }
            return Err(DirectoryError::InvalidDirectoryEncoding);
        }
        if last_tile_id > u64::MAX - delta {
            proof {
                assert(!entry_valid(d, rl, l, c, i as int));
            }
            return Err(DirectoryError::InvalidDirectoryEncoding);
        }
        let tile_id = last_tile_id + delta;
        let offset: u64;
        if code == 0 && i > 0 {
            let previous_length = lengths[i - 1];
            if last_offset > u64::MAX - previous_length {
                proof {
                    assert(!entry_valid(d, rl, l, c, i as int));
                }
                return Err(DirectoryError::InvalidDirectoryEncoding);
            }
            offset = last_offset + previous_length;
        } else {
            if code == 0 {
                proof {
                    assert(!entry_valid(d, rl, l, c, i as int));
                }
                return Err(DirectoryError::InvalidDirectoryEncoding);
            }
            offset = code - 1;
        }
        if run > 0 && tile_id > u64::MAX - (run - 1) {
            proof {
                assert(!entry_valid(d, rl, l, c, i as int));
            }
            return Err(DirectoryError::InvalidDirectoryEncoding);
        }
        let ghost group = entry_group(d, rl, l, c, i as int);
        assert(entry_valid(d, rl, l, c, i as int));
        if run == 0 {
            out.push(PMTilesEntry { tile_id, offset, length, is_tile: false });
            assert(out@ =~= entries_upto(d, rl, l, c, i as int) + group);
        } else {
            let mut j: u64 = 0;
            while j < run
                invariant
                    j <= run,
                    run > 0,
                    tile_id as int + run - 1 <= u64::MAX,
                    group.len() == run,
                    forall|k: int|
                        0 <= k < run ==> group[k] == (PMTilesEntry {
                            tile_id: (tile_id + k) as u64,
                            offset,
                            length,
                            is_tile: true,
                        }),
                    out@ == entries_upto(d, rl, l, c, i as int) + group.take(j as int),
                decreases run - j,
            {
                out.push(PMTilesEntry { tile_id: tile_id + j, offset, length, is_tile: true });
                assert(group.take(j + 1) =~= group.take(j as int).push(group[j as int]));
                j = j + 1;
            }
            assert(group.take(run as int) =~= group);
        }
        proof {
            assert forall|k: int| 0 <= k < i + 1 implies entry_valid(d, rl, l, c, k) by {
                if k < i {
                    assert(entry_valid(d, rl, l, c, k));
                }
            }
        }
        last_tile_id = tile_id;
        last_offset = offset;
        i = i + 1;
    }
    Ok(out)
}

/// Decodes a decompressed directory block into its entries, in ascending
/// tile id order, and gives the input that follows the block.
pub fn parse_directory(input: &[u8]) -> (r: Result<(&[u8], Vec<PMTilesEntry>), DirectoryError>)
    ensures
        match directory_spec(input@) {
            Ok((entries, used)) => r matches Ok((rest, v)) && v@ == entries && rest@
                == input@.skip(used as int),
            Err(e) => r == Err::<(&[u8], Vec<PMTilesEntry>), DirectoryError>(e),
        },
{
    let ghost s = input@;
    assert(s.skip(0) =~= s);
    let (count, p0) = match read_varint(input, 0) {
        Ok(v) => v,
        Err(e) => {
            return Err(e);
        },
    };
    proof {
        lemma_varints_within(s.skip(p0 as int), count as nat);
    }
    let (deltas, p1) = match read_varints(input, p0, count) {
        Ok(v) => v,
        Err(e) => {
            return Err(e);
        },
    };
    proof {
        lemma_varints_within(s.skip(p1 as int), count as nat);
    }
    let (runs, p2) = match read_varints(input, p1, count) {
        Ok(v) => v,
        Err(e) => {
            return Err(e);
        },
    };
    proof {
        lemma_varints_within(s.skip(p2 as int), count as nat);
    }
    let (lengths, p3) = match read_varints(input, p2, count) {
        Ok(v) => v,
        Err(e) => {
            return Err(e);
        },
    };
    proof {
        lemma_varints_within(s.skip(p3 as int), count as nat);
    }
    let (codes, p4) = match read_varints(input, p3, count) {
        Ok(v) => v,
        Err(e) => {
            return Err(e);
        },
    };
    proof {
        lemma_varints_within(s.skip(p4 as int), count as nat);
    }
    let entries = match build_entries(&deltas, &runs, &lengths, &codes) {
        Ok(v) => v,
        Err(e) => {
            return Err(e);
        },
    };
    let (_, rest) = input.split_at(p4);
    Ok((rest, entries))
}

} // verus!
