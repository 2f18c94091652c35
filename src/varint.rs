use vstd::prelude::*;

use crate::error::DirectoryError;

verus! {

/// The high bit of a byte: set on every byte of a varint but the last.
pub const MSB_MASK: u8 = 0x80;

/// Number of leading bytes of `s` that have the high bit set.
pub open spec fn cont_run(s: Seq<u8>) -> nat
    decreases s.len(),
{
    if s.len() > 0 && s[0] >= 128 {
        1 + cont_run(s.drop_first())
    } else {
        0
    }
}

/// Value of base-128 digits, least significant first, ignoring each byte's high bit.
pub open spec fn digits_value(s: Seq<u8>) -> nat
    decreases s.len(),
{
    if s.len() == 0 {
        0
    } else {
        (s[0] % 128) as nat + 128 * digits_value(s.drop_first())
    }
}

/// What decoding one varint at the start of `s` gives: its value and the
/// number of bytes it takes.
pub open spec fn varint_spec(s: Seq<u8>) -> Result<(u64, nat), DirectoryError> {
    let n = cont_run(s) + 1;
    if cont_run(s) >= s.len() {
        Err(DirectoryError::MalformedVarint)
    } else if digits_value(s.take(n as int)) > u64::MAX {
        Err(DirectoryError::VarintOverflow)
    } else {
        Ok((digits_value(s.take(n as int)) as u64, n))
    }
}

/// The shortest varint encoding of `v`.
pub open spec fn varint_encoding(v: nat) -> Seq<u8>
    decreases v,
{
    if v < 128 {
        seq![v as u8]
    } else {
        seq![(v % 128 + 128) as u8] + varint_encoding(v / 128)
    }
}

proof fn lemma_cont_run_exact(s: Seq<u8>, m: nat)
    requires
        m <= s.len(),
        forall|k: int| 0 <= k < m ==> s[k] >= 128,
        m < s.len() ==> s[m as int] < 128,
    ensures
        cont_run(s) == m,
    decreases m,
{
    if m > 0 {
        lemma_cont_run_exact(s.drop_first(), (m - 1) as nat);
    }
}

proof fn lemma_digits_suffix_le(s: Seq<u8>, a: int, b: int, e: int)
    requires
        0 <= a <= b <= e <= s.len(),
    ensures
        digits_value(s.subrange(b, e)) <= digits_value(s.subrange(a, e)),
    decreases b - a,
{
    if a < b {
        lemma_digits_suffix_le(s, a + 1, b, e);
        assert(s.subrange(a, e).drop_first() =~= s.subrange(a + 1, e));
    }
}

/// Decodes the varint that starts at `pos` in `input`, and gives its value and
/// the position just after it.
pub fn read_varint(input: &[u8], pos: usize) -> (r: Result<(u64, usize), DirectoryError>)
    requires
        pos <= input@.len(),
    ensures
        match varint_spec(input@.skip(pos as int)) {
            Ok((v, n)) => r matches Ok((value, next)) && value == v && next == pos + n,
            Err(e) => r == Err::<(u64, usize), DirectoryError>(e),
        },
{
    let ghost s = input@.skip(pos as int);
    let mut end: usize = pos;
    while end < input.len() && input[end] >= MSB_MASK
        invariant
            pos <= end <= input@.len(),
            s == input@.skip(pos as int),
            forall|k: int| pos <= k < end ==> input@[k] >= 128,
        decreases input@.len() - end,
    {
        end = end + 1;
    }
    proof {
        lemma_cont_run_exact(s, (end - pos) as nat);
    }
    if end == input.len() {
        return Err(DirectoryError::MalformedVarint);
    }
    let ghost n = (end - pos + 1) as int;
    assert(s.take(n) =~= input@.subrange(pos as int, end + 1));
    let mut value: u64 = input[end] as u64;
    proof {
        let last = input@.subrange(end as int, end + 1);
        assert(last.drop_first() =~= Seq::<u8>::empty());
        assert(digits_value(last.drop_first()) == 0);
        assert(digits_value(last) == (last[0] % 128) as nat + 128 * digits_value(last.drop_first()));
    }
    let mut k: usize = end;
    while k > pos
        invariant
            pos <= k <= end < input@.len(),
            value as nat == digits_value(input@.subrange(k as int, end + 1)),
            n == end - pos + 1,
            s == input@.skip(pos as int),
            cont_run(s) == end - pos,
            s.take(n) == input@.subrange(pos as int, end + 1),
        decreases k,
    {
        let d: u64 = (input[k - 1] % MSB_MASK) as u64;
        assert(input@.subrange(k - 1, end + 1).drop_first() =~= input@.subrange(k as int, end + 1));
        if value > (u64::MAX - d) / 128 {
            proof {
                assert(value * 128 + d > u64::MAX) by (nonlinear_arith)
                    requires
                        value > (u64::MAX - d) / 128,
                        d < 128,
                ;
                let sub = input@.subrange(k - 1, end + 1);
                assert(digits_value(sub) == (sub[0] % 128) as nat + 128 * digits_value(sub.drop_first()));
                lemma_digits_suffix_le(input@, pos as int, k - 1, end + 1);
                assert(sub[0] == input@[k - 1]);
                assert(digits_value(sub) > u64::MAX);
                assert(digits_value(s.take(n)) > u64::MAX);
            }
            return Err(DirectoryError::VarintOverflow);
        }
        proof {
            assert(value * 128 + d <= u64::MAX) by (nonlinear_arith)
                requires
                    value <= (u64::MAX - d) / 128,
                    d < 128,
            ;
        }
        proof {
            let sub = input@.subrange(k - 1, end + 1);
            assert(digits_value(sub) == (sub[0] % 128) as nat + 128 * digits_value(sub.drop_first()));
        }
        value = value * 128 + d;
        k = k - 1;
    }
    Ok((value, end + 1))
}

/// Decodes the varint at the start of `input`, and gives the rest of the input
/// and the value.
pub fn parse_varint(input: &[u8]) -> (r: Result<(&[u8], u64), DirectoryError>)
    ensures
        match varint_spec(input@) {
            Ok((v, n)) => r matches Ok((rest, value)) && value == v && rest@ == input@.skip(
                n as int,
            ),
            Err(e) => r == Err::<(&[u8], u64), DirectoryError>(e),
        },
{
    assert(input@.skip(0) =~= input@);
    match read_varint(input, 0) {
        Ok((value, next)) => {
            let (_, rest) = input.split_at(next);
            Ok((rest, value))
        },
        Err(e) => Err(e),
    }
}

/// The shortest varint encoding of `v`: seven bits per byte, least significant
/// first, the high bit set on every byte but the last.
pub fn encode_varint(v: u64) -> (r: Vec<u8>)
    ensures
        r@ == varint_encoding(v as nat),
{
    let mut out: Vec<u8> = Vec::new();
    let mut rest: u64 = v;
    while rest >= 128
        invariant
            out@ + varint_encoding(rest as nat) == varint_encoding(v as nat),
        decreases rest,
    {
        let byte: u8 = (rest % 128 + 128) as u8;
        proof {
            assert(out@.push(byte) + varint_encoding((rest / 128) as nat) =~= out@
                + varint_encoding(rest as nat));
        }
        out.push(byte);
        rest = rest / 128;
    }
    proof {
        assert(out@.push(rest as u8) =~= out@ + varint_encoding(rest as nat));
    }
    out.push(rest as u8);
    out
}

proof fn lemma_encoding_facts(v: nat, rest: Seq<u8>)
    ensures
        cont_run(varint_encoding(v) + rest) == varint_encoding(v).len() - 1,
        digits_value(varint_encoding(v)) == v,
        varint_encoding(v).len() >= 1,
    decreases v,
{
    let e = varint_encoding(v);
    if v < 128 {
        assert(e.drop_first() =~= Seq::<u8>::empty());
        assert(digits_value(e) == (e[0] % 128) as nat + 128 * digits_value(e.drop_first()));
        assert(digits_value(e.drop_first()) == 0);
    } else {
        lemma_encoding_facts(v / 128, rest);
        assert(e.drop_first() =~= varint_encoding(v / 128));
        assert(e[0] % 128 == v % 128);
        assert(digits_value(e) == (e[0] % 128) as nat + 128 * digits_value(e.drop_first()));
        assert(v % 128 + 128 * (v / 128) == v);
        assert((e + rest).drop_first() =~= varint_encoding(v / 128) + rest);
    }
}

/// Decoding the encoding of any 64-bit value gives that value back, and takes
/// exactly the encoding's bytes, whatever follows them.
pub proof fn lemma_varint_round_trip(v: u64, rest: Seq<u8>)
    ensures
        varint_spec(varint_encoding(v as nat) + rest) == Ok::<(u64, nat), DirectoryError>(
            (v, varint_encoding(v as nat).len()),
        ),
{
    let e = varint_encoding(v as nat);
    lemma_encoding_facts(v as nat, rest);
    assert((e + rest).take(e.len() as int) =~= e);
}

} // verus!
