//! Variable-length unsigned integers: one to nine bytes, the first of which
//! tells the length.

use crate::endian::{
    le_bytes, le_nat, lemma_le_bytes_len, lemma_le_bytes_of_le_nat, lemma_le_nat_bound,
    lemma_le_nat_of_le_bytes, lemma_pow256_values, pow256,
};
use varuint::{ReadVarint, VarintSizeHint, WriteVarint};
use vstd::prelude::*;

verus! {

/// The first byte of the longest varint that holds a `u32`.
pub const VARINT_U32_MAX_FIRST: u8 = 250;

/// The first byte of the longest varint that holds a `u64`.
pub const VARINT_U64_MAX_FIRST: u8 = 254;

/// The number of bytes of the varint of a number below 2^64.
pub open spec fn varint_size(v: nat) -> nat {
    if v <= 240 {
        1
    } else if v <= 2031 {
        2
    } else if v <= 67567 {
        3
    } else if v <= 16_777_215 {
        4
    } else if v <= 4_294_967_295 {
        5
    } else if v <= 1_099_511_627_775 {
        6
    } else if v <= 281_474_976_710_655 {
        7
    } else if v <= 72_057_594_037_927_935 {
        8
    } else {
        9
    }
}

/// The varint of a number below 2^64.
pub open spec fn varint_bytes(v: nat) -> Seq<u8> {
    if v <= 240 {
        seq![v as u8]
    } else if v <= 2031 {
        seq![((v - 240) / 256 + 241) as u8, ((v - 240) % 256) as u8]
    } else if v <= 67567 {
        seq![248u8, ((v - 2032) / 256) as u8, ((v - 2032) % 256) as u8]
    } else {
        seq![(245 + varint_size(v)) as u8] + le_bytes(v, (varint_size(v) - 1) as nat)
    }
}

/// The number of bytes of a varint that starts with the given byte (below
/// 255).
pub open spec fn varint_len(first: u8) -> nat {
    if first <= 240 {
        1
    } else if first <= 247 {
        2
    } else if first == 248 {
        3
    } else {
        (first - 245) as nat
    }
}

/// The number that a varint stands for; `s` starts with the varint and is
/// at least as long.
pub open spec fn varint_value(s: Seq<u8>) -> nat {
    if s[0] <= 240 {
        s[0] as nat
    } else if s[0] <= 247 {
        (240 + 256 * (s[0] - 241) + s[1]) as nat
    } else if s[0] == 248 {
        (2032 + 256 * s[1] + s[2]) as nat
    } else {
        le_nat(s.subrange(1, varint_len(s[0]) as int))
    }
}

/// What reading a varint from the start of `s` gives: the number and the
/// count of bytes read; nothing where `s` is empty, starts with a byte above
/// `max_first`, or ends before the varint does. The bytes need not be the
/// shortest varint of the number.
pub open spec fn varint_decoded(s: Seq<u8>, max_first: u8) -> Option<(nat, nat)> {
    if s.len() == 0 || s[0] > max_first || s.len() < varint_len(s[0]) {
        None
    } else {
        Some((varint_value(s), varint_len(s[0])))
    }
}

/// What reading a varint from the start of `s` gives where only the
/// shortest varint of each number is accepted.
pub open spec fn varint_canonical(s: Seq<u8>, max_first: u8) -> Option<(nat, nat)> {
    match varint_decoded(s, max_first) {
        Some((v, n)) => if n == varint_size(v) {
            Some((v, n))
        } else {
            None
        },
        None => None,
    }
}

/// The varint of a number has as many bytes as `varint_size` says, and
/// starts with a byte that tells so.
pub proof fn lemma_varint_bytes_len(v: nat)
    requires
        v < pow256(8),
    ensures
        varint_bytes(v).len() == varint_size(v),
        varint_len(varint_bytes(v)[0]) == varint_size(v),
        varint_bytes(v)[0] <= VARINT_U64_MAX_FIRST,
        v < pow256(4) ==> varint_bytes(v)[0] <= VARINT_U32_MAX_FIRST,
{
    lemma_pow256_values();
    if v > 67567 {
        lemma_le_bytes_len(v, (varint_size(v) - 1) as nat);
    }
}

/// Reading the varint of a number, whatever follows it, gives the number
/// back and reads exactly the varint.
pub proof fn lemma_varint_read_of_write(v: nat, rest: Seq<u8>, max_first: u8)
    requires
        v < pow256(8),
        max_first == VARINT_U64_MAX_FIRST || (max_first == VARINT_U32_MAX_FIRST && v < pow256(4)),
    ensures
        varint_canonical(varint_bytes(v) + rest, max_first) == Some((v, varint_size(v))),
{
    lemma_pow256_values();
    lemma_varint_bytes_len(v);
    let b = varint_bytes(v);
    let s = b + rest;
    let n = varint_size(v);
    assert(s[0] == b[0]);
    if v <= 240 {
    } else if v <= 2031 {
        assert(s[1] == b[1]);
    } else if v <= 67567 {
        assert(s[1] == b[1]);
        assert(s[2] == b[2]);
    } else {
        let k = (n - 1) as nat;
        lemma_le_bytes_len(v, k);
        assert(s.subrange(1, n as int) =~= le_bytes(v, k));
        assert(v < pow256(k)) by {
            lemma_pow256_values();
        }
        lemma_le_nat_of_le_bytes(v, k);
    }
}

/// A varint that was accepted as the shortest of its number is the varint
/// that writing the number gives.
pub proof fn lemma_varint_write_of_read(s: Seq<u8>, max_first: u8)
    requires
        max_first <= VARINT_U64_MAX_FIRST,
        varint_canonical(s, max_first) is Some,
    ensures
        ({
            let (v, n) = varint_canonical(s, max_first).unwrap();
            &&& v < pow256(8)
            &&& 1 <= n <= 9
            &&& n <= s.len()
            &&& s.subrange(0, n as int) == varint_bytes(v)
        }),
{
    lemma_pow256_values();
    let (v, n) = varint_canonical(s, max_first).unwrap();
    let p = s.subrange(0, n as int);
    if s[0] <= 240 {
        assert(p =~= varint_bytes(v));
    } else if s[0] <= 247 {
        assert(v == 240 + 256 * (s[0] - 241) + s[1]);
        assert((v - 240) / 256 == s[0] - 241);
        assert((v - 240) % 256 == s[1] as int);
        assert(p =~= varint_bytes(v));
    } else if s[0] == 248 {
        assert(v == 2032 + 256 * s[1] + s[2]);
        assert((v - 2032) / 256 == s[1] as int);
        assert((v - 2032) % 256 == s[2] as int);
        assert(p =~= varint_bytes(v));
    } else {
        let k = (n - 1) as nat;
        let body = s.subrange(1, n as int);
        lemma_le_nat_bound(body);
        lemma_le_bytes_of_le_nat(body);
        assert(p =~= seq![s[0]] + body);
        assert(p =~= varint_bytes(v));
    }
}

/// `ReadVarint::<u32>::read_varint` on a byte slice: the number that the
/// varint at its start stands for and the count of bytes read; nothing where
/// the slice is empty, starts with a byte above 250, or ends before the
/// varint does. Longer varints than needed are read as well.
#[verifier::external_body]
pub(crate) fn varint_read_u32(bytes: &[u8]) -> (r: Option<(u32, usize)>)
    ensures
        varint_decoded(bytes@, VARINT_U32_MAX_FIRST) == match r {
            Some((v, n)) => Some((v as nat, n as nat)),
            None => None,
        },
{
    let mut cursor = std::io::Cursor::new(bytes);
    match ReadVarint::<u32>::read_varint(&mut cursor) {
        Ok(v) => Some((v, cursor.position() as usize)),
        Err(_) => None,
    }
}

/// `ReadVarint::<u64>::read_varint` on a byte slice: the number that the
/// varint at its start stands for and the count of bytes read; nothing where
/// the slice is empty, starts with the byte 255, or ends before the varint
/// does. Longer varints than needed are read as well.
#[verifier::external_body]
pub(crate) fn varint_read_u64(bytes: &[u8]) -> (r: Option<(u64, usize)>)
    ensures
        varint_decoded(bytes@, VARINT_U64_MAX_FIRST) == match r {
            Some((v, n)) => Some((v as nat, n as nat)),
            None => None,
        },
{
    let mut cursor = std::io::Cursor::new(bytes);
    match ReadVarint::<u64>::read_varint(&mut cursor) {
        Ok(v) => Some((v, cursor.position() as usize)),
        Err(_) => None,
    }
}

/// `WriteVarint::<u32>::write_varint` on a byte vector: appends the varint
/// of the number.
#[verifier::external_body]
pub(crate) fn varint_write_u32(out: &mut Vec<u8>, v: u32)
    ensures
        final(out)@ == old(out)@ + varint_bytes(v as nat),
{
    let _ = WriteVarint::<u32>::write_varint(out, v);
}

/// `WriteVarint::<u64>::write_varint` on a byte vector: appends the varint
/// of the number.
#[verifier::external_body]
pub(crate) fn varint_write_u64(out: &mut Vec<u8>, v: u64)
    ensures
        final(out)@ == old(out)@ + varint_bytes(v as nat),
{
    let _ = WriteVarint::<u64>::write_varint(out, v);
}

/// `VarintSizeHint::varint_size` of a `u32`: the number of bytes of its
/// varint.
#[verifier::external_body]
pub(crate) fn varint_size_u32(v: u32) -> (n: usize)
    ensures
        n == varint_size(v as nat),
{
    v.varint_size()
}

/// `VarintSizeHint::varint_size` of a `u64`: the number of bytes of its
/// varint.
#[verifier::external_body]
pub(crate) fn varint_size_u64(v: u64) -> (n: usize)
    ensures
        n == varint_size(v as nat),
{
    v.varint_size()
}

} // verus!
