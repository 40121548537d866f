//! Little-endian fixed-width integers: what the bytes mean, and the calls
//! that read and write them.

use byteorder::{LittleEndian, ReadBytesExt, WriteBytesExt};
use vstd::prelude::*;

verus! {

/// 256 to the power of `n`.
pub open spec fn pow256(n: nat) -> nat
    decreases n,
{
    if n == 0 {
        1
    } else {
        256 * pow256((n - 1) as nat)
    }
}

/// The number that a little-endian byte string stands for.
pub open spec fn le_nat(s: Seq<u8>) -> nat
    decreases s.len(),
{
    if s.len() == 0 {
        0
    } else {
        s[0] as nat + 256 * le_nat(s.drop_first())
    }
}

/// The `n` little-endian bytes of a number (of its remainder modulo
/// `pow256(n)`, where it is larger).
pub open spec fn le_bytes(v: nat, n: nat) -> Seq<u8>
    decreases n,
{
    if n == 0 {
        Seq::empty()
    } else {
        seq![(v % 256) as u8] + le_bytes(v / 256, (n - 1) as nat)
    }
}

/// The unsigned number whose `n` bytes are the two's complement of `v`.
pub open spec fn twos_complement(v: int, n: nat) -> nat {
    if v >= 0 {
        v as nat
    } else {
        (v + pow256(n)) as nat
    }
}

/// The signed number that the `n`-byte two's complement `u` stands for.
pub open spec fn from_twos_complement(u: nat, n: nat) -> int {
    if 2 * u >= pow256(n) {
        u - pow256(n)
    } else {
        u as int
    }
}

/// The signed number that a little-endian two's complement byte string
/// stands for.
pub open spec fn le_int(s: Seq<u8>) -> int {
    from_twos_complement(le_nat(s), s.len())
}

/// The `n` little-endian two's complement bytes of a signed number.
pub open spec fn le_int_bytes(v: int, n: nat) -> Seq<u8> {
    le_bytes(twos_complement(v, n), n)
}

/// The first `n` bytes of `s`, read as a little-endian unsigned number;
/// `None` where `s` is shorter.
pub open spec fn le_nat_prefix(s: Seq<u8>, n: nat) -> Option<nat> {
    if s.len() >= n {
        Some(le_nat(s.subrange(0, n as int)))
    } else {
        None
    }
}

/// The first `n` bytes of `s`, read as a little-endian two's complement
/// number; `None` where `s` is shorter.
pub open spec fn le_int_prefix(s: Seq<u8>, n: nat) -> Option<int> {
    if s.len() >= n {
        Some(le_int(s.subrange(0, n as int)))
    } else {
        None
    }
}

/// The powers of 256 that the fixed widths use.
pub proof fn lemma_pow256_values()
    ensures
        pow256(0) == 1,
        pow256(1) == 0x100,
        pow256(2) == 0x1_0000,
        pow256(3) == 0x100_0000,
        pow256(4) == 0x1_0000_0000,
        pow256(5) == 0x100_0000_0000,
        pow256(6) == 0x1_0000_0000_0000,
        pow256(7) == 0x100_0000_0000_0000,
        pow256(8) == 0x1_0000_0000_0000_0000,
        pow256(16) == 0x1_0000_0000_0000_0000_0000_0000_0000_0000,
{
    reveal_with_fuel(pow256, 9);
    assert(pow256(8) == 0x1_0000_0000_0000_0000);
    assert(pow256(12) == 0x1_0000_0000 * pow256(8));
    assert(pow256(16) == 0x1_0000_0000 * pow256(12));
}

/// A little-endian byte string of length `n` stands for a number below
/// `pow256(n)`.
pub proof fn lemma_le_nat_bound(s: Seq<u8>)
    ensures
        le_nat(s) < pow256(s.len()),
    decreases s.len(),
{
    if s.len() > 0 {
        lemma_le_nat_bound(s.drop_first());
    }
}

/// `le_bytes` yields `n` bytes.
pub proof fn lemma_le_bytes_len(v: nat, n: nat)
    ensures
        le_bytes(v, n).len() == n,
    decreases n,
{
    if n > 0 {
        lemma_le_bytes_len(v / 256, (n - 1) as nat);
    }
}

/// Reading the `n` bytes of a number below `pow256(n)` gives the number back.
pub proof fn lemma_le_nat_of_le_bytes(v: nat, n: nat)
    requires
        v < pow256(n),
    ensures
        le_nat(le_bytes(v, n)) == v,
    decreases n,
{
    if n > 0 {
        let rest = le_bytes(v / 256, (n - 1) as nat);
        let s = le_bytes(v, n);
        lemma_le_bytes_len(v / 256, (n - 1) as nat);
        assert(s.drop_first() =~= rest);
        lemma_le_nat_of_le_bytes(v / 256, (n - 1) as nat);
    }
}

/// Writing the number of a byte string with as many bytes gives the byte
/// string back.
pub proof fn lemma_le_bytes_of_le_nat(s: Seq<u8>)
    ensures
        le_bytes(le_nat(s), s.len()) == s,
    decreases s.len(),
{
    if s.len() > 0 {
        let rest = s.drop_first();
        lemma_le_bytes_of_le_nat(rest);
        let v = le_nat(s);
        assert(v % 256 == s[0] as nat);
        assert(v / 256 == le_nat(rest));
        assert(le_bytes(v, s.len()) =~= s);
    } else {
        assert(le_bytes(le_nat(s), s.len()) =~= s);
    }
}

/// `ReadBytesExt::read_u16::<LittleEndian>` on a byte slice: the first two
/// bytes as a little-endian number, or nothing where the slice is shorter.
#[verifier::external_body]
pub(crate) fn le_read_u16(bytes: &[u8]) -> (r: Option<u16>)
    ensures
        le_nat_prefix(bytes@, 2) == match r {
            Some(v) => Some(v as nat),
            None => None,
        },
{
    let mut source = bytes;
    source.read_u16::<LittleEndian>().ok()
}

/// `ReadBytesExt::read_u32::<LittleEndian>` on a byte slice: the first four
/// bytes as a little-endian number, or nothing where the slice is shorter.
#[verifier::external_body]
pub(crate) fn le_read_u32(bytes: &[u8]) -> (r: Option<u32>)
    ensures
        le_nat_prefix(bytes@, 4) == match r {
            Some(v) => Some(v as nat),
            None => None,
        },
{
    let mut source = bytes;
    source.read_u32::<LittleEndian>().ok()
}

/// `ReadBytesExt::read_u64::<LittleEndian>` on a byte slice: the first eight
/// bytes as a little-endian number, or nothing where the slice is shorter.
#[verifier::external_body]
pub(crate) fn le_read_u64(bytes: &[u8]) -> (r: Option<u64>)
    ensures
        le_nat_prefix(bytes@, 8) == match r {
            Some(v) => Some(v as nat),
            None => None,
        },
{
    let mut source = bytes;
    source.read_u64::<LittleEndian>().ok()
}

/// `ReadBytesExt::read_u128::<LittleEndian>` on a byte slice: the first
/// sixteen bytes as a little-endian number, or nothing where the slice is
/// shorter.
#[verifier::external_body]
pub(crate) fn le_read_u128(bytes: &[u8]) -> (r: Option<u128>)
    ensures
        le_nat_prefix(bytes@, 16) == match r {
            Some(v) => Some(v as nat),
            None => None,
        },
{
    let mut source = bytes;
    source.read_u128::<LittleEndian>().ok()
}

/// `ReadBytesExt::read_i8` on a byte slice: the first byte as a two's
/// complement number, or nothing where the slice is empty.
#[verifier::external_body]
pub(crate) fn le_read_i8(bytes: &[u8]) -> (r: Option<i8>)
    ensures
        le_int_prefix(bytes@, 1) == match r {
            Some(v) => Some(v as int),
            None => None,
        },
{
    let mut source = bytes;
    source.read_i8().ok()
}

/// `ReadBytesExt::read_i16::<LittleEndian>` on a byte slice: the first two
/// bytes as a little-endian two's complement number, or nothing where the
/// slice is shorter.
#[verifier::external_body]
pub(crate) fn le_read_i16(bytes: &[u8]) -> (r: Option<i16>)
    ensures
        le_int_prefix(bytes@, 2) == match r {
            Some(v) => Some(v as int),
            None => None,
        },
{
    let mut source = bytes;
    source.read_i16::<LittleEndian>().ok()
}

/// `ReadBytesExt::read_i32::<LittleEndian>` on a byte slice: the first four
/// bytes as a little-endian two's complement number, or nothing where the
/// slice is shorter.
#[verifier::external_body]
pub(crate) fn le_read_i32(bytes: &[u8]) -> (r: Option<i32>)
    ensures
        le_int_prefix(bytes@, 4) == match r {
            Some(v) => Some(v as int),
            None => None,
        },
{
    let mut source = bytes;
    source.read_i32::<LittleEndian>().ok()
}

/// `ReadBytesExt::read_i64::<LittleEndian>` on a byte slice: the first eight
/// bytes as a little-endian two's complement number, or nothing where the
/// slice is shorter.
#[verifier::external_body]
pub(crate) fn le_read_i64(bytes: &[u8]) -> (r: Option<i64>)
    ensures
        le_int_prefix(bytes@, 8) == match r {
            Some(v) => Some(v as int),
            None => None,
        },
{
    let mut source = bytes;
    source.read_i64::<LittleEndian>().ok()
}

/// `ReadBytesExt::read_i128::<LittleEndian>` on a byte slice: the first
/// sixteen bytes as a little-endian two's complement number, or nothing
/// where the slice is shorter.
#[verifier::external_body]
pub(crate) fn le_read_i128(bytes: &[u8]) -> (r: Option<i128>)
    ensures
        le_int_prefix(bytes@, 16) == match r {
            Some(v) => Some(v as int),
            None => None,
        },
{
    let mut source = bytes;
    source.read_i128::<LittleEndian>().ok()
}

/// `WriteBytesExt::write_u16::<LittleEndian>` on a byte vector: appends the
/// two little-endian bytes of the number.
#[verifier::external_body]
pub(crate) fn le_write_u16(out: &mut Vec<u8>, v: u16)
    ensures
        final(out)@ == old(out)@ + le_bytes(v as nat, 2),
{
    let _ = out.write_u16::<LittleEndian>(v);
}

/// `WriteBytesExt::write_u32::<LittleEndian>` on a byte vector: appends the
/// four little-endian bytes of the number.
#[verifier::external_body]
pub(crate) fn le_write_u32(out: &mut Vec<u8>, v: u32)
    ensures
        final(out)@ == old(out)@ + le_bytes(v as nat, 4),
{
    let _ = out.write_u32::<LittleEndian>(v);
}

/// `WriteBytesExt::write_u64::<LittleEndian>` on a byte vector: appends the
/// eight little-endian bytes of the number.
#[verifier::external_body]
pub(crate) fn le_write_u64(out: &mut Vec<u8>, v: u64)
    ensures
        final(out)@ == old(out)@ + le_bytes(v as nat, 8),
{
    let _ = out.write_u64::<LittleEndian>(v);
}

/// `WriteBytesExt::write_u128::<LittleEndian>` on a byte vector: appends the
/// sixteen little-endian bytes of the number.
#[verifier::external_body]
pub(crate) fn le_write_u128(out: &mut Vec<u8>, v: u128)
    ensures
        final(out)@ == old(out)@ + le_bytes(v as nat, 16),
{
    let _ = out.write_u128::<LittleEndian>(v);
}

/// `WriteBytesExt::write_i8` on a byte vector: appends the two's complement
/// byte of the number.
#[verifier::external_body]
pub(crate) fn le_write_i8(out: &mut Vec<u8>, v: i8)
    ensures
        final(out)@ == old(out)@ + le_int_bytes(v as int, 1),
{
    let _ = out.write_i8(v);
}

/// `WriteBytesExt::write_i16::<LittleEndian>` on a byte vector: appends the
/// two little-endian two's complement bytes of the number.
#[verifier::external_body]
pub(crate) fn le_write_i16(out: &mut Vec<u8>, v: i16)
    ensures
        final(out)@ == old(out)@ + le_int_bytes(v as int, 2),
{
    let _ = out.write_i16::<LittleEndian>(v);
}

/// `WriteBytesExt::write_i32::<LittleEndian>` on a byte vector: appends the
/// four little-endian two's complement bytes of the number.
#[verifier::external_body]
pub(crate) fn le_write_i32(out: &mut Vec<u8>, v: i32)
    ensures
        final(out)@ == old(out)@ + le_int_bytes(v as int, 4),
{
    let _ = out.write_i32::<LittleEndian>(v);
}

/// `WriteBytesExt::write_i64::<LittleEndian>` on a byte vector: appends the
/// eight little-endian two's complement bytes of the number.
#[verifier::external_body]
pub(crate) fn le_write_i64(out: &mut Vec<u8>, v: i64)
    ensures
        final(out)@ == old(out)@ + le_int_bytes(v as int, 8),
{
    let _ = out.write_i64::<LittleEndian>(v);
}

/// `WriteBytesExt::write_i128::<LittleEndian>` on a byte vector: appends the
/// sixteen little-endian two's complement bytes of the number.
#[verifier::external_body]
pub(crate) fn le_write_i128(out: &mut Vec<u8>, v: i128)
    ensures
        final(out)@ == old(out)@ + le_int_bytes(v as int, 16),
{
    let _ = out.write_i128::<LittleEndian>(v);
}

} // verus!
