//! Little-endian byte-level primitives shared by every record layout.
//!
//! Each record of the venue is a fixed-width sequence of these fields:
//! unsigned integers, two's-complement signed integers, single-byte
//! booleans, and raw 32-byte identifiers.

use vstd::bytes::*;
use vstd::prelude::*;
use vstd::slice::slice_subrange;

verus! {

/// A 32-byte identifier for an account, mint, oracle source or program.
pub type AccountId = [u8; 32];

/// Two's-complement image of a signed 64-bit value.
pub open spec fn spec_i64_repr(x: i64) -> u64 {
    if x >= 0 {
        x as u64
    } else {
        (x + 0x1_0000_0000_0000_0000) as u64
    }
}

/// Signed value read back from a two's-complement image.
pub open spec fn spec_repr_i64(v: u64) -> i64 {
    if v < 0x8000_0000_0000_0000 {
        v as i64
    } else {
        (v - 0x1_0000_0000_0000_0000) as i64
    }
}

pub proof fn lemma_i64_repr_roundtrip(x: i64)
    ensures
        spec_repr_i64(spec_i64_repr(x)) == x,
{
}

/// The two's-complement image maps back to the signed value it came from.
pub proof fn lemma_i64_repr_inverse(v: u64)
    ensures
        spec_i64_repr(spec_repr_i64(v)) == v,
{
}

/// Little-endian bytes of a signed 64-bit value.
pub open spec fn spec_i64_le(x: i64) -> Seq<u8> {
    spec_u64_to_le_bytes(spec_i64_repr(x))
}

/// Signed 64-bit value of eight little-endian bytes.
pub open spec fn spec_i64_from_le(s: Seq<u8>) -> i64 {
    spec_repr_i64(spec_u64_from_le_bytes(s))
}

pub proof fn lemma_i64_le_roundtrip(x: i64)
    ensures
        spec_i64_le(x).len() == 8,
        spec_i64_from_le(spec_i64_le(x)) == x,
{
    lemma_auto_spec_u64_to_from_le_bytes();
}

/// Eight bytes map back to themselves through the signed reading.
pub proof fn lemma_i64_le_inverse(s: Seq<u8>)
    requires
        s.len() == 8,
    ensures
        spec_i64_le(spec_i64_from_le(s)) == s,
{
    lemma_auto_spec_u64_to_from_le_bytes();
    lemma_i64_repr_inverse(spec_u64_from_le_bytes(s));
}

/// Single-byte encoding of a boolean.
pub open spec fn spec_bool_byte(b: bool) -> u8 {
    if b {
        1u8
    } else {
        0u8
    }
}

/// Append the little-endian bytes of an unsigned 16-bit value.
pub fn put_u16(out: &mut Vec<u8>, x: u16)
    ensures
        final(out)@ == old(out)@ + spec_u16_to_le_bytes(x),
{
    let mut b = u16_to_le_bytes(x);
    out.append(&mut b);
}

/// Append the little-endian bytes of an unsigned 64-bit value.
pub fn put_u64(out: &mut Vec<u8>, x: u64)
    ensures
        final(out)@ == old(out)@ + spec_u64_to_le_bytes(x),
{
    let mut b = u64_to_le_bytes(x);
    out.append(&mut b);
}

/// Append the little-endian bytes of a signed 64-bit value.
pub fn put_i64(out: &mut Vec<u8>, x: i64)
    ensures
        final(out)@ == old(out)@ + spec_i64_le(x),
{
    let r: u64 = if x >= 0 {
        x as u64
    } else {
        ((x - i64::MIN) as u64) + 0x8000_0000_0000_0000u64
    };
    assert(r == spec_i64_repr(x));
    put_u64(out, r);
}

/// Append the little-endian bytes of an unsigned 128-bit value.
pub fn put_u128(out: &mut Vec<u8>, x: u128)
    ensures
        final(out)@ == old(out)@ + spec_u128_to_le_bytes(x),
{
    let mut b = u128_to_le_bytes(x);
    out.append(&mut b);
}

/// Append the byte of a boolean.
pub fn put_bool(out: &mut Vec<u8>, b: bool)
    ensures
        final(out)@ == old(out)@ + seq![spec_bool_byte(b)],
{
    if b {
        out.push(1u8);
    } else {
        out.push(0u8);
    }
    assert(out@ =~= old(out)@ + seq![spec_bool_byte(b)]);
}

/// Append a raw 32-byte identifier.
pub fn put_id(out: &mut Vec<u8>, id: &AccountId)
    ensures
        final(out)@ == old(out)@ + id@,
{
    out.extend_from_slice(id.as_slice());
    assert(out@ =~= old(out)@ + id@);
}

/// Read an unsigned 16-bit value at a byte offset.
pub fn get_u16(data: &[u8], off: usize) -> (x: u16)
    requires
        off + 2 <= data@.len(),
    ensures
        x == spec_u16_from_le_bytes(data@.subrange(off as int, off + 2)),
{
    let n: usize = data.len();
    u16_from_le_bytes(slice_subrange(data, off, off + 2))
}

/// Read an unsigned 64-bit value at a byte offset.
pub fn get_u64(data: &[u8], off: usize) -> (x: u64)
    requires
        off + 8 <= data@.len(),
    ensures
        x == spec_u64_from_le_bytes(data@.subrange(off as int, off + 8)),
{
    let n: usize = data.len();
    u64_from_le_bytes(slice_subrange(data, off, off + 8))
}

/// Read a signed 64-bit value at a byte offset.
pub fn get_i64(data: &[u8], off: usize) -> (x: i64)
    requires
        off + 8 <= data@.len(),
    ensures
        x == spec_i64_from_le(data@.subrange(off as int, off + 8)),
{
    let v = get_u64(data, off);
    if v < 0x8000_0000_0000_0000u64 {
        v as i64
    } else {
        ((v - 0x8000_0000_0000_0000u64) as i64) + i64::MIN
    }
}

/// Read an unsigned 128-bit value at a byte offset.
pub fn get_u128(data: &[u8], off: usize) -> (x: u128)
    requires
        off + 16 <= data@.len(),
    ensures
        x == spec_u128_from_le_bytes(data@.subrange(off as int, off + 16)),
{
    let n: usize = data.len();
    u128_from_le_bytes(slice_subrange(data, off, off + 16))
}

/// Read one byte at an offset.
pub fn get_u8(data: &[u8], off: usize) -> (x: u8)
    requires
        off < data@.len(),
    ensures
        x == data@[off as int],
{
    data[off]
}

/// Read a 32-byte identifier at a byte offset.
#[verifier::loop_isolation(false)]
pub fn get_id(data: &[u8], off: usize) -> (id: AccountId)
    requires
        off + 32 <= data@.len(),
    ensures
        id@ == data@.subrange(off as int, off + 32),
{
    let n: usize = data.len();
    let mut id: AccountId = [0u8; 32];
    let mut i: usize = 0;
    while i < 32
        invariant
            i <= 32,
            off + 32 <= data@.len(),
            id@.len() == 32,
            forall|j: int| 0 <= j < i ==> id@[j] == data@[off + j],
        decreases 32 - i,
    {
        id[i] = data[off + i];
        i += 1;
    }
    assert(id@ =~= data@.subrange(off as int, off + 32));
    id
}

/// Whether two identifiers hold the same bytes.
#[verifier::loop_isolation(false)]
pub fn id_eq(a: &AccountId, b: &AccountId) -> (r: bool)
    ensures
        r == (a@ == b@),
{
    let mut i: usize = 0;
    while i < 32
        invariant
            i <= 32,
            forall|j: int| 0 <= j < i ==> a@[j] == b@[j],
        decreases 32 - i,
    {
        if a[i] != b[i] {
            return false;
        }
        i += 1;
    }
    assert(a@ =~= b@);
    true
}

/// Overwrite `src.len()` bytes of `data` starting at `off`; the rest stays.
#[verifier::loop_isolation(false)]
pub fn write_at(data: &mut Vec<u8>, off: usize, src: &[u8])
    requires
        off + src@.len() <= old(data)@.len(),
    ensures
        final(data)@ == old(data)@.subrange(0, off as int) + src@ + old(data)@.subrange(
            off + src@.len(),
            old(data)@.len() as int,
        ),
{
    let n: usize = src.len();
    let dn: usize = data.len();
    let mut i: usize = 0;
    while i < n
        invariant
            i <= n,
            n == src@.len(),
            off + n <= data@.len(),
            data@.len() == old(data)@.len(),
            forall|j: int| 0 <= j < i ==> data@[off + j] == src@[j],
            forall|j: int| 0 <= j < data@.len() && !(off <= j < off + i) ==> data@[j] == old(
                data,
            )@[j],
        decreases n - i,
    {
        data[off + i] = src[i];
        i += 1;
    }
    assert(data@ =~= old(data)@.subrange(0, off as int) + src@ + old(data)@.subrange(
        off + src@.len(),
        old(data)@.len() as int,
    ));
}

/// A subrange taken inside the left part of a concatenation.
pub proof fn lemma_concat_sub_left(a: Seq<u8>, b: Seq<u8>, i: int, j: int)
    requires
        0 <= i <= j <= a.len(),
    ensures
        (a + b).subrange(i, j) == a.subrange(i, j),
{
    assert((a + b).subrange(i, j) =~= a.subrange(i, j));
}

/// A subrange taken inside the right part of a concatenation.
pub proof fn lemma_concat_sub_right(a: Seq<u8>, b: Seq<u8>, i: int, j: int)
    requires
        a.len() <= i <= j <= a.len() + b.len(),
    ensures
        (a + b).subrange(i, j) == b.subrange(i - a.len(), j - a.len()),
{
    assert((a + b).subrange(i, j) =~= b.subrange(i - a.len(), j - a.len()));
}

/// A subrange of a subrange, as one subrange of the whole.
pub proof fn lemma_sub_sub(s: Seq<u8>, i: int, j: int, k: int, l: int)
    requires
        0 <= i <= j <= s.len(),
        0 <= k <= l <= j - i,
    ensures
        s.subrange(i, j).subrange(k, l) == s.subrange(i + k, i + l),
{
    assert(s.subrange(i, j).subrange(k, l) =~= s.subrange(i + k, i + l));
}

/// Whether every byte of `data` is zero.
#[verifier::loop_isolation(false)]
pub fn is_zeroed(data: &[u8]) -> (r: bool)
    ensures
        r == (forall|i: int| 0 <= i < data@.len() ==> data@[i] == 0u8),
{
    let n: usize = data.len();
    let mut i: usize = 0;
    while i < n
        invariant
            i <= n,
            n == data@.len(),
            forall|j: int| 0 <= j < i ==> data@[j] == 0u8,
        decreases n - i,
    {
        if data[i] != 0u8 {
            return false;
        }
        i += 1;
    }
    true
}

} // verus!
