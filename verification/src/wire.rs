//! Byte buffers and big-endian numbers.
//!
//! The buffers are those of the `bytes` crate. Verus knows them only through the two
//! content functions below and the contracts of the small functions that call the crate.

use bytes::{Buf, BufMut, Bytes, BytesMut};
use vstd::prelude::*;

verus! {

#[verifier::external_type_specification]
#[verifier::external_body]
pub struct ExBytes(bytes::Bytes);

#[verifier::external_type_specification]
#[verifier::external_body]
pub struct ExBytesMut(bytes::BytesMut);

/// The bytes that a `Bytes` still holds, first byte first.
pub uninterp spec fn bytes_view(b: bytes::Bytes) -> Seq<u8>;

/// The bytes that a `BytesMut` holds, first byte first.
pub uninterp spec fn buffer_view(b: bytes::BytesMut) -> Seq<u8>;

/// The two bytes of `n`, high byte first.
pub open spec fn be16(n: u16) -> Seq<u8> {
    seq![(n / 256) as u8, (n % 256) as u8]
}

/// The four bytes of `n`, high byte first.
pub open spec fn be32(n: u32) -> Seq<u8> {
    seq![
        (n / 16777216) as u8,
        (n / 65536 % 256) as u8,
        (n / 256 % 256) as u8,
        (n % 256) as u8,
    ]
}

/// The number that the two bytes of `s` at `i` spell, high byte first.
pub open spec fn u16_at(s: Seq<u8>, i: int) -> u16 {
    (s[i] * 256 + s[i + 1]) as u16
}

/// The number that the four bytes of `s` at `i` spell, high byte first.
pub open spec fn u32_at(s: Seq<u8>, i: int) -> u32 {
    (s[i] * 16777216 + s[i + 1] * 65536 + s[i + 2] * 256 + s[i + 3]) as u32
}

/// The number that bytes spell, high byte first.
pub open spec fn be_value(s: Seq<u8>) -> nat
    decreases s.len(),
{
    if s.len() == 0 {
        0
    } else {
        be_value(s.drop_last()) * 256 + s.last() as nat
    }
}

/// The low eight bits of a length, which is what a one-byte length field keeps of it.
pub open spec fn low8(n: nat) -> u8 {
    (n % 256) as u8
}

/// The low sixteen bits of a length, which is what a two-byte length field keeps of it.
pub open spec fn low16(n: nat) -> u16 {
    (n % 65536) as u16
}

/// A two-byte number is read back as it was written.
pub proof fn lemma_be16_read(n: u16)
    ensures
        be16(n).len() == 2,
        u16_at(be16(n), 0) == n,
{
}

/// A two-byte number is read back from where it was written.
pub proof fn lemma_u16_between(front: Seq<u8>, n: u16, back: Seq<u8>)
    ensures
        u16_at(front + be16(n) + back, front.len() as int) == n,
{
    let s = front + be16(n) + back;
    assert(s[front.len() as int] == be16(n)[0]);
    assert(s[front.len() as int + 1] == be16(n)[1]);
    lemma_be16_read(n);
}

/// A four-byte number is read back as it was written.
pub proof fn lemma_be32_read(n: u32)
    ensures
        be32(n).len() == 4,
        u32_at(be32(n), 0) == n,
{
    lemma_four_digits(n as int);
}

/// A number is the sum of its four bytes, each with its weight.
proof fn lemma_four_digits(n: int)
    requires
        0 <= n,
    ensures
        n == n / 16777216 * 16777216 + n / 65536 % 256 * 65536 + n / 256 % 256 * 256 + n % 256,
{
}

/// The high byte of a two-byte number.
pub fn high_byte(n: u16) -> (r: u8)
    ensures
        r == be16(n)[0],
{
    (n / 256) as u8
}

/// The low byte of a two-byte number.
pub fn low_byte(n: u16) -> (r: u8)
    ensures
        r == be16(n)[1],
{
    (n % 256) as u8
}

/// The number made of two bytes of a slice, high byte first.
pub fn read_u16(s: &[u8], i: usize) -> (r: u16)
    requires
        i + 1 < s@.len(),
    ensures
        r == u16_at(s@, i as int),
{
    s[i] as u16 * 256 + s[i + 1] as u16
}

/// The low eight bits of a length.
pub fn truncate_u8(n: usize) -> (r: u8)
    ensures
        r == low8(n as nat),
{
    (n % 256) as u8
}

/// The low sixteen bits of a length.
pub fn truncate_u16(n: usize) -> (r: u16)
    ensures
        r == low16(n as nat),
{
    (n % 65536) as u16
}

/// The low sixteen bits of the sum of two lengths.
pub fn truncate_sum(a: usize, b: usize) -> (r: u16)
    ensures
        r == low16((a + b) as nat),
{
    ((a % 65536 + b % 65536) % 65536) as u16
}

/// Copies sixteen bytes of a slice into an array.
pub fn array16(s: &[u8], from: usize) -> (r: [u8; 16])
    requires
        from + 16 <= s@.len(),
    ensures
        r@ == s@.subrange(from as int, from + 16),
{
    let n: usize = s.len();
    let mut out: [u8; 16] = [0u8; 16];
    let mut i: usize = 0;
    while i < 16
        invariant
            i <= 16,
            n == s@.len(),
            from + 16 <= n,
            forall|j: int| 0 <= j < i ==> out@[j] == s@[from + j],
        decreases 16 - i,
    {
        out[i] = s[from + i];
        i = i + 1;
    }
    assert(out@ =~= s@.subrange(from as int, from + 16));
    out
}

/// Copies four bytes of a slice into an array.
pub fn array4(s: &[u8], from: usize) -> (r: [u8; 4])
    requires
        from + 4 <= s@.len(),
    ensures
        r@ == s@.subrange(from as int, from + 4),
{
    let out: [u8; 4] = [s[from], s[from + 1], s[from + 2], s[from + 3]];
    assert(out@ =~= s@.subrange(from as int, from + 4));
    out
}

/// `Bytes::remaining`: the number of bytes that are left.
#[verifier::external_body]
pub(crate) fn bytes_remaining(b: &Bytes) -> (r: usize)
    ensures
        r == bytes_view(*b).len(),
{
    b.remaining()
}

/// `Bytes::chunk`: all bytes that are left, as one slice.
#[verifier::external_body]
pub(crate) fn bytes_chunk(b: &Bytes) -> (r: &[u8])
    ensures
        r@ == bytes_view(*b),
{
    b.chunk()
}

/// `Bytes::advance`: drops bytes at the front; it panics past the end.
#[verifier::external_body]
pub(crate) fn bytes_advance(b: &mut Bytes, n: usize)
    requires
        n <= bytes_view(*old(b)).len(),
    ensures
        bytes_view(*final(b)) == bytes_view(*old(b)).skip(n as int),
{
    b.advance(n)
}

/// `Bytes::get_u8`: takes the first byte; it panics when there is none.
#[verifier::external_body]
pub(crate) fn bytes_get_u8(b: &mut Bytes) -> (r: u8)
    requires
        1 <= bytes_view(*old(b)).len(),
    ensures
        r == bytes_view(*old(b))[0],
        bytes_view(*final(b)) == bytes_view(*old(b)).skip(1),
{
    b.get_u8()
}

/// `Bytes::get_u16`: takes a two-byte number, high byte first; it panics past the end.
#[verifier::external_body]
pub(crate) fn bytes_get_u16(b: &mut Bytes) -> (r: u16)
    requires
        2 <= bytes_view(*old(b)).len(),
    ensures
        r == u16_at(bytes_view(*old(b)), 0),
        bytes_view(*final(b)) == bytes_view(*old(b)).skip(2),
{
    b.get_u16()
}

/// `Bytes::get_u32`: takes a four-byte number, high byte first; it panics past the end.
#[verifier::external_body]
pub(crate) fn bytes_get_u32(b: &mut Bytes) -> (r: u32)
    requires
        4 <= bytes_view(*old(b)).len(),
    ensures
        r == u32_at(bytes_view(*old(b)), 0),
        bytes_view(*final(b)) == bytes_view(*old(b)).skip(4),
{
    b.get_u32()
}

/// `Bytes::copy_to_slice`: fills `dst` from the front; it panics when too few bytes are left.
#[verifier::external_body]
pub(crate) fn bytes_copy_to_slice(b: &mut Bytes, dst: &mut Vec<u8>)
    requires
        old(dst)@.len() <= bytes_view(*old(b)).len(),
    ensures
        final(dst)@ == bytes_view(*old(b)).take(old(dst)@.len() as int),
        bytes_view(*final(b)) == bytes_view(*old(b)).skip(old(dst)@.len() as int),
{
    b.copy_to_slice(dst.as_mut_slice())
}

/// `Bytes::copy_from_slice`: a `Bytes` with a copy of the slice.
#[verifier::external_body]
pub(crate) fn bytes_from_slice(s: &[u8]) -> (r: Bytes)
    ensures
        bytes_view(r) == s@,
{
    Bytes::copy_from_slice(s)
}

/// `Bytes::clone`: another handle on the same bytes.
pub assume_specification[ <bytes::Bytes as Clone>::clone ](b: &bytes::Bytes) -> (r: bytes::Bytes)
    ensures
        bytes_view(r) == bytes_view(*b),
;

/// `BytesMut::new`: an empty buffer.
#[verifier::external_body]
pub(crate) fn buffer_new() -> (r: BytesMut)
    ensures
        buffer_view(r) == Seq::<u8>::empty(),
{
    BytesMut::new()
}

/// `BytesMut::put_u8`: appends one byte. The buffer grows; memory is its only limit.
#[verifier::external_body]
pub(crate) fn buffer_put_u8(b: &mut BytesMut, n: u8)
    ensures
        buffer_view(*final(b)) == buffer_view(*old(b)).push(n),
{
    b.put_u8(n)
}

/// `BytesMut::put_u16`: appends a two-byte number, high byte first.
#[verifier::external_body]
pub(crate) fn buffer_put_u16(b: &mut BytesMut, n: u16)
    ensures
        buffer_view(*final(b)) == buffer_view(*old(b)) + be16(n),
{
    b.put_u16(n)
}

/// `BytesMut::put_u32`: appends a four-byte number, high byte first.
#[verifier::external_body]
pub(crate) fn buffer_put_u32(b: &mut BytesMut, n: u32)
    ensures
        buffer_view(*final(b)) == buffer_view(*old(b)) + be32(n),
{
    b.put_u32(n)
}

/// `BytesMut::put_slice`: appends the bytes of a slice.
#[verifier::external_body]
pub(crate) fn buffer_put_slice(b: &mut BytesMut, s: &[u8])
    ensures
        buffer_view(*final(b)) == buffer_view(*old(b)) + s@,
{
    b.put_slice(s)
}

/// `BytesMut::freeze`: the same bytes, no longer writable.
#[verifier::external_body]
pub(crate) fn buffer_freeze(b: BytesMut) -> (r: Bytes)
    ensures
        bytes_view(r) == buffer_view(b),
{
    b.freeze()
}

/// `BytesMut::chunk`: all bytes of the buffer, as one slice.
#[verifier::external_body]
pub(crate) fn buffer_chunk(b: &BytesMut) -> (r: &[u8])
    ensures
        r@ == buffer_view(*b),
{
    b.chunk()
}

/// `BytesMut::advance`: drops bytes at the front; it panics past the end.
#[verifier::external_body]
pub(crate) fn buffer_advance(b: &mut BytesMut, n: usize)
    requires
        n <= buffer_view(*old(b)).len(),
    ensures
        buffer_view(*final(b)) == buffer_view(*old(b)).skip(n as int),
{
    b.advance(n)
}

/// `BytesMut::split_to`: takes bytes off the front; it panics past the end.
#[verifier::external_body]
pub(crate) fn buffer_split_to(b: &mut BytesMut, n: usize) -> (r: BytesMut)
    requires
        n <= buffer_view(*old(b)).len(),
    ensures
        buffer_view(r) == buffer_view(*old(b)).take(n as int),
        buffer_view(*final(b)) == buffer_view(*old(b)).skip(n as int),
{
    b.split_to(n)
}

/// Numbers travel with their high byte first, and are read so.
pub proof fn law_high_byte_first(n: u16, m: u32, s: Seq<u8>, i: int)
    ensures
        be16(n).len() == 2 && be16(n)[0] * 0x100 + be16(n)[1] == n,
        be32(m).len() == 4 && be32(m)[0] * 0x100_0000 + be32(m)[1] * 0x1_0000 + be32(m)[2] * 0x100
            + be32(m)[3] == m,
        u16_at(s, i) == s[i] * 0x100 + s[i + 1],
        u32_at(s, i) == s[i] * 0x100_0000 + s[i + 1] * 0x1_0000 + s[i + 2] * 0x100 + s[i + 3],
{
    lemma_four_digits(m as int);
}

/// A length field keeps what fits of a length: shorter lengths as they are, of longer ones the
/// low bits.
pub proof fn law_length_fields(n: nat)
    ensures
        n < 0x100 ==> low8(n) == n,
        n < 0x1_0000 ==> low16(n) == n,
        (n - low8(n)) % 0x100 == 0,
        (n - low16(n)) % 0x1_0000 == 0,
{
}

} // verus!
