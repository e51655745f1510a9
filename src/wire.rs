//! Byte layouts of the protocol's scalar values, and the calls into the
//! outside crates that produce and read them.
use bytebuffer::ByteBuffer;
use crypto_box::PublicKey;
use vstd::prelude::*;
use vstd::utf8::*;

verus! {

/// Width in bytes of an encoded public key.
pub const KEY_SIZE: usize = 32;

/// Big-endian bytes of a 16-bit value.
pub open spec fn be_u16(v: u16) -> Seq<u8> {
    seq![(v >> 8u16) as u8, v as u8]
}

/// Big-endian bytes of a 32-bit value.
pub open spec fn be_u32(v: u32) -> Seq<u8> {
    seq![(v >> 24u32) as u8, (v >> 16u32) as u8, (v >> 8u32) as u8, v as u8]
}

/// Big-endian bytes of a 64-bit value.
pub open spec fn be_u64(v: u64) -> Seq<u8> {
    seq![
        (v >> 56u64) as u8,
        (v >> 48u64) as u8,
        (v >> 40u64) as u8,
        (v >> 32u64) as u8,
        (v >> 24u64) as u8,
        (v >> 16u64) as u8,
        (v >> 8u64) as u8,
        v as u8,
    ]
}

/// The 16-bit value whose big-endian bytes start `b`.
pub open spec fn u16_from_be(b: Seq<u8>) -> u16 {
    ((b[0] as u16) << 8u16) | (b[1] as u16)
}

/// The 32-bit value whose big-endian bytes start `b`.
pub open spec fn u32_from_be(b: Seq<u8>) -> u32 {
    ((b[0] as u32) << 24u32) | ((b[1] as u32) << 16u32) | ((b[2] as u32) << 8u32) | (b[3] as u32)
}

/// The 64-bit value whose big-endian bytes start `b`.
pub open spec fn u64_from_be(b: Seq<u8>) -> u64 {
    ((b[0] as u64) << 56u64) | ((b[1] as u64) << 48u64) | ((b[2] as u64) << 40u64) | ((b[3] as u64)
        << 32u64) | ((b[4] as u64) << 24u64) | ((b[5] as u64) << 16u64) | ((b[6] as u64) << 8u64)
        | (b[7] as u64)
}

/// Decoding the encoding of a value, whatever bytes follow it, gives the value back and takes exactly its width.
pub proof fn lemma_u16_round_trip(v: u16)
    ensures
        u16_from_be(be_u16(v)) == v,
        be_u16(v).len() == 2,
{
    let b0 = (v >> 8u16) as u8;
    let b1 = v as u8;
    assert(((b0 as u16) << 8u16) | (b1 as u16) == v) by (bit_vector)
        requires
            b0 == (v >> 8u16) as u8,
            b1 == v as u8,
    ;
}

/// Decoding the encoding of a value, whatever bytes follow it, gives the value back and takes exactly its width.
pub proof fn lemma_u32_round_trip(v: u32)
    ensures
        u32_from_be(be_u32(v)) == v,
        be_u32(v).len() == 4,
{
    let b0 = (v >> 24u32) as u8;
    let b1 = (v >> 16u32) as u8;
    let b2 = (v >> 8u32) as u8;
    let b3 = v as u8;
    assert(((b0 as u32) << 24u32) | ((b1 as u32) << 16u32) | ((b2 as u32) << 8u32) | (b3 as u32)
        == v) by (bit_vector)
        requires
            b0 == (v >> 24u32) as u8,
            b1 == (v >> 16u32) as u8,
            b2 == (v >> 8u32) as u8,
            b3 == v as u8,
    ;
}

/// Decoding the encoding of a value, whatever bytes follow it, gives the value back and takes exactly its width.
pub proof fn lemma_u64_round_trip(v: u64)
    ensures
        u64_from_be(be_u64(v)) == v,
        be_u64(v).len() == 8,
{
    let b0 = (v >> 56u64) as u8;
    let b1 = (v >> 48u64) as u8;
    let b2 = (v >> 40u64) as u8;
    let b3 = (v >> 32u64) as u8;
    let b4 = (v >> 24u64) as u8;
    let b5 = (v >> 16u64) as u8;
    let b6 = (v >> 8u64) as u8;
    let b7 = v as u8;
    assert(((b0 as u64) << 56u64) | ((b1 as u64) << 48u64) | ((b2 as u64) << 40u64) | ((b3 as u64)
        << 32u64) | ((b4 as u64) << 24u64) | ((b5 as u64) << 16u64) | ((b6 as u64) << 8u64) | (
    b7 as u64) == v) by (bit_vector)
        requires
            b0 == (v >> 56u64) as u8,
            b1 == (v >> 48u64) as u8,
            b2 == (v >> 40u64) as u8,
            b3 == (v >> 32u64) as u8,
            b4 == (v >> 24u64) as u8,
            b5 == (v >> 16u64) as u8,
            b6 == (v >> 8u64) as u8,
            b7 == v as u8,
    ;
}

/// Relies on bytebuffer's `ByteBuffer::write_u16`: a new buffer is big-endian,
/// so the value lands as two bytes, high byte first.
#[verifier::external_body]
pub(crate) fn u16_bytes(v: u16) -> (r: Vec<u8>)
    ensures
        r@ == be_u16(v),
{
    let mut b = ByteBuffer::new();
    b.write_u16(v);
    b.into_vec()
}

/// Relies on bytebuffer's `ByteBuffer::write_u32`: four bytes, high byte first.
#[verifier::external_body]
pub(crate) fn u32_bytes(v: u32) -> (r: Vec<u8>)
    ensures
        r@ == be_u32(v),
{
    let mut b = ByteBuffer::new();
    b.write_u32(v);
    b.into_vec()
}

/// Relies on bytebuffer's `ByteBuffer::write_u64`: eight bytes, high byte first.
#[verifier::external_body]
pub(crate) fn u64_bytes(v: u64) -> (r: Vec<u8>)
    ensures
        r@ == be_u64(v),
{
    let mut b = ByteBuffer::new();
    b.write_u64(v);
    b.into_vec()
}

/// Relies on bytebuffer's `ByteBuffer::read_u16`: with two bytes left after the
/// read cursor it returns them as a big-endian value.
#[verifier::external_body]
pub(crate) fn u16_at(data: &[u8], pos: usize) -> (r: u16)
    requires
        pos + 2 <= data@.len(),
    ensures
        r == u16_from_be(data@.subrange(pos as int, pos + 2)),
{
    let mut b = ByteBuffer::from_bytes(data);
    b.set_rpos(pos);
    match b.read_u16() {
        Ok(v) => v,
        Err(_) => 0,
    }
}

/// Relies on bytebuffer's `ByteBuffer::read_u32`: with four bytes left after the
/// read cursor it returns them as a big-endian value.
#[verifier::external_body]
pub(crate) fn u32_at(data: &[u8], pos: usize) -> (r: u32)
    requires
        pos + 4 <= data@.len(),
    ensures
        r == u32_from_be(data@.subrange(pos as int, pos + 4)),
{
    let mut b = ByteBuffer::from_bytes(data);
    b.set_rpos(pos);
    match b.read_u32() {
        Ok(v) => v,
        Err(_) => 0,
    }
}

/// Relies on bytebuffer's `ByteBuffer::read_u64`: with eight bytes left after the
/// read cursor it returns them as a big-endian value.
#[verifier::external_body]
pub(crate) fn u64_at(data: &[u8], pos: usize) -> (r: u64)
    requires
        pos + 8 <= data@.len(),
    ensures
        r == u64_from_be(data@.subrange(pos as int, pos + 8)),
{
    let mut b = ByteBuffer::from_bytes(data);
    b.set_rpos(pos);
    match b.read_u64() {
        Ok(v) => v,
        Err(_) => 0,
    }
}

/// Byte count of the length-prefixed string that starts at `pos`.
pub open spec fn string_len_at(data: Seq<u8>, pos: int) -> int {
    u32_from_be(data.subrange(pos, pos + 4)) as int
}

/// Whether the bytes of the length-prefixed string at `pos` are all present.
pub open spec fn string_fits_at(data: Seq<u8>, pos: int) -> bool {
    pos + 4 + string_len_at(data, pos) <= data.len()
}

/// Bytes of the length-prefixed string that starts at `pos`.
pub open spec fn string_body_at(data: Seq<u8>, pos: int) -> Seq<u8> {
    data.subrange(pos + 4, pos + 4 + string_len_at(data, pos))
}

/// Relies on bytebuffer's `ByteBuffer::write_string`: a 32-bit big-endian byte
/// count, then the string's UTF-8 bytes.
#[verifier::external_body]
pub(crate) fn string_bytes(s: &str) -> (r: Vec<u8>)
    requires
        encode_utf8(s@).len() <= u32::MAX,
    ensures
        r@ == be_u32(encode_utf8(s@).len() as u32) + encode_utf8(s@),
{
    let mut b = ByteBuffer::new();
    b.write_string(s);
    b.into_vec()
}

/// Relies on bytebuffer's `ByteBuffer::read_string`: it reads a 32-bit big-endian
/// byte count, then that many bytes, and fails where they run out or are not UTF-8.
#[verifier::external_body]
pub(crate) fn string_at(data: &[u8], pos: usize) -> (r: Option<String>)
    requires
        pos + 4 <= data@.len(),
    ensures
        r.is_some() == (string_fits_at(data@, pos as int) && valid_utf8(string_body_at(data@, pos as int))),
        r.is_some() ==> r.unwrap()@ == decode_utf8(string_body_at(data@, pos as int)),
{
    let mut b = ByteBuffer::from_bytes(data);
    b.set_rpos(pos);
    b.read_string().ok()
}

#[verifier::external_type_specification]
#[verifier::external_body]
pub struct ExPublicKey(PublicKey);

/// The 32 bytes a public key is made of.
pub uninterp spec fn key_bytes(k: PublicKey) -> Seq<u8>;

/// Relies on crypto_box's `PublicKey::from_slice`: it fails unless the slice is
/// exactly `KEY_SIZE` bytes long, and otherwise holds those bytes unchanged.
#[verifier::external_body]
pub(crate) fn key_from_slice(b: &[u8]) -> (r: Option<PublicKey>)
    ensures
        r.is_some() == (b@.len() == KEY_SIZE),
        r.is_some() ==> key_bytes(r.unwrap()) == b@,
{
    PublicKey::from_slice(b).ok()
}

/// Relies on crypto_box's `PublicKey::as_bytes`: the `KEY_SIZE` bytes the key
/// holds.
#[verifier::external_body]
pub(crate) fn key_to_bytes(k: &PublicKey) -> (r: Vec<u8>)
    ensures
        r@ == key_bytes(*k),
        r@.len() == KEY_SIZE,
{
    k.as_bytes().to_vec()
}

} // verus!
