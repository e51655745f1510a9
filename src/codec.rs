//! Growable and fixed-capacity byte buffers, and the encodings of the
//! protocol's scalar, text, list and opaque values.
use crate::wire::{
    be_u16, be_u32, be_u64, key_bytes, key_from_slice, key_to_bytes, lemma_u16_round_trip,
    lemma_u32_round_trip, lemma_u64_round_trip, string_at, string_bytes, u16_at, u16_bytes, u32_at,
    u32_bytes, u64_at, u64_bytes, u16_from_be, u32_from_be, u64_from_be, KEY_SIZE,
};
use crypto_box::PublicKey;
use vstd::utf8::{decode_utf8, encode_utf8, valid_utf8};
use vstd::prelude::*;

verus! {

broadcast use vstd::utf8::group_utf8_lib;

/// Why a value could not be decoded.
#[derive(Debug, Clone, Copy, PartialEq, Eq, Structural)]
pub enum DecodeError {
    /// The input ended before the value did.
    UnexpectedEof,
    /// The bytes are present but do not form a valid value.
    InvalidData,
}

/// What parsing a value of type `T` from the front of some bytes gives: the value
/// and the number of bytes it took, or the reason it failed.
pub type Parsed<T> = Result<(T, nat), DecodeError>;

/// A growable byte sequence with a read cursor. Writes append at the end.
pub struct ByteBuf {
    pub data: Vec<u8>,
    pub pos: usize,
}

impl ByteBuf {
    pub open spec fn wf(&self) -> bool {
        self.pos <= self.data@.len()
    }

    /// The bytes that have not been read yet.
    pub open spec fn rest(&self) -> Seq<u8> {
        self.data@.subrange(self.pos as int, self.data@.len() as int)
    }

    pub fn new() -> (r: ByteBuf)
        ensures
            r.wf(),
            r.data@ == Seq::<u8>::empty(),
            r.pos == 0,
    {
        ByteBuf { data: Vec::new(), pos: 0 }
    }

    /// A buffer that reads `data` from its start.
    pub fn from_vec(data: Vec<u8>) -> (r: ByteBuf)
        ensures
            r.wf(),
            r.data@ == data@,
            r.pos == 0,
    {
        ByteBuf { data, pos: 0 }
    }

    pub fn remaining(&self) -> (r: usize)
        requires
            self.wf(),
        ensures
            r == self.rest().len(),
    {
        self.data.len() - self.pos
    }

    /// Appends `bytes`; the buffer grows as needed.
    pub fn write_bytes(&mut self, bytes: &[u8])
        ensures
            final(self).data@ == old(self).data@ + bytes@,
            final(self).pos == old(self).pos,
    {
        self.data.extend_from_slice(bytes);
    }

    /// Reads `n` bytes.
    pub fn read_bytes(&mut self, n: usize) -> (r: Result<Vec<u8>, DecodeError>)
        requires
            old(self).wf(),
        ensures
            final(self).wf(),
            final(self).data == old(self).data,
            r is Ok <==> n <= old(self).rest().len(),
            r is Ok ==> r->Ok_0@ == old(self).rest().take(n as int) && final(self).pos == old(
                self,
            ).pos + n,
            r is Err ==> r == Err::<Vec<u8>, DecodeError>(DecodeError::UnexpectedEof)
                && final(self).pos == old(self).pos,
    {
        if n > self.data.len() - self.pos {
            return Err(DecodeError::UnexpectedEof);
        }
        let len = self.data.len();
        let mut out: Vec<u8> = Vec::with_capacity(n);
        let mut i: usize = 0;
        while i < n
            invariant
                self.data@.len() == len,
                self.wf(),
                i <= n,
                self.pos + n <= self.data@.len(),
                out@ == self.data@.subrange(self.pos as int, self.pos + i),
            decreases n - i,
        {
            out.push(self.data[self.pos + i]);
            i += 1;
            assert(out@ =~= self.data@.subrange(self.pos as int, self.pos + i));
        }
        assert(out@ =~= self.rest().take(n as int));
        self.pos = self.pos + n;
        Ok(out)
    }

    /// Reads every byte left.
    pub fn read_remaining(&mut self) -> (r: Vec<u8>)
        requires
            old(self).wf(),
        ensures
            final(self).wf(),
            final(self).data == old(self).data,
            r@ == old(self).rest(),
            final(self).pos == final(self).data@.len(),
    {
        let n = self.data.len() - self.pos;
        match self.read_bytes(n) {
            Ok(v) => {
                assert(old(self).rest().take(n as int) =~= old(self).rest());
                v
            },
            Err(_) => Vec::new(),
        }
    }
}

/// A write-only buffer allocated once at an exact capacity. Every write must fit:
/// a write past the end is a broken size computation, so it is ruled out by the
/// writes' preconditions.
pub struct FastBuf {
    pub data: Vec<u8>,
    pub pos: usize,
}

/// `data` with the bytes from `pos` on replaced by `bytes`.
pub open spec fn overwrite(data: Seq<u8>, pos: int, bytes: Seq<u8>) -> Seq<u8> {
    data.take(pos) + bytes + data.skip(pos + bytes.len())
}

/// Two writes in a row are one write of both.
pub proof fn lemma_overwrite_concat(d: Seq<u8>, p: int, a: Seq<u8>, b: Seq<u8>)
    requires
        0 <= p,
        p + a.len() + b.len() <= d.len(),
    ensures
        overwrite(overwrite(d, p, a), p + a.len(), b) == overwrite(d, p, a + b),
        overwrite(d, p, a).len() == d.len(),
{
    assert(overwrite(overwrite(d, p, a), p + a.len(), b) =~= overwrite(d, p, a + b));
}

impl FastBuf {
    pub open spec fn wf(&self) -> bool {
        self.pos <= self.data@.len()
    }

    pub open spec fn capacity(&self) -> nat {
        self.data@.len()
    }

    /// The bytes before the cursor.
    pub open spec fn written(&self) -> Seq<u8> {
        self.data@.take(self.pos as int)
    }

    /// A zero-filled buffer of `capacity` bytes, cursor at its start.
    pub fn with_capacity(capacity: usize) -> (r: FastBuf)
        ensures
            r.wf(),
            r.pos == 0,
            r.data@ == Seq::new(capacity as nat, |i: int| 0u8),
    {
        let mut data: Vec<u8> = Vec::with_capacity(capacity);
        let mut i: usize = 0;
        while i < capacity
            invariant
                i <= capacity,
                data@ == Seq::new(i as nat, |k: int| 0u8),
            decreases capacity - i,
        {
            data.push(0u8);
            i += 1;
            assert(data@ =~= Seq::new(i as nat, |k: int| 0u8));
        }
        FastBuf { data, pos: 0 }
    }

    /// Moves the cursor; later writes overwrite from there.
    pub fn set_pos(&mut self, pos: usize)
        requires
            pos <= old(self).data@.len(),
        ensures
            final(self).wf(),
            final(self).data == old(self).data,
            final(self).pos == pos,
    {
        self.pos = pos;
    }

    /// Writes `bytes` at the cursor and moves past them.
    pub fn write_bytes(&mut self, bytes: &[u8])
        requires
            old(self).wf(),
            old(self).pos + bytes@.len() <= old(self).capacity(),
        ensures
            final(self).wf(),
            final(self).data@ == overwrite(old(self).data@, old(self).pos as int, bytes@),
            final(self).pos == old(self).pos + bytes@.len(),
    {
        let start = self.pos;
        let len = self.data.len();
        let mut i: usize = 0;
        while i < bytes.len()
            invariant
                self.data@.len() == len,
                start == old(self).pos,
                start + bytes@.len() <= self.data@.len(),
                self.data@.len() == old(self).data@.len(),
                i <= bytes@.len(),
                self.data@ == overwrite(old(self).data@, start as int, bytes@.take(i as int)),
            decreases bytes@.len() - i,
        {
            self.data.set(start + i, bytes[i]);
            i += 1;
            assert(self.data@ =~= overwrite(old(self).data@, start as int, bytes@.take(i as int)));
        }
        assert(bytes@.take(i as int) =~= bytes@);
        self.pos = start + bytes.len();
    }

    /// The whole buffer.
    pub fn into_vec(self) -> (r: Vec<u8>)
        ensures
            r@ == self.data@,
    {
        self.data
    }
}

/* scalar values */

pub open spec fn bool_wire(v: bool) -> Seq<u8> {
    seq![if v { 1u8 } else { 0u8 }]
}

pub open spec fn i32_wire(v: i32) -> Seq<u8> {
    be_u32(v as u32)
}

/// A value of `width` bytes read with `read` from the front of `b`.
pub open spec fn parse_fixed<T>(b: Seq<u8>, width: nat, read: spec_fn(Seq<u8>) -> T) -> Parsed<T> {
    if b.len() < width {
        Err(DecodeError::UnexpectedEof)
    } else {
        Ok((read(b.take(width as int)), width))
    }
}

pub open spec fn parse_u8(b: Seq<u8>) -> Parsed<u8> {
    parse_fixed(b, 1, |s: Seq<u8>| s[0])
}

/// A boolean is one byte; any byte other than zero reads as `true`.
pub open spec fn parse_bool(b: Seq<u8>) -> Parsed<bool> {
    parse_fixed(b, 1, |s: Seq<u8>| s[0] != 0)
}

pub open spec fn parse_u16(b: Seq<u8>) -> Parsed<u16> {
    parse_fixed(b, 2, |s: Seq<u8>| u16_from_be(s))
}

pub open spec fn parse_u32(b: Seq<u8>) -> Parsed<u32> {
    parse_fixed(b, 4, |s: Seq<u8>| u32_from_be(s))
}

pub open spec fn parse_i32(b: Seq<u8>) -> Parsed<i32> {
    parse_fixed(b, 4, |s: Seq<u8>| u32_from_be(s) as i32)
}

pub open spec fn parse_u64(b: Seq<u8>) -> Parsed<u64> {
    parse_fixed(b, 8, |s: Seq<u8>| u64_from_be(s))
}

/// Whether `r` parsed the value `v` from the front of the bytes, taking `n` of them.
pub open spec fn parsed_as<T>(r: Parsed<T>, v: T, n: nat) -> bool {
    r == Ok::<(T, nat), DecodeError>((v, n))
}

/// Decoding the encoding of a value, whatever bytes follow it, gives the value back and takes exactly its width.
pub proof fn lemma_u8_round_trip(v: u8, tail: Seq<u8>)
    ensures
        parsed_as(parse_u8(seq![v] + tail), v, 1),
{
}

/// Decoding the encoding of a value, whatever bytes follow it, gives the value back and takes exactly its width.
pub proof fn lemma_bool_round_trip(v: bool, tail: Seq<u8>)
    ensures
        parsed_as(parse_bool(bool_wire(v) + tail), v, 1),
{
}

/// Decoding the encoding of a value, whatever bytes follow it, gives the value back and takes exactly its width.
pub proof fn lemma_u16_wire_round_trip(v: u16, tail: Seq<u8>)
    ensures
        parsed_as(parse_u16(be_u16(v) + tail), v, 2),
{
    lemma_u16_round_trip(v);
    assert((be_u16(v) + tail).take(2) =~= be_u16(v));
}

/// Decoding the encoding of a value, whatever bytes follow it, gives the value back and takes exactly its width.
pub proof fn lemma_u32_wire_round_trip(v: u32, tail: Seq<u8>)
    ensures
        parsed_as(parse_u32(be_u32(v) + tail), v, 4),
{
    lemma_u32_round_trip(v);
    assert((be_u32(v) + tail).take(4) =~= be_u32(v));
}

/// Decoding the encoding of a value, whatever bytes follow it, gives the value back and takes exactly its width.
pub proof fn lemma_i32_wire_round_trip(v: i32, tail: Seq<u8>)
    ensures
        parsed_as(parse_i32(i32_wire(v) + tail), v, 4),
{
    lemma_u32_round_trip(v as u32);
    assert((i32_wire(v) + tail).take(4) =~= i32_wire(v));
    assert((v as u32) as i32 == v) by (bit_vector);
}

/// A 32-bit signed value survives the trip through its unsigned bits.
pub proof fn lemma_i32_bits(v: i32)
    ensures
        (v as u32) as i32 == v,
{
    assert((v as u32) as i32 == v) by (bit_vector);
}

/// Decoding the encoding of a value, whatever bytes follow it, gives the value back and takes exactly its width.
pub proof fn lemma_u64_wire_round_trip(v: u64, tail: Seq<u8>)
    ensures
        parsed_as(parse_u64(be_u64(v) + tail), v, 8),
{
    lemma_u64_round_trip(v);
    assert((be_u64(v) + tail).take(8) =~= be_u64(v));
}


/// Whether reading from `before` gave `r` and left the cursor as in `after`,
/// as `p` (the parse of the unread bytes) says.
pub open spec fn decoded<T>(before: ByteBuf, after: ByteBuf, r: Result<T, DecodeError>, p: Parsed<T>) -> bool {
    &&& after.wf()
    &&& after.data == before.data
    &&& match p {
        Ok((v, n)) => r == Ok::<T, DecodeError>(v) && after.pos == before.pos + n,
        Err(e) => r == Err::<T, DecodeError>(e),
    }
}

impl ByteBuf {
    pub fn write_u8(&mut self, v: u8)
        ensures
            final(self).data@ == old(self).data@.push(v),
            final(self).pos == old(self).pos,
    {
        self.data.push(v);
    }

    pub fn write_bool(&mut self, v: bool)
        ensures
            final(self).data@ == old(self).data@ + bool_wire(v),
            final(self).pos == old(self).pos,
    {
        self.data.push(if v { 1u8 } else { 0u8 });
        assert(old(self).data@.push(if v { 1u8 } else { 0u8 }) =~= old(self).data@ + bool_wire(v));
    }

    pub fn write_u16(&mut self, v: u16)
        ensures
            final(self).data@ == old(self).data@ + be_u16(v),
            final(self).pos == old(self).pos,
    {
        let b = u16_bytes(v);
        self.write_bytes(b.as_slice());
    }

    pub fn write_u32(&mut self, v: u32)
        ensures
            final(self).data@ == old(self).data@ + be_u32(v),
            final(self).pos == old(self).pos,
    {
        let b = u32_bytes(v);
        self.write_bytes(b.as_slice());
    }

    pub fn write_i32(&mut self, v: i32)
        ensures
            final(self).data@ == old(self).data@ + i32_wire(v),
            final(self).pos == old(self).pos,
    {
        self.write_u32(#[verifier::truncate] (v as u32));
    }

    pub fn write_u64(&mut self, v: u64)
        ensures
            final(self).data@ == old(self).data@ + be_u64(v),
            final(self).pos == old(self).pos,
    {
        let b = u64_bytes(v);
        self.write_bytes(b.as_slice());
    }

    pub fn read_u8(&mut self) -> (r: Result<u8, DecodeError>)
        requires
            old(self).wf(),
        ensures
            decoded(*old(self), *final(self), r, parse_u8(old(self).rest())),
    {
        if self.data.len() - self.pos < 1 {
            return Err(DecodeError::UnexpectedEof);
        }
        let v = self.data[self.pos];
        self.pos = self.pos + 1;
        Ok(v)
    }

    pub fn read_bool(&mut self) -> (r: Result<bool, DecodeError>)
        requires
            old(self).wf(),
        ensures
            decoded(*old(self), *final(self), r, parse_bool(old(self).rest())),
    {
        match self.read_u8() {
            Ok(b) => Ok(b != 0),
            Err(e) => Err(e),
        }
    }

    pub fn read_u16(&mut self) -> (r: Result<u16, DecodeError>)
        requires
            old(self).wf(),
        ensures
            decoded(*old(self), *final(self), r, parse_u16(old(self).rest())),
    {
        if self.data.len() - self.pos < 2 {
            return Err(DecodeError::UnexpectedEof);
        }
        let v = u16_at(self.data.as_slice(), self.pos);
        assert(self.rest().take(2) =~= self.data@.subrange(self.pos as int, self.pos + 2));
        self.pos = self.pos + 2;
        Ok(v)
    }

    pub fn read_u32(&mut self) -> (r: Result<u32, DecodeError>)
        requires
            old(self).wf(),
        ensures
            decoded(*old(self), *final(self), r, parse_u32(old(self).rest())),
    {
        if self.data.len() - self.pos < 4 {
            return Err(DecodeError::UnexpectedEof);
        }
        let v = u32_at(self.data.as_slice(), self.pos);
        assert(self.rest().take(4) =~= self.data@.subrange(self.pos as int, self.pos + 4));
        self.pos = self.pos + 4;
        Ok(v)
    }

    pub fn read_i32(&mut self) -> (r: Result<i32, DecodeError>)
        requires
            old(self).wf(),
        ensures
            decoded(*old(self), *final(self), r, parse_i32(old(self).rest())),
    {
        match self.read_u32() {
            Ok(v) => Ok(#[verifier::truncate] (v as i32)),
            Err(e) => Err(e),
        }
    }

    pub fn read_u64(&mut self) -> (r: Result<u64, DecodeError>)
        requires
            old(self).wf(),
        ensures
            decoded(*old(self), *final(self), r, parse_u64(old(self).rest())),
    {
        if self.data.len() - self.pos < 8 {
            return Err(DecodeError::UnexpectedEof);
        }
        let v = u64_at(self.data.as_slice(), self.pos);
        assert(self.rest().take(8) =~= self.data@.subrange(self.pos as int, self.pos + 8));
        self.pos = self.pos + 8;
        Ok(v)
    }
}

/* text */

/// A string: its UTF-8 byte count as a 32-bit value, then the bytes.
pub open spec fn string_wire(s: Seq<char>) -> Seq<u8> {
    be_u32(encode_utf8(s).len() as u32) + encode_utf8(s)
}

pub open spec fn parse_string(b: Seq<u8>) -> Parsed<Seq<char>> {
    if b.len() < 4 {
        Err(DecodeError::UnexpectedEof)
    } else {
        let n = u32_from_be(b.take(4)) as int;
        if b.len() < 4 + n {
            Err(DecodeError::UnexpectedEof)
        } else if !valid_utf8(b.subrange(4, 4 + n)) {
            Err(DecodeError::InvalidData)
        } else {
            Ok((decode_utf8(b.subrange(4, 4 + n)), (4 + n) as nat))
        }
    }
}

/// Decoding the encoding of a value, whatever bytes follow it, gives the value back and takes exactly its width.
pub proof fn lemma_string_round_trip(s: Seq<char>, tail: Seq<u8>)
    requires
        encode_utf8(s).len() <= u32::MAX,
    ensures
        parsed_as(parse_string(string_wire(s) + tail), s, string_wire(s).len()),
{
    let e = encode_utf8(s);
    let b = string_wire(s) + tail;
    lemma_u32_round_trip(e.len() as u32);
    assert(b.take(4) =~= be_u32(e.len() as u32));
    assert(b.subrange(4, 4 + e.len() as int) =~= e);
}

impl ByteBuf {
    pub fn write_string(&mut self, s: &str)
        requires
            encode_utf8(s@).len() <= u32::MAX,
        ensures
            final(self).data@ == old(self).data@ + string_wire(s@),
            final(self).pos == old(self).pos,
    {
        let b = string_bytes(s);
        self.write_bytes(b.as_slice());
    }

    pub fn read_string(&mut self) -> (r: Result<String, DecodeError>)
        requires
            old(self).wf(),
        ensures
            final(self).wf(),
            final(self).data == old(self).data,
            r is Ok <==> parse_string(old(self).rest()) is Ok,
            r is Ok ==> parse_string(old(self).rest()) == Ok::<(Seq<char>, nat), DecodeError>(
                (r->Ok_0@, (final(self).pos - old(self).pos) as nat),
            ),
            r is Err ==> parse_string(old(self).rest()) == Err::<(Seq<char>, nat), DecodeError>(
                r->Err_0,
            ),
    {
        let rest = self.data.len() - self.pos;
        if rest < 4 {
            return Err(DecodeError::UnexpectedEof);
        }
        let n = u32_at(self.data.as_slice(), self.pos);
        assert(self.rest().take(4) =~= self.data@.subrange(self.pos as int, self.pos + 4));
        if rest - 4 < n as usize {
            return Err(DecodeError::UnexpectedEof);
        }
        assert(self.rest().subrange(4, 4 + n) =~= self.data@.subrange(
            self.pos + 4,
            self.pos + 4 + n,
        ));
        match string_at(self.data.as_slice(), self.pos) {
            Some(s) => {
                self.pos = self.pos + 4 + n as usize;
                Ok(s)
            },
            None => Err(DecodeError::InvalidData),
        }
    }
}

/* lists */

/// The elements of a list, each as four bytes.
pub open spec fn i32s_wire(s: Seq<i32>) -> Seq<u8>
    decreases s.len(),
{
    if s.len() == 0 {
        Seq::empty()
    } else {
        i32s_wire(s.drop_last()) + i32_wire(s.last())
    }
}

/// A list: its element count as a 32-bit value, then the elements.
pub open spec fn i32_list_wire(s: Seq<i32>) -> Seq<u8> {
    be_u32(s.len() as u32) + i32s_wire(s)
}

pub open spec fn parse_i32_list(b: Seq<u8>) -> Parsed<Seq<i32>> {
    if b.len() < 4 {
        Err(DecodeError::UnexpectedEof)
    } else {
        let n = u32_from_be(b.take(4)) as int;
        if b.len() < 4 + 4 * n {
            Err(DecodeError::UnexpectedEof)
        } else {
            Ok(
                (
                    Seq::new(n as nat, |k: int| u32_from_be(b.subrange(4 + 4 * k, 8 + 4 * k)) as i32),
                    (4 + 4 * n) as nat,
                ),
            )
        }
    }
}

/// Each element of a list sits at four times its index.
pub proof fn lemma_i32s_wire(s: Seq<i32>)
    ensures
        i32s_wire(s).len() == 4 * s.len(),
        forall|k: int|
            0 <= k < s.len() ==> #[trigger] i32s_wire(s).subrange(4 * k, 4 * k + 4) == i32_wire(s[k]),
    decreases s.len(),
{
    if s.len() > 0 {
        let p = s.drop_last();
        lemma_i32s_wire(p);
        assert forall|k: int| 0 <= k < s.len() implies #[trigger] i32s_wire(s).subrange(
            4 * k,
            4 * k + 4,
        ) == i32_wire(s[k]) by {
            if k < p.len() {
                assert(i32s_wire(s).subrange(4 * k, 4 * k + 4) =~= i32s_wire(p).subrange(
                    4 * k,
                    4 * k + 4,
                ));
            } else {
                assert(i32s_wire(s).subrange(4 * k, 4 * k + 4) =~= i32_wire(s.last()));
            }
        }
    }
}

/// Decoding the encoding of a value, whatever bytes follow it, gives the value back and takes exactly its width.
pub proof fn lemma_i32_list_round_trip(s: Seq<i32>, tail: Seq<u8>)
    requires
        s.len() <= u32::MAX,
    ensures
        parsed_as(parse_i32_list(i32_list_wire(s) + tail), s, i32_list_wire(s).len()),
{
    let b = i32_list_wire(s) + tail;
    lemma_u32_round_trip(s.len() as u32);
    lemma_i32s_wire(s);
    assert(b.take(4) =~= be_u32(s.len() as u32));
    let got = Seq::new(s.len(), |k: int| u32_from_be(b.subrange(4 + 4 * k, 8 + 4 * k)) as i32);
    assert forall|k: int| 0 <= k < s.len() implies got[k] == s[k] by {
        assert(b.subrange(4 + 4 * k, 8 + 4 * k) =~= i32s_wire(s).subrange(4 * k, 4 * k + 4));
        lemma_i32_wire_round_trip(s[k], Seq::empty());
        assert((i32_wire(s[k]) + Seq::<u8>::empty()).take(4) =~= i32_wire(s[k]));
    }
    assert(got =~= s);
}

impl ByteBuf {
    pub fn write_i32_list(&mut self, v: &Vec<i32>)
        requires
            v@.len() <= u32::MAX,
        ensures
            final(self).data@ == old(self).data@ + i32_list_wire(v@),
            final(self).pos == old(self).pos,
    {
        self.write_u32(v.len() as u32);
        let mut i: usize = 0;
        while i < v.len()
            invariant
                i <= v@.len(),
                self.pos == old(self).pos,
                self.data@ == old(self).data@ + be_u32(v@.len() as u32) + i32s_wire(
                    v@.take(i as int),
                ),
            decreases v@.len() - i,
        {
            self.write_i32(v[i]);
            assert(v@.take(i + 1).drop_last() =~= v@.take(i as int));
            i += 1;
        }
        assert(v@.take(i as int) =~= v@);
        assert(old(self).data@ + be_u32(v@.len() as u32) + i32s_wire(v@) =~= old(self).data@
            + i32_list_wire(v@));
    }

    pub fn read_i32_list(&mut self) -> (r: Result<Vec<i32>, DecodeError>)
        requires
            old(self).wf(),
        ensures
            final(self).wf(),
            final(self).data == old(self).data,
            r is Ok <==> parse_i32_list(old(self).rest()) is Ok,
            r is Ok ==> parse_i32_list(old(self).rest()) == Ok::<(Seq<i32>, nat), DecodeError>(
                (r->Ok_0@, (final(self).pos - old(self).pos) as nat),
            ),
            r is Err ==> parse_i32_list(old(self).rest()) == Err::<(Seq<i32>, nat), DecodeError>(
                r->Err_0,
            ),
    {
        let rest = self.data.len() - self.pos;
        if rest < 4 {
            return Err(DecodeError::UnexpectedEof);
        }
        let n = u32_at(self.data.as_slice(), self.pos);
        let ghost b = self.rest();
        assert(b.take(4) =~= self.data@.subrange(self.pos as int, self.pos + 4));
        if (rest - 4) / 4 < n as usize {
            return Err(DecodeError::UnexpectedEof);
        }
        let len = self.data.len();
        let start = self.pos + 4;
        let mut out: Vec<i32> = Vec::new();
        let mut k: usize = 0;
        while k < n as usize
            invariant
                self.wf(),
                self.data == old(self).data,
                self.data@.len() == len,
                self.pos == old(self).pos,
                b == self.rest(),
                start == self.pos + 4,
                4 + 4 * (n as int) <= b.len(),
                k <= n,
                out@ == Seq::new(k as nat, |j: int| u32_from_be(b.subrange(4 + 4 * j, 8 + 4 * j)) as i32),
            decreases n - k,
        {
            assert(4 * k + 4 <= 4 * (n as int)) by (nonlinear_arith)
                requires
                    k < n,
            ;
            let x = u32_at(self.data.as_slice(), start + 4 * k);
            assert(b.subrange(4 + 4 * k, 8 + 4 * k) =~= self.data@.subrange(
                start + 4 * k,
                start + 4 * k + 4,
            ));
            out.push(#[verifier::truncate] (x as i32));
            k += 1;
            assert(out@ =~= Seq::new(k as nat, |j: int| u32_from_be(b.subrange(4 + 4 * j, 8 + 4 * j)) as i32));
        }
        self.pos = start + 4 * (n as usize);
        Ok(out)
    }
}

/* opaque trailing bytes */

/// Every byte that is left in a buffer, taken as one block.
#[derive(Clone)]
pub struct RemainderBytes {
    pub data: Vec<u8>,
}

impl RemainderBytes {
    pub fn as_slice(&self) -> (r: &[u8])
        ensures
            r@ == self.data@,
    {
        self.data.as_slice()
    }

    pub fn encode(&self, buf: &mut ByteBuf)
        ensures
            final(buf).data@ == old(buf).data@ + self.data@,
            final(buf).pos == old(buf).pos,
    {
        buf.write_bytes(self.data.as_slice());
    }

    /// Takes every unread byte; never fails.
    pub fn decode(buf: &mut ByteBuf) -> (r: Result<RemainderBytes, DecodeError>)
        requires
            old(buf).wf(),
        ensures
            final(buf).wf(),
            final(buf).data == old(buf).data,
            r is Ok,
            r->Ok_0.data@ == old(buf).rest(),
            final(buf).pos == final(buf).data@.len(),
    {
        Ok(RemainderBytes { data: buf.read_remaining() })
    }
}

impl From<Vec<u8>> for RemainderBytes {
    fn from(value: Vec<u8>) -> (r: RemainderBytes) {
        RemainderBytes { data: value }
    }
}

impl vstd::std_specs::convert::FromSpecImpl<Vec<u8>> for RemainderBytes {
    open spec fn obeys_from_spec() -> bool {
        true
    }

    open spec fn from_spec(v: Vec<u8>) -> RemainderBytes {
        RemainderBytes { data: v }
    }
}

/* public keys */

/// A public key: its `KEY_SIZE` raw bytes, with no delimiter.
pub open spec fn parse_key(b: Seq<u8>) -> Parsed<Seq<u8>> {
    parse_fixed(b, KEY_SIZE as nat, |s: Seq<u8>| s)
}

/// Decoding the encoding of a value, whatever bytes follow it, gives the value back and takes exactly its width.
pub proof fn lemma_key_round_trip(key: Seq<u8>, tail: Seq<u8>)
    requires
        key.len() == KEY_SIZE,
    ensures
        parsed_as(parse_key(key + tail), key, KEY_SIZE as nat),
{
    assert((key + tail).take(KEY_SIZE as int) =~= key);
}

impl ByteBuf {
    pub fn write_key(&mut self, key: &PublicKey)
        ensures
            final(self).data@ == old(self).data@ + key_bytes(*key),
            key_bytes(*key).len() == KEY_SIZE,
            final(self).pos == old(self).pos,
    {
        let b = key_to_bytes(key);
        self.write_bytes(b.as_slice());
    }

    pub fn read_key(&mut self) -> (r: Result<PublicKey, DecodeError>)
        requires
            old(self).wf(),
        ensures
            final(self).wf(),
            final(self).data == old(self).data,
            r is Ok <==> parse_key(old(self).rest()) is Ok,
            r is Ok ==> parse_key(old(self).rest()) == Ok::<(Seq<u8>, nat), DecodeError>(
                (key_bytes(r->Ok_0), (final(self).pos - old(self).pos) as nat),
            ),
            r is Err ==> r == Err::<PublicKey, DecodeError>(DecodeError::UnexpectedEof),
    {
        match self.read_bytes(KEY_SIZE) {
            Ok(b) => match key_from_slice(b.as_slice()) {
                Some(k) => Ok(k),
                None => Err(DecodeError::InvalidData),
            },
            Err(e) => Err(e),
        }
    }
}

} // verus!
