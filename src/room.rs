//! Room records: settings flags and the fixed-size room description.
use crate::codec::{
    decoded, lemma_i32_bits, overwrite, parsed_as, ByteBuf, DecodeError, FastBuf, Parsed,
};
use crate::wire::{be_u32, be_u64, lemma_u32_round_trip, lemma_u64_round_trip, u32_from_be, u64_from_be};
use vstd::prelude::*;

verus! {

/// Room flags: bit 0 is `invite_only`, bit 1 is `public_invites`; `reserved`
/// keeps room for later flags and is written as zero by current peers.
#[derive(Debug, Clone, Copy, PartialEq, Eq, Structural)]
pub struct RoomSettings {
    pub flags: u8,
    pub reserved: u64,
}

/// Whether bit `i` of `flags` is set.
pub open spec fn bit_set(flags: u8, i: u8) -> bool {
    (flags >> i) & 1u8 == 1u8
}

impl RoomSettings {
    pub const ENCODED_SIZE: usize = 9;

    pub open spec fn wire(&self) -> Seq<u8> {
        seq![self.flags] + be_u64(self.reserved)
    }

    pub open spec fn parse(b: Seq<u8>) -> Parsed<RoomSettings> {
        if b.len() < 9 {
            Err(DecodeError::UnexpectedEof)
        } else {
            Ok((RoomSettings { flags: b[0], reserved: u64_from_be(b.subrange(1, 9)) }, 9))
        }
    }

    pub fn get_invite_only(&self) -> (r: bool)
        ensures
            r == bit_set(self.flags, 0),
    {
        (self.flags >> 0u8) & 1u8 == 1u8
    }

    pub fn get_public_invites(&self) -> (r: bool)
        ensures
            r == bit_set(self.flags, 1),
    {
        (self.flags >> 1u8) & 1u8 == 1u8
    }

    pub fn encode(&self, buf: &mut ByteBuf)
        ensures
            final(buf).data@ == old(buf).data@ + self.wire(),
            final(buf).pos == old(buf).pos,
    {
        buf.write_u8(self.flags);
        buf.write_u64(self.reserved);
        assert(old(buf).data@.push(self.flags) + be_u64(self.reserved) =~= old(buf).data@
            + self.wire());
    }

    pub fn decode(buf: &mut ByteBuf) -> (r: Result<RoomSettings, DecodeError>)
        requires
            old(buf).wf(),
        ensures
            decoded(*old(buf), *final(buf), r, RoomSettings::parse(old(buf).rest())),
    {
        let ghost b = buf.rest();
        if buf.remaining() < 9 {
            return Err(DecodeError::UnexpectedEof);
        }
        let flags = match buf.read_u8() {
            Ok(v) => v,
            Err(e) => return Err(e),
        };
        assert(buf.rest() =~= b.skip(1));
        let reserved = match buf.read_u64() {
            Ok(v) => v,
            Err(e) => return Err(e),
        };
        assert(b.skip(1).take(8) =~= b.subrange(1, 9));
        Ok(RoomSettings { flags, reserved })
    }
}

/// Decoding the encoding of a value, whatever bytes follow it, gives the value back and takes exactly its width.
pub proof fn lemma_room_settings_round_trip(v: RoomSettings, tail: Seq<u8>)
    ensures
        v.wire().len() == RoomSettings::ENCODED_SIZE,
        parsed_as(RoomSettings::parse(v.wire() + tail), v, 9),
{
    lemma_u64_round_trip(v.reserved);
    assert((v.wire() + tail).subrange(1, 9) =~= be_u64(v.reserved));
}

/// A room: its id, the owner's account id, the token needed to join, and its settings.
#[derive(Debug, Clone, Copy, PartialEq, Eq, Structural)]
pub struct RoomInfo {
    pub id: u32,
    pub owner: i32,
    pub token: u32,
    pub settings: RoomSettings,
}

impl RoomInfo {
    pub const ENCODED_SIZE: usize = 21;

    pub open spec fn wire(&self) -> Seq<u8> {
        be_u32(self.id) + be_u32(self.owner as u32) + be_u32(self.token) + self.settings.wire()
    }

    pub open spec fn parse(b: Seq<u8>) -> Parsed<RoomInfo> {
        if b.len() < 21 {
            Err(DecodeError::UnexpectedEof)
        } else {
            Ok(
                (
                    RoomInfo {
                        id: u32_from_be(b.subrange(0, 4)),
                        owner: u32_from_be(b.subrange(4, 8)) as i32,
                        token: u32_from_be(b.subrange(8, 12)),
                        settings: RoomSettings {
                            flags: b[12],
                            reserved: u64_from_be(b.subrange(13, 21)),
                        },
                    },
                    21,
                ),
            )
        }
    }

    pub fn encode(&self, buf: &mut ByteBuf)
        ensures
            final(buf).data@ == old(buf).data@ + self.wire(),
            final(buf).pos == old(buf).pos,
    {
        buf.write_u32(self.id);
        buf.write_i32(self.owner);
        buf.write_u32(self.token);
        self.settings.encode(buf);
        assert(final(buf).data@ =~= old(buf).data@ + self.wire());
    }

    /// Writes the encoding into a fast buffer, which must have room for it.
    pub fn encode_fast(&self, buf: &mut FastBuf)
        requires
            old(buf).wf(),
            old(buf).pos + RoomInfo::ENCODED_SIZE <= old(buf).capacity(),
        ensures
            final(buf).wf(),
            final(buf).data@ == overwrite(old(buf).data@, old(buf).pos as int, self.wire()),
            final(buf).pos == old(buf).pos + RoomInfo::ENCODED_SIZE,
    {
        let mut tmp = ByteBuf::new();
        self.encode(&mut tmp);
        proof {
            lemma_room_info_round_trip(*self, Seq::empty());
        }
        buf.write_bytes(tmp.data.as_slice());
    }

    pub fn decode(buf: &mut ByteBuf) -> (r: Result<RoomInfo, DecodeError>)
        requires
            old(buf).wf(),
        ensures
            decoded(*old(buf), *final(buf), r, RoomInfo::parse(old(buf).rest())),
    {
        let ghost b = buf.rest();
        if buf.remaining() < 21 {
            return Err(DecodeError::UnexpectedEof);
        }
        let id = match buf.read_u32() {
            Ok(v) => v,
            Err(e) => return Err(e),
        };
        assert(buf.rest() =~= b.skip(4));
        assert(b.take(4) =~= b.subrange(0, 4));
        let owner = match buf.read_i32() {
            Ok(v) => v,
            Err(e) => return Err(e),
        };
        assert(buf.rest() =~= b.skip(8));
        assert(b.skip(4).take(4) =~= b.subrange(4, 8));
        let token = match buf.read_u32() {
            Ok(v) => v,
            Err(e) => return Err(e),
        };
        assert(buf.rest() =~= b.skip(12));
        assert(b.skip(8).take(4) =~= b.subrange(8, 12));
        let settings = match RoomSettings::decode(buf) {
            Ok(v) => v,
            Err(e) => return Err(e),
        };
        assert(b.skip(12).subrange(1, 9) =~= b.subrange(13, 21));
        Ok(RoomInfo { id, owner, token, settings })
    }
}

/// Decoding the encoding of a value, whatever bytes follow it, gives the value back and takes exactly its width.
pub proof fn lemma_room_info_round_trip(v: RoomInfo, tail: Seq<u8>)
    ensures
        v.wire().len() == RoomInfo::ENCODED_SIZE,
        parsed_as(RoomInfo::parse(v.wire() + tail), v, 21),
{
    let b = v.wire() + tail;
    lemma_u32_round_trip(v.id);
    lemma_u32_round_trip(v.owner as u32);
    lemma_u32_round_trip(v.token);
    lemma_u64_round_trip(v.settings.reserved);
    assert(b.subrange(0, 4) =~= be_u32(v.id));
    assert(b.subrange(4, 8) =~= be_u32(v.owner as u32));
    assert(b.subrange(8, 12) =~= be_u32(v.token));
    assert(b.subrange(13, 21) =~= be_u64(v.settings.reserved));
    lemma_i32_bits(v.owner);
}

/* an optional room */

/// An optional room: a presence byte, then the room's bytes, or as many zero
/// bytes when there is none. The width is the same either way, which is what
/// lets a preallocated buffer be sized from the type alone.
pub open spec fn optional_room_wire(v: Option<RoomInfo>) -> Seq<u8> {
    match v {
        Some(info) => seq![1u8] + info.wire(),
        None => seq![0u8] + Seq::new(21, |i: int| 0u8),
    }
}

pub const OPTIONAL_ROOM_SIZE: usize = 22;

/// A zero presence byte reads as absent (its padding is skipped); any other as present.
pub open spec fn parse_optional_room(b: Seq<u8>) -> Parsed<Option<RoomInfo>> {
    if b.len() < 22 {
        Err(DecodeError::UnexpectedEof)
    } else if b[0] == 0 {
        Ok((None, 22))
    } else {
        match RoomInfo::parse(b.skip(1)) {
            Ok((info, n)) => Ok((Some(info), 22)),
            Err(e) => Err(e),
        }
    }
}

/// An absent and a present room take the same number of bytes.
pub proof fn lemma_optional_room_width(info: RoomInfo)
    ensures
        optional_room_wire(None).len() == optional_room_wire(Some(info)).len(),
        optional_room_wire(None).len() == OPTIONAL_ROOM_SIZE,
{
    lemma_room_info_round_trip(info, Seq::empty());
}

/// Decoding the encoding of a value, whatever bytes follow it, gives the value back and takes exactly its width.
pub proof fn lemma_optional_room_round_trip(v: Option<RoomInfo>, tail: Seq<u8>)
    ensures
        parsed_as(parse_optional_room(optional_room_wire(v) + tail), v, 22),
{
    match v {
        Some(info) => {
            lemma_room_info_round_trip(info, tail);
            assert((optional_room_wire(v) + tail).skip(1) =~= info.wire() + tail);
        },
        None => {},
    }
}

pub fn encode_optional_room(v: &Option<RoomInfo>, buf: &mut ByteBuf)
    ensures
        final(buf).data@ == old(buf).data@ + optional_room_wire(*v),
        final(buf).pos == old(buf).pos,
{
    match v {
        Some(info) => {
            buf.write_u8(1);
            info.encode(buf);
            assert(final(buf).data@ =~= old(buf).data@ + optional_room_wire(*v));
        },
        None => {
            buf.write_u8(0);
            let mut i: usize = 0;
            while i < RoomInfo::ENCODED_SIZE
                invariant
                    i <= 21,
                    buf.pos == old(buf).pos,
                    buf.data@ == old(buf).data@ + seq![0u8] + Seq::new(i as nat, |k: int| 0u8),
                decreases 21 - i,
            {
                buf.write_u8(0);
                i += 1;
                assert(buf.data@ =~= old(buf).data@ + seq![0u8] + Seq::new(i as nat, |k: int| 0u8));
            }
            assert(buf.data@ =~= old(buf).data@ + optional_room_wire(*v));
        },
    }
}

pub fn decode_optional_room(buf: &mut ByteBuf) -> (r: Result<Option<RoomInfo>, DecodeError>)
    requires
        old(buf).wf(),
    ensures
        decoded(*old(buf), *final(buf), r, parse_optional_room(old(buf).rest())),
{
    let ghost b = buf.rest();
    if buf.remaining() < OPTIONAL_ROOM_SIZE {
        return Err(DecodeError::UnexpectedEof);
    }
    let flag = match buf.read_u8() {
        Ok(v) => v,
        Err(e) => return Err(e),
    };
    assert(buf.rest() =~= b.skip(1));
    if flag == 0 {
        let _len = buf.data.len();
        buf.pos = buf.pos + RoomInfo::ENCODED_SIZE;
        Ok(None)
    } else {
        match RoomInfo::decode(buf) {
            Ok(info) => Ok(Some(info)),
            Err(e) => Err(e),
        }
    }
}

} // verus!
