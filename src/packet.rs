//! Packet framing: the fixed header, each packet's id and transport, and the
//! bodies of the room packets.
use crate::codec::{
    bool_wire, decoded, i32_wire, overwrite, parsed_as, string_wire, ByteBuf,
    DecodeError, FastBuf, Parsed,
};
use crate::room::RoomInfo;
use crate::wire::{be_u16, be_u32, lemma_u16_round_trip, u16_from_be};
use vstd::prelude::*;
use vstd::utf8::encode_utf8;

verus! {

/// The header that starts every message.
#[derive(Debug, Clone, Copy, PartialEq, Eq, Structural)]
pub struct PacketHeader {
    pub packet_id: u16,
    pub encrypted: bool,
}

impl PacketHeader {
    /// Width of an encoded header; a count written right after the header sits here.
    pub const SIZE: usize = 3;

    pub open spec fn wire(&self) -> Seq<u8> {
        be_u16(self.packet_id) + bool_wire(self.encrypted)
    }

    pub open spec fn parse(b: Seq<u8>) -> Parsed<PacketHeader> {
        if b.len() < 3 {
            Err(DecodeError::UnexpectedEof)
        } else {
            Ok((PacketHeader { packet_id: u16_from_be(b.take(2)), encrypted: b[2] != 0 }, 3))
        }
    }

    pub fn encode(&self, buf: &mut ByteBuf)
        ensures
            final(buf).data@ == old(buf).data@ + self.wire(),
            final(buf).pos == old(buf).pos,
    {
        buf.write_u16(self.packet_id);
        buf.write_bool(self.encrypted);
        assert(final(buf).data@ =~= old(buf).data@ + self.wire());
    }

    pub fn encode_fast(&self, buf: &mut FastBuf)
        requires
            old(buf).wf(),
            old(buf).pos + PacketHeader::SIZE <= old(buf).capacity(),
        ensures
            final(buf).wf(),
            final(buf).data@ == overwrite(old(buf).data@, old(buf).pos as int, self.wire()),
            final(buf).pos == old(buf).pos + PacketHeader::SIZE,
    {
        let mut tmp = ByteBuf::new();
        self.encode(&mut tmp);
        assert(tmp.data@ =~= self.wire());
        buf.write_bytes(tmp.data.as_slice());
    }

    pub fn decode(buf: &mut ByteBuf) -> (r: Result<PacketHeader, DecodeError>)
        requires
            old(buf).wf(),
        ensures
            decoded(*old(buf), *final(buf), r, PacketHeader::parse(old(buf).rest())),
    {
        let ghost b = buf.rest();
        if buf.remaining() < 3 {
            return Err(DecodeError::UnexpectedEof);
        }
        let packet_id = match buf.read_u16() {
            Ok(v) => v,
            Err(e) => return Err(e),
        };
        assert(buf.rest() =~= b.skip(2));
        let encrypted = match buf.read_bool() {
            Ok(v) => v,
            Err(e) => return Err(e),
        };
        Ok(PacketHeader { packet_id, encrypted })
    }
}

/// Decoding the encoding of a value, whatever bytes follow it, gives the value back and takes exactly its width.
pub proof fn lemma_header_round_trip(h: PacketHeader, tail: Seq<u8>)
    ensures
        h.wire().len() == PacketHeader::SIZE,
        parsed_as(PacketHeader::parse(h.wire() + tail), h, 3),
{
    lemma_u16_round_trip(h.packet_id);
    assert((h.wire() + tail).take(2) =~= be_u16(h.packet_id));
}

/// A message type: its id and whether it travels over the reliable, ordered
/// transport (TCP) or the unreliable one.
pub trait Packet {
    spec fn spec_packet_id() -> u16;

    spec fn spec_tcp() -> bool;

    fn packet_id() -> (r: u16)
        ensures
            r == Self::spec_packet_id(),
    ;

    fn uses_tcp() -> (r: bool)
        ensures
            r == Self::spec_tcp(),
    ;
}

/// The unencrypted header for packet type `P`.
pub fn header_for<P: Packet>() -> (r: PacketHeader)
    ensures
        r == (PacketHeader { packet_id: P::spec_packet_id(), encrypted: false }),
{
    PacketHeader { packet_id: P::packet_id(), encrypted: false }
}

/// List of every connected player; its body is written in place by the handler.
pub struct GlobalPlayerListPacket;

/// Sent to the player who created a room.
#[derive(Clone, Copy)]
pub struct RoomCreatedPacket {
    pub info: RoomInfo,
}

/// Sent when joining a room succeeded; it has no body.
pub struct RoomJoinedPacket;

/// Sent when joining a room failed, with the reason.
pub struct RoomJoinFailedPacket<'a> {
    pub message: &'a str,
}

/// Members of a room; its body is written in place by the handler.
pub struct RoomPlayerListPacket;

/// Levels with players on them; its body is written in place by the handler.
pub struct LevelListPacket;

/// Player counts of levels; its body is written in place by the handler.
pub struct LevelPlayerCountPacket;

/// The current description of a room.
#[derive(Clone, Copy)]
pub struct RoomInfoPacket {
    pub info: RoomInfo,
}

/// What a room invitation shows about the inviting player.
#[derive(Debug, Clone, Copy, PartialEq, Eq, Structural)]
pub struct PlayerRoomPreviewAccountData {
    pub account_id: i32,
    pub user_id: i32,
    pub level_id: i32,
}

impl PlayerRoomPreviewAccountData {
    pub const ENCODED_SIZE: usize = 12;

    pub open spec fn wire(&self) -> Seq<u8> {
        i32_wire(self.account_id) + i32_wire(self.user_id) + i32_wire(self.level_id)
    }

    pub fn encode(&self, buf: &mut ByteBuf)
        ensures
            final(buf).data@ == old(buf).data@ + self.wire(),
            final(buf).pos == old(buf).pos,
    {
        buf.write_i32(self.account_id);
        buf.write_i32(self.user_id);
        buf.write_i32(self.level_id);
        assert(final(buf).data@ =~= old(buf).data@ + self.wire());
    }
}

/// An invitation to a room.
#[derive(Clone, Copy)]
pub struct RoomInvitePacket {
    pub player_data: PlayerRoomPreviewAccountData,
    pub room_id: u32,
    pub room_token: u32,
}

impl Packet for GlobalPlayerListPacket {
    open spec fn spec_packet_id() -> u16 {
        21000
    }

    open spec fn spec_tcp() -> bool {
        true
    }

    fn packet_id() -> (r: u16) {
        21000
    }

    fn uses_tcp() -> (r: bool) {
        true
    }
}

impl Packet for RoomCreatedPacket {
    open spec fn spec_packet_id() -> u16 {
        21001
    }

    open spec fn spec_tcp() -> bool {
        false
    }

    fn packet_id() -> (r: u16) {
        21001
    }

    fn uses_tcp() -> (r: bool) {
        false
    }
}

impl Packet for RoomJoinedPacket {
    open spec fn spec_packet_id() -> u16 {
        21002
    }

    open spec fn spec_tcp() -> bool {
        false
    }

    fn packet_id() -> (r: u16) {
        21002
    }

    fn uses_tcp() -> (r: bool) {
        false
    }
}

impl<'a> Packet for RoomJoinFailedPacket<'a> {
    open spec fn spec_packet_id() -> u16 {
        21003
    }

    open spec fn spec_tcp() -> bool {
        false
    }

    fn packet_id() -> (r: u16) {
        21003
    }

    fn uses_tcp() -> (r: bool) {
        false
    }
}

impl Packet for RoomPlayerListPacket {
    open spec fn spec_packet_id() -> u16 {
        21004
    }

    open spec fn spec_tcp() -> bool {
        true
    }

    fn packet_id() -> (r: u16) {
        21004
    }

    fn uses_tcp() -> (r: bool) {
        true
    }
}

impl Packet for LevelListPacket {
    open spec fn spec_packet_id() -> u16 {
        21005
    }

    open spec fn spec_tcp() -> bool {
        true
    }

    fn packet_id() -> (r: u16) {
        21005
    }

    fn uses_tcp() -> (r: bool) {
        true
    }
}

impl Packet for LevelPlayerCountPacket {
    open spec fn spec_packet_id() -> u16 {
        21006
    }

    open spec fn spec_tcp() -> bool {
        false
    }

    fn packet_id() -> (r: u16) {
        21006
    }

    fn uses_tcp() -> (r: bool) {
        false
    }
}

impl Packet for RoomInfoPacket {
    open spec fn spec_packet_id() -> u16 {
        21007
    }

    open spec fn spec_tcp() -> bool {
        false
    }

    fn packet_id() -> (r: u16) {
        21007
    }

    fn uses_tcp() -> (r: bool) {
        false
    }
}

impl Packet for RoomInvitePacket {
    open spec fn spec_packet_id() -> u16 {
        21008
    }

    open spec fn spec_tcp() -> bool {
        false
    }

    fn packet_id() -> (r: u16) {
        21008
    }

    fn uses_tcp() -> (r: bool) {
        false
    }
}

impl RoomCreatedPacket {
    pub const ENCODED_SIZE: usize = 21;

    pub fn encode(&self, buf: &mut ByteBuf)
        ensures
            final(buf).data@ == old(buf).data@ + self.info.wire(),
            final(buf).pos == old(buf).pos,
    {
        self.info.encode(buf);
    }
}

impl RoomJoinedPacket {
    pub const ENCODED_SIZE: usize = 0;
}

impl<'a> RoomJoinFailedPacket<'a> {
    /// Width of the encoded body: the message's byte count, then its bytes.
    pub fn encoded_size(&self) -> (r: usize)
        requires
            4 + encode_utf8(self.message@).len() <= usize::MAX,
        ensures
            r == 4 + encode_utf8(self.message@).len(),
    {
        4 + self.message.len()
    }

    pub fn encode(&self, buf: &mut ByteBuf)
        requires
            encode_utf8(self.message@).len() <= u32::MAX,
        ensures
            final(buf).data@ == old(buf).data@ + string_wire(self.message@),
            final(buf).pos == old(buf).pos,
    {
        buf.write_string(self.message);
    }
}

impl RoomInfoPacket {
    pub const ENCODED_SIZE: usize = 21;

    pub fn encode(&self, buf: &mut ByteBuf)
        ensures
            final(buf).data@ == old(buf).data@ + self.info.wire(),
            final(buf).pos == old(buf).pos,
    {
        self.info.encode(buf);
    }
}

impl RoomInvitePacket {
    pub const ENCODED_SIZE: usize = 20;

    pub open spec fn wire(&self) -> Seq<u8> {
        self.player_data.wire() + be_u32(self.room_id) + be_u32(self.room_token)
    }

    pub fn encode(&self, buf: &mut ByteBuf)
        ensures
            final(buf).data@ == old(buf).data@ + self.wire(),
            final(buf).pos == old(buf).pos,
    {
        self.player_data.encode(buf);
        buf.write_u32(self.room_id);
        buf.write_u32(self.room_token);
        assert(final(buf).data@ =~= old(buf).data@ + self.wire());
    }
}

/// Movement snapshots of the other players on the sender's level; its body is
/// written in place: a count, then that many records.
pub struct LevelDataPacket;

/// Progress snapshots of the other players on the sender's level; its body is
/// written in place like that of `LevelDataPacket`.
pub struct PlayerMetadataPacket;

impl Packet for LevelDataPacket {
    open spec fn spec_packet_id() -> u16 {
        22001
    }

    open spec fn spec_tcp() -> bool {
        false
    }

    fn packet_id() -> (r: u16) {
        22001
    }

    fn uses_tcp() -> (r: bool) {
        false
    }
}

impl Packet for PlayerMetadataPacket {
    open spec fn spec_packet_id() -> u16 {
        22002
    }

    open spec fn spec_tcp() -> bool {
        false
    }

    fn packet_id() -> (r: u16) {
        22002
    }

    fn uses_tcp() -> (r: bool) {
        false
    }
}

} // verus!
