use crypto_box::PublicKey;
use globed_game::codec::{ByteBuf, DecodeError, FastBuf, RemainderBytes};
use globed_game::packet::{PacketHeader, RoomJoinFailedPacket, RoomInvitePacket, PlayerRoomPreviewAccountData};
use globed_game::room::{decode_optional_room, encode_optional_room, RoomInfo, RoomSettings, OPTIONAL_ROOM_SIZE};

fn sample_room() -> RoomInfo {
    RoomInfo {
        id: 0x0102_0304,
        owner: -2,
        token: 77,
        settings: RoomSettings { flags: 0b10, reserved: 0 },
    }
}

#[test]
fn integers_are_big_endian() {
    let mut b = ByteBuf::new();
    b.write_u16(0x1234);
    b.write_u32(0xA1B2_C3D4);
    b.write_i32(-1);
    b.write_u64(0x0102_0304_0506_0708);
    assert_eq!(
        b.data,
        vec![0x12, 0x34, 0xA1, 0xB2, 0xC3, 0xD4, 0xFF, 0xFF, 0xFF, 0xFF, 1, 2, 3, 4, 5, 6, 7, 8]
    );
    assert_eq!(b.read_u16(), Ok(0x1234));
    assert_eq!(b.read_u32(), Ok(0xA1B2_C3D4));
    assert_eq!(b.read_i32(), Ok(-1));
    assert_eq!(b.read_u64(), Ok(0x0102_0304_0506_0708));
    assert_eq!(b.read_u8(), Err(DecodeError::UnexpectedEof));
}

#[test]
fn bools_and_bytes() {
    let mut b = ByteBuf::new();
    b.write_bool(true);
    b.write_bool(false);
    b.write_u8(9);
    assert_eq!(b.data, vec![1, 0, 9]);
    assert_eq!(b.read_bool(), Ok(true));
    assert_eq!(b.read_bool(), Ok(false));
    assert_eq!(b.read_u8(), Ok(9));
}

#[test]
fn truncated_integer_is_eof() {
    let mut b = ByteBuf::from_vec(vec![1, 2, 3]);
    assert_eq!(b.read_u32(), Err(DecodeError::UnexpectedEof));
    assert_eq!(b.read_u64(), Err(DecodeError::UnexpectedEof));
    assert_eq!(b.read_u16(), Ok(0x0102));
}

#[test]
fn string_round_trip() {
    let mut b = ByteBuf::new();
    b.write_string("héllo");
    assert_eq!(&b.data[..4], &[0, 0, 0, 6]);
    assert_eq!(b.data.len(), 10);
    assert_eq!(b.read_string(), Ok("héllo".to_string()));
    assert_eq!(b.pos, 10);
}

#[test]
fn string_with_bad_utf8_is_invalid() {
    let mut b = ByteBuf::from_vec(vec![0, 0, 0, 2, 0xC3, 0x28]);
    assert_eq!(b.read_string(), Err(DecodeError::InvalidData));
}

#[test]
fn string_cut_short_is_eof() {
    let mut b = ByteBuf::from_vec(vec![0, 0, 0, 5, b'a', b'b']);
    assert_eq!(b.read_string(), Err(DecodeError::UnexpectedEof));
    let mut c = ByteBuf::from_vec(vec![0, 0]);
    assert_eq!(c.read_string(), Err(DecodeError::UnexpectedEof));
}

#[test]
fn list_round_trip() {
    let v = vec![3, -4, 0x7fff_ffff];
    let mut b = ByteBuf::new();
    b.write_i32_list(&v);
    assert_eq!(b.data.len(), 4 + 12);
    assert_eq!(&b.data[..8], &[0, 0, 0, 3, 0, 0, 0, 3]);
    assert_eq!(b.read_i32_list(), Ok(v));
}

#[test]
fn empty_list_round_trip() {
    let mut b = ByteBuf::new();
    b.write_i32_list(&vec![]);
    assert_eq!(b.data, vec![0, 0, 0, 0]);
    assert_eq!(b.read_i32_list(), Ok(vec![]));
}

#[test]
fn list_with_too_few_elements_is_eof() {
    let mut b = ByteBuf::from_vec(vec![0, 0, 0, 2, 0, 0, 0, 1]);
    assert_eq!(b.read_i32_list(), Err(DecodeError::UnexpectedEof));
}

#[test]
fn remainder_takes_everything_left() {
    let mut b = ByteBuf::from_vec(vec![1, 2, 3, 4, 5]);
    assert_eq!(b.read_u16(), Ok(0x0102));
    let r = RemainderBytes::decode(&mut b).ok().unwrap();
    assert_eq!(r.as_slice(), &[3, 4, 5]);
    assert_eq!(b.remaining(), 0);
    let mut out = ByteBuf::new();
    r.encode(&mut out);
    assert_eq!(out.data, vec![3, 4, 5]);
    let from: RemainderBytes = vec![8u8, 9].into();
    assert_eq!(from.as_slice(), &[8, 9]);
}

#[test]
fn key_round_trip() {
    let mut raw = [0u8; 32];
    for (i, x) in raw.iter_mut().enumerate() {
        *x = i as u8 + 1;
    }
    let key = PublicKey::from_bytes(raw);
    let mut b = ByteBuf::new();
    b.write_key(&key);
    assert_eq!(b.data, raw.to_vec());
    let back = b.read_key().ok().unwrap();
    assert_eq!(back.as_bytes(), &raw);
}

#[test]
fn short_key_is_eof() {
    let mut b = ByteBuf::from_vec(vec![1; 31]);
    assert!(matches!(b.read_key(), Err(DecodeError::UnexpectedEof)));
}

#[test]
fn room_settings_flags() {
    let s = RoomSettings { flags: 0b01, reserved: 0 };
    assert!(s.get_invite_only());
    assert!(!s.get_public_invites());
    let t = RoomSettings { flags: 0b10, reserved: 0 };
    assert!(!t.get_invite_only());
    assert!(t.get_public_invites());
    let none = RoomSettings { flags: 0, reserved: 0 };
    assert!(!none.get_invite_only() && !none.get_public_invites());
}

#[test]
fn room_info_round_trip() {
    let info = sample_room();
    let mut b = ByteBuf::new();
    info.encode(&mut b);
    assert_eq!(b.data.len(), RoomInfo::ENCODED_SIZE);
    assert_eq!(&b.data[..12], &[1, 2, 3, 4, 0xFF, 0xFF, 0xFF, 0xFE, 0, 0, 0, 77]);
    assert_eq!(b.data[12], 0b10);
    assert_eq!(RoomInfo::decode(&mut b), Ok(info));
    assert_eq!(b.remaining(), 0);
}

#[test]
fn room_info_cut_short_is_eof() {
    let mut b = ByteBuf::from_vec(vec![0; 20]);
    assert_eq!(RoomInfo::decode(&mut b), Err(DecodeError::UnexpectedEof));
}

#[test]
fn room_settings_round_trip() {
    let s = RoomSettings { flags: 3, reserved: 5 };
    let mut b = ByteBuf::new();
    s.encode(&mut b);
    assert_eq!(b.data, vec![3, 0, 0, 0, 0, 0, 0, 0, 5]);
    assert_eq!(RoomSettings::decode(&mut b), Ok(s));
}

#[test]
fn optional_room_has_one_width() {
    let mut some = ByteBuf::new();
    encode_optional_room(&Some(sample_room()), &mut some);
    let mut none = ByteBuf::new();
    encode_optional_room(&None, &mut none);
    assert_eq!(some.data.len(), OPTIONAL_ROOM_SIZE);
    assert_eq!(none.data.len(), OPTIONAL_ROOM_SIZE);
    assert_eq!(none.data, vec![0; 22]);
    assert_eq!(decode_optional_room(&mut some), Ok(Some(sample_room())));
    assert_eq!(decode_optional_room(&mut none), Ok(None));
    assert_eq!(none.remaining(), 0);
}

#[test]
fn header_round_trip() {
    let h = PacketHeader { packet_id: 21001, encrypted: true };
    let mut b = ByteBuf::new();
    h.encode(&mut b);
    assert_eq!(b.data, vec![0x52, 0x09, 1]);
    assert_eq!(b.data.len(), PacketHeader::SIZE);
    assert_eq!(PacketHeader::decode(&mut b), Ok(h));
}

#[test]
fn fast_buffer_writes_in_place() {
    let mut f = FastBuf::with_capacity(5);
    f.write_bytes(&[1, 2, 3]);
    f.set_pos(1);
    f.write_bytes(&[9]);
    assert_eq!(f.pos, 2);
    assert_eq!(f.into_vec(), vec![1, 9, 3, 0, 0]);
}

#[test]
fn fast_encoding_matches_growable() {
    let info = sample_room();
    let mut f = FastBuf::with_capacity(RoomInfo::ENCODED_SIZE);
    info.encode_fast(&mut f);
    let mut b = ByteBuf::new();
    info.encode(&mut b);
    assert_eq!(f.into_vec(), b.data);
}

#[test]
fn room_join_failed_body() {
    let p = RoomJoinFailedPacket { message: "full" };
    assert_eq!(p.encoded_size(), 8);
    let mut b = ByteBuf::new();
    p.encode(&mut b);
    assert_eq!(b.data, vec![0, 0, 0, 4, b'f', b'u', b'l', b'l']);
}

#[test]
fn room_invite_body() {
    let p = RoomInvitePacket {
        player_data: PlayerRoomPreviewAccountData { account_id: 1, user_id: 2, level_id: 3 },
        room_id: 4,
        room_token: 5,
    };
    let mut b = ByteBuf::new();
    p.encode(&mut b);
    assert_eq!(b.data.len(), RoomInvitePacket::ENCODED_SIZE);
    assert_eq!(b.data, vec![0, 0, 0, 1, 0, 0, 0, 2, 0, 0, 0, 3, 0, 0, 0, 4, 0, 0, 0, 5]);
}
