use globed_game::broadcast::{
    broadcast_targets, begin_level_packet, finish_level_packet, handle_disconnect, handle_level_join,
    handle_level_leave, handle_login, handle_player_data, handle_sync_player_metadata,
    recipient_budget, write_level_packet, Connection, HandlingError,
};
use globed_game::packet::{
    header_for, GlobalPlayerListPacket, LevelDataPacket, Packet, PacketHeader, RoomCreatedPacket,
    RoomInfoPacket, RoomInvitePacket,
};
use globed_game::codec::{ByteBuf, DecodeError};
use globed_game::registry::{
    AssociatedPlayerData, AssociatedPlayerMetadata, PlayerData, PlayerManager, PlayerMetadata,
    RecordKind,
};

const A: i32 = 101;
const B: i32 = 102;
const C: i32 = 103;

fn record(account: i32, d: PlayerData) -> Vec<u8> {
    let mut v = Vec::new();
    for x in [account, d.x, d.y, d.rotation] {
        v.extend_from_slice(&x.to_be_bytes());
    }
    v
}

fn data_of(account: i32) -> PlayerData {
    PlayerData { x: account * 10, y: -account, rotation: 7 }
}

fn level_with(level: i32, accounts: &[i32]) -> PlayerManager {
    let mut pm = PlayerManager::new();
    for &a in accounts {
        pm.create_player(a);
        pm.add_to_level(level, a);
        pm.set_player_data(a, &data_of(a));
    }
    pm
}

#[test]
fn add_then_remove_restores_count() {
    let mut pm = level_with(5, &[A, B]);
    assert_eq!(pm.get_player_count_on_level(5), Some(2));
    pm.add_to_level(5, C);
    assert_eq!(pm.get_player_count_on_level(5), Some(3));
    pm.remove_from_level(5, C);
    assert_eq!(pm.get_player_count_on_level(5), Some(2));
    assert_eq!(pm.level_members(5), vec![A, B]);
}

#[test]
fn sole_member_leaving_untracks_level() {
    let mut pm = PlayerManager::new();
    assert_eq!(pm.get_player_count_on_level(9), None);
    pm.add_to_level(9, A);
    assert_eq!(pm.get_player_count_on_level(9), Some(1));
    pm.remove_from_level(9, A);
    assert_eq!(pm.get_player_count_on_level(9), None);
}

#[test]
fn membership_edits_are_idempotent() {
    let mut pm = PlayerManager::new();
    pm.add_to_level(4, A);
    pm.add_to_level(4, A);
    assert_eq!(pm.get_player_count_on_level(4), Some(1));
    pm.remove_from_level(4, B);
    assert_eq!(pm.get_player_count_on_level(4), Some(1));
    pm.remove_from_level(4, A);
    pm.remove_from_level(4, A);
    assert_eq!(pm.get_player_count_on_level(4), None);
}

#[test]
fn broadcast_excluding_self_with_budget_two() {
    let pm = level_with(5, &[A, B, C]);
    assert_eq!(recipient_budget(&pm, 5), 2);
    let h = header_for::<LevelDataPacket>();
    let out = write_level_packet(&pm, h, 5, B, RecordKind::Data, 2);
    let mut want = vec![0x55, 0xF1, 0, 0, 0, 0, 2];
    want.extend(record(A, data_of(A)));
    want.extend(record(C, data_of(C)));
    assert_eq!(out, want);
}

#[test]
fn budget_holds_when_level_grew() {
    let pm = level_with(5, &[A, B, C]);
    let h = header_for::<LevelDataPacket>();
    let out = write_level_packet(&pm, h, 5, B, RecordKind::Data, 1);
    let mut want = vec![0x55, 0xF1, 0, 0, 0, 0, 1];
    want.extend(record(A, data_of(A)));
    assert_eq!(out, want);
}

#[test]
fn count_is_rewritten_when_level_shrank() {
    let mut pm = level_with(5, &[A, B, C]);
    let budget = recipient_budget(&pm, 5);
    let mut buf = begin_level_packet(header_for::<LevelDataPacket>(), RecordKind::Data, budget);
    pm.remove_from_level(5, C);
    let written = pm.stream_level_records(5, B, RecordKind::Data, budget, &mut buf);
    assert_eq!(written, 1);
    let out = finish_level_packet(buf, RecordKind::Data, budget, written);
    let mut want = vec![0x55, 0xF1, 0, 0, 0, 0, 1];
    want.extend(record(A, data_of(A)));
    assert_eq!(out, want);
}

#[test]
fn chat_reaches_only_the_same_level() {
    let mut pm = level_with(7, &[A, B, C]);
    pm.create_player(200);
    pm.add_to_level(8, 200);
    let targets = broadcast_targets(&pm, 7, B);
    assert_eq!(targets, vec![A, C]);
    assert!(!targets.contains(&200));
    assert!(!targets.contains(&B));
}

#[test]
fn sole_member_update_sends_nothing() {
    let mut pm = level_with(3, &[A]);
    let conn = Connection { account_id: A, level_id: 3 };
    let r = handle_player_data(&mut pm, &conn, &PlayerData { x: 1, y: 2, rotation: 3 });
    assert_eq!(r, Ok(None));
}

#[test]
fn player_data_reaches_the_others() {
    let mut pm = level_with(3, &[A, B]);
    let conn = Connection { account_id: B, level_id: 3 };
    let r = handle_player_data(&mut pm, &conn, &data_of(B)).unwrap().unwrap();
    let mut want = vec![0x55, 0xF1, 0, 0, 0, 0, 1];
    want.extend(record(A, data_of(A)));
    assert_eq!(r, want);
}

#[test]
fn metadata_reaches_the_others() {
    let mut pm = level_with(3, &[A, B]);
    let conn = Connection { account_id: A, level_id: 3 };
    pm.set_player_metadata(B, &PlayerMetadata { percentage: 0x0102, attempts: 5 });
    let r = handle_sync_player_metadata(&mut pm, &conn, &PlayerMetadata { percentage: 1, attempts: 1 })
        .unwrap()
        .unwrap();
    let mut want = vec![0x55, 0xF2, 0, 0, 0, 0, 1];
    want.extend(B.to_be_bytes());
    want.extend([1, 2, 0, 0, 0, 5]);
    assert_eq!(r, want);
}

#[test]
fn unauthenticated_requests_are_refused() {
    let mut pm = level_with(3, &[A, B]);
    let conn = Connection { account_id: 0, level_id: 3 };
    assert_eq!(handle_player_data(&mut pm, &conn, &data_of(A)), Err(HandlingError::AuthRequired));
    let mut c = Connection { account_id: 0, level_id: 0 };
    assert_eq!(handle_level_join(&mut pm, &mut c, 3), Err(HandlingError::AuthRequired));
    assert_eq!(handle_level_leave(&mut pm, &mut c), Err(HandlingError::AuthRequired));
    assert_eq!(pm.get_player_count_on_level(3), Some(2));
}

#[test]
fn player_data_off_level_is_refused() {
    let mut pm = level_with(3, &[A]);
    let conn = Connection { account_id: A, level_id: 0 };
    assert_eq!(
        handle_player_data(&mut pm, &conn, &data_of(A)),
        Err(HandlingError::UnexpectedPlayerData)
    );
    assert_eq!(
        handle_sync_player_metadata(&mut pm, &conn, &PlayerMetadata { percentage: 0, attempts: 0 }),
        Err(HandlingError::UnexpectedPlayerData)
    );
}

#[test]
fn join_moves_between_levels_and_disconnect_cleans_up() {
    let mut pm = PlayerManager::new();
    let mut conn = Connection { account_id: 0, level_id: 0 };
    handle_login(&mut pm, &mut conn, A);
    assert_eq!(conn, Connection { account_id: A, level_id: 0 });
    assert_eq!(handle_level_join(&mut pm, &mut conn, 1), Ok(()));
    assert_eq!(pm.level_members(1), vec![A]);
    assert_eq!(handle_level_join(&mut pm, &mut conn, 2), Ok(()));
    assert_eq!(pm.get_player_count_on_level(1), None);
    assert_eq!(pm.level_members(2), vec![A]);
    assert_eq!(handle_level_leave(&mut pm, &mut conn), Ok(()));
    assert_eq!(pm.get_player_count_on_level(2), None);
    handle_level_join(&mut pm, &mut conn, 2).unwrap();
    handle_disconnect(&mut pm, &mut conn);
    assert_eq!(pm.get_player_count_on_level(2), None);
    assert_eq!(conn, Connection { account_id: 0, level_id: 0 });
}

#[test]
fn packet_ids_and_transports() {
    assert_eq!(GlobalPlayerListPacket::packet_id(), 21000);
    assert!(GlobalPlayerListPacket::uses_tcp());
    assert_eq!(RoomCreatedPacket::packet_id(), 21001);
    assert!(!RoomCreatedPacket::uses_tcp());
    assert_eq!(RoomInfoPacket::packet_id(), 21007);
    assert_eq!(RoomInvitePacket::packet_id(), 21008);
    assert_eq!(
        header_for::<RoomInfoPacket>(),
        PacketHeader { packet_id: 21007, encrypted: false }
    );
}

#[test]
fn player_records_round_trip() {
    let d = AssociatedPlayerData { account_id: -5, data: PlayerData { x: 1, y: -2, rotation: 300 } };
    let m = AssociatedPlayerMetadata { account_id: 9, data: PlayerMetadata { percentage: 99, attempts: -1 } };
    let mut b = ByteBuf::new();
    d.encode(&mut b);
    m.encode(&mut b);
    assert_eq!(b.data.len(), AssociatedPlayerData::ENCODED_SIZE + AssociatedPlayerMetadata::ENCODED_SIZE);
    assert_eq!(&b.data[16..], &[0, 0, 0, 9, 0, 99, 0xFF, 0xFF, 0xFF, 0xFF]);
    assert_eq!(AssociatedPlayerData::decode(&mut b), Ok(d));
    assert_eq!(AssociatedPlayerMetadata::decode(&mut b), Ok(m));
    assert_eq!(AssociatedPlayerData::decode(&mut b), Err(DecodeError::UnexpectedEof));
}

#[test]
fn explicit_list_walk_skips_unknown_and_excluded() {
    let pm = level_with(5, &[A, B, C]);
    let mut buf = globed_game::codec::FastBuf::with_capacity(32);
    let written = pm.stream_players(&vec![C, 999, B, A], B, RecordKind::Data, 2, &mut buf);
    assert_eq!(written, 2);
    let mut want = record(C, data_of(C));
    want.extend(record(A, data_of(A)));
    assert_eq!(buf.into_vec(), want);
}
