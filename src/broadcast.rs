//! Per-request decisions of the game handlers, and the snapshot-then-fixup
//! writing of level broadcasts. Locking and sending belong to the caller: each
//! function here is one critical section or one step between two.
use crate::codec::{lemma_overwrite_concat, FastBuf};
use crate::packet::{
    header_for, lemma_header_round_trip, LevelDataPacket, Packet, PacketHeader, PlayerMetadataPacket,
};
use crate::registry::{
    count_of, lemma_records_len, records_wire, with, with_data, with_meta, without,
    PlayerData, PlayerEntry, PlayerManager, PlayerMetadata, RecordKind,
};
use crate::wire::{be_u32, lemma_u32_round_trip, u32_bytes, u32_from_be};
use vstd::prelude::*;

verus! {

/// Why a request was refused. The connection stays open either way.
#[derive(Debug, Clone, Copy, PartialEq, Eq, Structural)]
pub enum HandlingError {
    /// The connection has not logged in.
    AuthRequired,
    /// Snapshot sent while not on any level.
    UnexpectedPlayerData,
}

/// What one connection knows of itself. Zero means "none" for both fields.
#[derive(Debug, Clone, Copy, PartialEq, Eq, Structural)]
pub struct Connection {
    pub account_id: i32,
    pub level_id: i32,
}

/// Bytes of a header and the count that follows it.
pub const COUNT_END: usize = 7;

/// How many others share a level with a member of it: the roster's size less
/// one (an untracked level counts as holding just the requester).
pub open spec fn others_on(roster: Seq<i32>) -> nat {
    match count_of(roster) {
        Some(n) => (n - 1) as nat,
        None => 0,
    }
}

/// A level broadcast: the header, the record count, then the records.
pub open spec fn level_packet_wire(h: PacketHeader, kind: RecordKind, picked: Seq<PlayerEntry>) -> Seq<u8> {
    h.wire() + be_u32(picked.len() as u32) + records_wire(kind, picked)
}

/// First step, under the lock: how many records to make room for.
pub fn recipient_budget(pm: &PlayerManager, level: i32) -> (r: usize)
    requires
        pm.wf(),
    ensures
        r == others_on(pm.roster(level)),
{
    match pm.get_player_count_on_level(level) {
        Some(n) => n - 1,
        None => 0,
    }
}

/// Second step, outside the lock: a buffer of exactly the size `budget` records
/// need, with the header and a provisional count of `budget` already in it.
pub fn begin_level_packet(h: PacketHeader, kind: RecordKind, budget: usize) -> (buf: FastBuf)
    requires
        COUNT_END + kind.width() * budget <= usize::MAX,
        budget <= u32::MAX,
    ensures
        buf.wf(),
        buf.capacity() == COUNT_END + kind.width() * budget,
        buf.pos == COUNT_END,
        buf.written() == h.wire() + be_u32(budget as u32),
{
    let w = kind.encoded_size();
    let mut buf = FastBuf::with_capacity(COUNT_END + w * budget);
    h.encode_fast(&mut buf);
    let count = u32_bytes(budget as u32);
    buf.write_bytes(count.as_slice());
    proof {
        lemma_overwrite_concat(
            Seq::new((COUNT_END + w * budget) as nat, |i: int| 0u8),
            0,
            h.wire(),
            be_u32(budget as u32),
        );
        assert(buf.written() =~= h.wire() + be_u32(budget as u32));
    }
    buf
}

/// Last step, outside the lock: if fewer records were written than budgeted,
/// the count right after the header is rewritten to the true number. Returns
/// the bytes up to the last record.
pub fn finish_level_packet(buf: FastBuf, kind: RecordKind, budget: usize, written: usize) -> (r: Vec<u8>)
    requires
        buf.wf(),
        written <= budget,
        budget <= u32::MAX,
        buf.pos == COUNT_END + kind.width() * written,
        buf.capacity() == COUNT_END + kind.width() * budget,
        buf.data@.subrange(3, COUNT_END as int) == be_u32(budget as u32),
    ensures
        r@ == buf.data@.take(3) + be_u32(written as u32) + buf.data@.subrange(
            COUNT_END as int,
            buf.pos as int,
        ),
{
    let mut buf = buf;
    let ghost d = buf.data@;
    let end = buf.pos;
    if written != budget {
        buf.set_pos(PacketHeader::SIZE);
        let count = u32_bytes(written as u32);
        buf.write_bytes(count.as_slice());
    }
    let data = buf.into_vec();
    let mut out: Vec<u8> = Vec::with_capacity(end);
    let mut i: usize = 0;
    while i < end
        invariant
            i <= end,
            end <= data@.len(),
            out@ == data@.take(i as int),
        decreases end - i,
    {
        out.push(data[i]);
        i += 1;
        assert(out@ =~= data@.take(i as int));
    }
    assert(out@ =~= d.take(3) + be_u32(written as u32) + d.subrange(COUNT_END as int, end as int));
    out
}

/// The whole broadcast of at most `budget` records, streamed from the registry
/// as it is now. The registry may hold more or fewer players than when the
/// budget was taken: the output never holds more than `budget` records, and its
/// count always says how many it holds.
pub fn write_level_packet(
    pm: &PlayerManager,
    h: PacketHeader,
    level: i32,
    exclude: i32,
    kind: RecordKind,
    budget: usize,
) -> (r: Vec<u8>)
    requires
        pm.wf(),
        COUNT_END + kind.width() * budget <= usize::MAX,
        budget <= u32::MAX,
    ensures
        r@ == level_packet_wire(h, kind, pm.pick(pm.roster(level), exclude, budget as nat)),
        pm.pick(pm.roster(level), exclude, budget as nat).len() <= budget,
{
    let mut buf = begin_level_packet(h, kind, budget);
    let ghost d1 = buf.data@;
    let written = pm.stream_level_records(level, exclude, kind, budget, &mut buf);
    proof {
        let picked = pm.pick(pm.roster(level), exclude, budget as nat);
        lemma_records_len(kind, picked);
        lemma_header_round_trip(h, Seq::empty());
        assert(buf.data@.take(3) =~= h.wire());
        assert(buf.data@.subrange(3, COUNT_END as int) =~= be_u32(budget as u32));
        assert(buf.data@.subrange(COUNT_END as int, buf.pos as int) =~= records_wire(kind, picked));
    }
    finish_level_packet(buf, kind, budget, written)
}

/// The most records one broadcast can be sized for on this machine.
pub open spec fn budget_cap(width: nat) -> nat {
    let by_size = ((usize::MAX - COUNT_END) / (width as int)) as nat;
    if by_size > u32::MAX {
        u32::MAX as nat
    } else {
        by_size
    }
}

/// The budget for `others` recipients, capped by what fits in memory and in the
/// count field.
pub open spec fn budget_for(others: nat, width: nat) -> nat {
    if others > budget_cap(width) {
        budget_cap(width)
    } else {
        others
    }
}

/// The broadcast a snapshot update from `account` on `level` produces: none when
/// nobody else is there.
pub open spec fn level_broadcast_spec(pm: PlayerManager, h: PacketHeader, level: i32, account: i32, kind: RecordKind) -> Option<Seq<u8>> {
    let budget = budget_for(others_on(pm.roster(level)), kind.width());
    if budget == 0 {
        None
    } else {
        Some(level_packet_wire(h, kind, pm.pick(pm.roster(level), account, budget)))
    }
}

/// The budget for `others` recipients of `kind` records, capped so that the
/// buffer size and the count both fit.
pub fn capped_budget(others: usize, kind: RecordKind) -> (r: usize)
    ensures
        r == budget_for(others as nat, kind.width()),
        COUNT_END + kind.width() * r <= usize::MAX,
        r <= u32::MAX,
{
    let w = kind.encoded_size();
    let by_size = (usize::MAX - COUNT_END) / w;
    let cap = if by_size > u32::MAX as usize {
        u32::MAX as usize
    } else {
        by_size
    };
    let budget = if others > cap {
        cap
    } else {
        others
    };
    proof {
        assert(w * budget <= w * by_size) by (nonlinear_arith)
            requires
                budget <= by_size,
        ;
        assert(w * by_size <= usize::MAX - COUNT_END) by (nonlinear_arith)
            requires
                by_size == (usize::MAX - COUNT_END) / (w as int),
                w > 0,
        ;
    }
    budget
}

/// Whether a snapshot update may go ahead: the connection must be logged in
/// and on a level.
pub fn check_snapshot_request(conn: &Connection) -> (r: Result<(), HandlingError>)
    ensures
        conn.account_id == 0 ==> r == Err::<(), HandlingError>(HandlingError::AuthRequired),
        conn.account_id != 0 && conn.level_id == 0 ==> r == Err::<(), HandlingError>(
            HandlingError::UnexpectedPlayerData,
        ),
        conn.account_id != 0 && conn.level_id != 0 ==> r is Ok,
{
    if conn.account_id == 0 {
        Err(HandlingError::AuthRequired)
    } else if conn.level_id == 0 {
        Err(HandlingError::UnexpectedPlayerData)
    } else {
        Ok(())
    }
}

fn level_broadcast(pm: &PlayerManager, h: PacketHeader, level: i32, account: i32, kind: RecordKind) -> (r: Option<Vec<u8>>)
    requires
        pm.wf(),
    ensures
        r is None <==> level_broadcast_spec(*pm, h, level, account, kind) is None,
        r is Some ==> level_broadcast_spec(*pm, h, level, account, kind) == Some(r->Some_0@),
{
    let budget = capped_budget(recipient_budget(pm, level), kind);
    if budget == 0 {
        return None;
    }
    Some(write_level_packet(pm, h, level, account, kind, budget))
}

/// A player-data update: stores the sender's movement snapshot, then builds the
/// broadcast of the other players' snapshots on the sender's level, if anyone
/// else is there.
pub fn handle_player_data(pm: &mut PlayerManager, conn: &Connection, data: &PlayerData) -> (r: Result<Option<Vec<u8>>, HandlingError>)
    requires
        old(pm).wf(),
    ensures
        final(pm).wf(),
        conn.account_id == 0 ==> r == Err::<Option<Vec<u8>>, HandlingError>(HandlingError::AuthRequired) && *final(pm) == *old(pm),
        conn.account_id != 0 && conn.level_id == 0 ==> r == Err::<Option<Vec<u8>>, HandlingError>(HandlingError::UnexpectedPlayerData) && *final(pm) == *old(pm),
        conn.account_id != 0 && conn.level_id != 0 ==> {
            &&& final(pm).player(conn.account_id) == match old(pm).player(conn.account_id) {
                Some(e) => Some(with_data(e, *data)),
                None => None::<PlayerEntry>,
            }
            &&& forall|a: i32| a != conn.account_id ==> final(pm).player(a) == old(pm).player(a)
            &&& final(pm).levels == old(pm).levels
            &&& r is Ok
            &&& (r->Ok_0 is None <==> level_broadcast_spec(*final(pm), PacketHeader { packet_id: LevelDataPacket::spec_packet_id(), encrypted: false }, conn.level_id, conn.account_id, RecordKind::Data) is None)
            &&& (r->Ok_0 is Some ==> level_broadcast_spec(*final(pm), PacketHeader { packet_id: LevelDataPacket::spec_packet_id(), encrypted: false }, conn.level_id, conn.account_id, RecordKind::Data) == Some(r->Ok_0->Some_0@))
        },
{
    if let Err(e) = check_snapshot_request(conn) {
        return Err(e);
    }
    pm.set_player_data(conn.account_id, data);
    let h = header_for::<LevelDataPacket>();
    Ok(level_broadcast(pm, h, conn.level_id, conn.account_id, RecordKind::Data))
}

/// A metadata update: stores the sender's progress snapshot, then builds the
/// broadcast of the other players' snapshots on the sender's level, if anyone
/// else is there.
pub fn handle_sync_player_metadata(pm: &mut PlayerManager, conn: &Connection, meta: &PlayerMetadata) -> (r: Result<Option<Vec<u8>>, HandlingError>)
    requires
        old(pm).wf(),
    ensures
        final(pm).wf(),
        conn.account_id == 0 ==> r == Err::<Option<Vec<u8>>, HandlingError>(HandlingError::AuthRequired) && *final(pm) == *old(pm),
        conn.account_id != 0 && conn.level_id == 0 ==> r == Err::<Option<Vec<u8>>, HandlingError>(HandlingError::UnexpectedPlayerData) && *final(pm) == *old(pm),
        conn.account_id != 0 && conn.level_id != 0 ==> {
            &&& final(pm).player(conn.account_id) == match old(pm).player(conn.account_id) {
                Some(e) => Some(with_meta(e, *meta)),
                None => None::<PlayerEntry>,
            }
            &&& forall|a: i32| a != conn.account_id ==> final(pm).player(a) == old(pm).player(a)
            &&& final(pm).levels == old(pm).levels
            &&& r is Ok
            &&& (r->Ok_0 is None <==> level_broadcast_spec(*final(pm), PacketHeader { packet_id: PlayerMetadataPacket::spec_packet_id(), encrypted: false }, conn.level_id, conn.account_id, RecordKind::Metadata) is None)
            &&& (r->Ok_0 is Some ==> level_broadcast_spec(*final(pm), PacketHeader { packet_id: PlayerMetadataPacket::spec_packet_id(), encrypted: false }, conn.level_id, conn.account_id, RecordKind::Metadata) == Some(r->Ok_0->Some_0@))
        },
{
    if let Err(e) = check_snapshot_request(conn) {
        return Err(e);
    }
    pm.set_player_metadata(conn.account_id, meta);
    let h = header_for::<PlayerMetadataPacket>();
    Ok(level_broadcast(pm, h, conn.level_id, conn.account_id, RecordKind::Metadata))
}

/// The roster of `level` after `account` moves there from `from` (zero: from
/// no level).
pub open spec fn roster_after_join(pm: PlayerManager, from: i32, level: i32, account: i32) -> Seq<i32> {
    if from != 0 && from == level {
        with(without(pm.roster(level), account), account)
    } else {
        with(pm.roster(level), account)
    }
}

/// Moves the connection's player onto `level`, off the level it was on.
pub fn handle_level_join(pm: &mut PlayerManager, conn: &mut Connection, level: i32) -> (r: Result<(), HandlingError>)
    requires
        old(pm).wf(),
    ensures
        final(pm).wf(),
        old(conn).account_id == 0 ==> r == Err::<(), HandlingError>(HandlingError::AuthRequired) && *final(pm) == *old(pm) && *final(conn) == *old(conn),
        old(conn).account_id != 0 ==> {
            &&& r is Ok
            &&& *final(conn) == (Connection { level_id: level, ..*old(conn) })
            &&& final(pm).roster(level) == roster_after_join(*old(pm), old(conn).level_id, level, old(conn).account_id)
            &&& (old(conn).level_id != 0 && old(conn).level_id != level ==> final(pm).roster(old(conn).level_id) == without(old(pm).roster(old(conn).level_id), old(conn).account_id))
            &&& forall|l: i32| l != level && l != old(conn).level_id ==> final(pm).roster(l) == old(pm).roster(l)
            &&& final(pm).players == old(pm).players
        },
{
    if conn.account_id == 0 {
        return Err(HandlingError::AuthRequired);
    }
    let account = conn.account_id;
    let from = conn.level_id;
    conn.level_id = level;
    if from != 0 {
        pm.remove_from_level(from, account);
    }
    pm.add_to_level(level, account);
    Ok(())
}

/// Takes the connection's player off its level, if it is on one.
pub fn handle_level_leave(pm: &mut PlayerManager, conn: &mut Connection) -> (r: Result<(), HandlingError>)
    requires
        old(pm).wf(),
    ensures
        final(pm).wf(),
        old(conn).account_id == 0 ==> r == Err::<(), HandlingError>(HandlingError::AuthRequired) && *final(pm) == *old(pm) && *final(conn) == *old(conn),
        old(conn).account_id != 0 ==> {
            &&& r is Ok
            &&& *final(conn) == (Connection { level_id: 0, ..*old(conn) })
            &&& (old(conn).level_id != 0 ==> final(pm).roster(old(conn).level_id) == without(old(pm).roster(old(conn).level_id), old(conn).account_id))
            &&& forall|l: i32| l != old(conn).level_id ==> final(pm).roster(l) == old(pm).roster(l)
            &&& final(pm).players == old(pm).players
        },
{
    if conn.account_id == 0 {
        return Err(HandlingError::AuthRequired);
    }
    let from = conn.level_id;
    conn.level_id = 0;
    if from != 0 {
        pm.remove_from_level(from, conn.account_id);
    }
    Ok(())
}

/// `s` without `sender`, order kept.
pub open spec fn others_than(s: Seq<i32>, sender: i32) -> Seq<i32>
    decreases s.len(),
{
    if s.len() == 0 {
        Seq::empty()
    } else if s.last() == sender {
        others_than(s.drop_last(), sender)
    } else {
        others_than(s.drop_last(), sender).push(s.last())
    }
}

/// What a sequence holds after a push.
pub proof fn lemma_push_contains(q: Seq<i32>, x: i32, m: i32)
    ensures
        q.push(x).contains(m) <==> q.contains(m) || m == x,
{
    if q.push(x).contains(m) && m != x {
        let k = choose|k: int| 0 <= k < q.push(x).len() && q.push(x)[k] == m;
        assert(q[k] == m);
    }
    if q.contains(m) {
        let k = choose|k: int| 0 <= k < q.len() && q[k] == m;
        assert(q.push(x)[k] == m);
    }
    if m == x {
        assert(q.push(x)[q.len() as int] == m);
    }
}

/// The others are exactly the members that are not the sender.
pub proof fn lemma_others_than(s: Seq<i32>, sender: i32)
    ensures
        forall|m: i32| others_than(s, sender).contains(m) <==> s.contains(m) && m != sender,
    decreases s.len(),
{
    if s.len() > 0 {
        let p = s.drop_last();
        lemma_others_than(p, sender);
        assert(s =~= p.push(s.last()));
        assert forall|m: i32| others_than(s, sender).contains(m) <==> s.contains(m) && m != sender by {
            lemma_push_contains(p, s.last(), m);
            lemma_push_contains(others_than(p, sender), s.last(), m);
        }
    }
}

/// Who a group message (voice or chat) from `sender` on `level` goes to: every
/// other current member of that level, in roster order.
pub fn broadcast_targets(pm: &PlayerManager, level: i32, sender: i32) -> (r: Vec<i32>)
    requires
        pm.wf(),
    ensures
        r@ == others_than(pm.roster(level), sender),
        forall|m: i32| r@.contains(m) <==> pm.roster(level).contains(m) && m != sender,
{
    let members = pm.level_members(level);
    let mut out: Vec<i32> = Vec::new();
    let mut j: usize = 0;
    while j < members.len()
        invariant
            j <= members@.len(),
            out@ == others_than(members@.take(j as int), sender),
        decreases members@.len() - j,
    {
        let m = members[j];
        proof {
            assert(members@.take(j + 1).drop_last() =~= members@.take(j as int));
        }
        if m != sender {
            out.push(m);
        }
        j += 1;
    }
    proof {
        assert(members@.take(j as int) =~= members@);
        lemma_others_than(members@, sender);
        assert forall|m: i32| out@.contains(m) <==> pm.roster(level).contains(m) && m != sender by {
            assert(others_than(members@, sender).contains(m) <==> members@.contains(m) && m != sender);
        }
    }
    out
}

/// Logs a connection in as `account`: its record is created if it has none.
pub fn handle_login(pm: &mut PlayerManager, conn: &mut Connection, account: i32)
    requires
        old(pm).wf(),
        account != 0,
    ensures
        final(pm).wf(),
        final(pm).player(account) is Some,
        forall|a: i32| a != account ==> final(pm).player(a) == old(pm).player(a),
        final(pm).levels == old(pm).levels,
        *final(conn) == (Connection { account_id: account, level_id: 0 }),
{
    pm.create_player(account);
    conn.account_id = account;
    conn.level_id = 0;
}

/// A closed connection: its player leaves its level and its record is dropped.
pub fn handle_disconnect(pm: &mut PlayerManager, conn: &mut Connection)
    requires
        old(pm).wf(),
    ensures
        final(pm).wf(),
        old(conn).account_id != 0 ==> final(pm).player(old(conn).account_id) is None,
        forall|a: i32| a != old(conn).account_id ==> final(pm).player(a) == old(pm).player(a),
        old(conn).level_id != 0 && old(conn).account_id != 0 ==> final(pm).roster(old(conn).level_id) == without(old(pm).roster(old(conn).level_id), old(conn).account_id),
        forall|l: i32| l != old(conn).level_id ==> final(pm).roster(l) == old(pm).roster(l),
        *final(conn) == (Connection { account_id: 0, level_id: 0 }),
{
    if conn.account_id != 0 {
        if conn.level_id != 0 {
            pm.remove_from_level(conn.level_id, conn.account_id);
        }
        pm.remove_player(conn.account_id);
    }
    conn.account_id = 0;
    conn.level_id = 0;
}

/* laws */

/// A budgeted walk never takes more than its budget, whatever the roster it
/// walks: members who joined after the budget was taken are left out.
pub proof fn lemma_walk_within_budget(pm: PlayerManager, members: Seq<i32>, exclude: i32, budget: nat)
    ensures
        pm.pick(members, exclude, budget).len() <= budget,
    decreases members.len(),
{
    if members.len() > 0 {
        lemma_walk_within_budget(pm, members.drop_last(), exclude, budget);
    }
}

/// In a level broadcast the count field after the header equals the number of
/// records that follow it.
pub proof fn lemma_count_matches_records(h: PacketHeader, kind: RecordKind, picked: Seq<PlayerEntry>)
    requires
        picked.len() <= u32::MAX,
    ensures
        u32_from_be(level_packet_wire(h, kind, picked).subrange(3, COUNT_END as int)) == picked.len(),
        level_packet_wire(h, kind, picked).len() == COUNT_END + kind.width() * picked.len(),
        level_packet_wire(h, kind, picked).skip(COUNT_END as int) == records_wire(kind, picked),
{
    let b = level_packet_wire(h, kind, picked);
    lemma_header_round_trip(h, Seq::empty());
    lemma_u32_round_trip(picked.len() as u32);
    lemma_records_len(kind, picked);
    assert(b.subrange(3, COUNT_END as int) =~= be_u32(picked.len() as u32));
    assert(b.skip(COUNT_END as int) =~= records_wire(kind, picked));
}

/// Adding an account to a level and taking it off again leaves the roster as
/// it was, so its reported count too (untracked stays untracked), provided the
/// account was not already on it.
pub proof fn lemma_add_then_remove(roster: Seq<i32>, account: i32)
    requires
        roster.no_duplicates(),
        !roster.contains(account),
    ensures
        without(with(roster, account), account) == roster,
        count_of(without(with(roster, account), account)) == count_of(roster),
{
    let added = roster.push(account);
    assert(added[roster.len() as int] == account);
    assert(added.contains(account));
    let idx = added.index_of(account);
    if idx < roster.len() {
        assert(roster[idx] == account);
    }
    assert(added.remove(idx) =~= roster);
}

} // verus!
