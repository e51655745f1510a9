//! The shared registry: which accounts are on which level, and the latest
//! snapshot each player sent.
use crate::codec::{
    decoded, i32_wire, lemma_i32_bits, lemma_overwrite_concat, overwrite, parsed_as, ByteBuf,
    DecodeError, FastBuf, Parsed,
};
use crate::wire::{be_u16, be_u32, lemma_u16_round_trip, lemma_u32_round_trip, u16_from_be, u32_from_be};
use vstd::prelude::*;

verus! {

/// A player's latest movement snapshot, positions in fixed point.
#[derive(Debug, Clone, Copy, PartialEq, Eq, Structural)]
pub struct PlayerData {
    pub x: i32,
    pub y: i32,
    pub rotation: i32,
}

/// A player's latest progress snapshot.
#[derive(Debug, Clone, Copy, PartialEq, Eq, Structural)]
pub struct PlayerMetadata {
    pub percentage: u16,
    pub attempts: i32,
}

/// A movement snapshot together with the account it belongs to.
#[derive(Debug, Clone, Copy, PartialEq, Eq, Structural)]
pub struct AssociatedPlayerData {
    pub account_id: i32,
    pub data: PlayerData,
}

/// A progress snapshot together with the account it belongs to.
#[derive(Debug, Clone, Copy, PartialEq, Eq, Structural)]
pub struct AssociatedPlayerMetadata {
    pub account_id: i32,
    pub data: PlayerMetadata,
}

/// Everything the registry keeps about one player.
#[derive(Debug, Clone, Copy, PartialEq, Eq, Structural)]
pub struct PlayerEntry {
    pub data: AssociatedPlayerData,
    pub meta: AssociatedPlayerMetadata,
}

/// Which snapshot a level broadcast carries.
#[derive(Debug, Clone, Copy, PartialEq, Eq, Structural)]
pub enum RecordKind {
    Data,
    Metadata,
}

impl AssociatedPlayerData {
    pub const ENCODED_SIZE: usize = 16;

    pub open spec fn wire(&self) -> Seq<u8> {
        i32_wire(self.account_id) + i32_wire(self.data.x) + i32_wire(self.data.y) + i32_wire(
            self.data.rotation,
        )
    }

    pub fn encode(&self, buf: &mut ByteBuf)
        ensures
            final(buf).data@ == old(buf).data@ + self.wire(),
            final(buf).pos == old(buf).pos,
    {
        buf.write_i32(self.account_id);
        buf.write_i32(self.data.x);
        buf.write_i32(self.data.y);
        buf.write_i32(self.data.rotation);
        assert(final(buf).data@ =~= old(buf).data@ + self.wire());
    }
}

impl AssociatedPlayerMetadata {
    pub const ENCODED_SIZE: usize = 10;

    pub open spec fn wire(&self) -> Seq<u8> {
        i32_wire(self.account_id) + be_u16(self.data.percentage) + i32_wire(self.data.attempts)
    }

    pub fn encode(&self, buf: &mut ByteBuf)
        ensures
            final(buf).data@ == old(buf).data@ + self.wire(),
            final(buf).pos == old(buf).pos,
    {
        buf.write_i32(self.account_id);
        buf.write_u16(self.data.percentage);
        buf.write_i32(self.data.attempts);
        assert(final(buf).data@ =~= old(buf).data@ + self.wire());
    }
}

/// The signed value in four big-endian bytes of `b` from `at`.
pub open spec fn i32_at(b: Seq<u8>, at: int) -> i32 {
    u32_from_be(b.subrange(at, at + 4)) as i32
}

impl AssociatedPlayerData {
    pub open spec fn parse(b: Seq<u8>) -> Parsed<AssociatedPlayerData> {
        if b.len() < 16 {
            Err(DecodeError::UnexpectedEof)
        } else {
            Ok(
                (
                    AssociatedPlayerData {
                        account_id: i32_at(b, 0),
                        data: PlayerData { x: i32_at(b, 4), y: i32_at(b, 8), rotation: i32_at(b, 12) },
                    },
                    16,
                ),
            )
        }
    }

    pub fn decode(buf: &mut ByteBuf) -> (r: Result<AssociatedPlayerData, DecodeError>)
        requires
            old(buf).wf(),
        ensures
            decoded(*old(buf), *final(buf), r, AssociatedPlayerData::parse(old(buf).rest())),
    {
        let ghost b = buf.rest();
        if buf.remaining() < 16 {
            return Err(DecodeError::UnexpectedEof);
        }
        let account_id = match buf.read_i32() {
            Ok(v) => v,
            Err(e) => return Err(e),
        };
        assert(b.take(4) =~= b.subrange(0, 4));
        assert(buf.rest() =~= b.skip(4));
        let x = match buf.read_i32() {
            Ok(v) => v,
            Err(e) => return Err(e),
        };
        assert(b.skip(4).take(4) =~= b.subrange(4, 8));
        assert(buf.rest() =~= b.skip(8));
        let y = match buf.read_i32() {
            Ok(v) => v,
            Err(e) => return Err(e),
        };
        assert(b.skip(8).take(4) =~= b.subrange(8, 12));
        assert(buf.rest() =~= b.skip(12));
        let rotation = match buf.read_i32() {
            Ok(v) => v,
            Err(e) => return Err(e),
        };
        assert(b.skip(12).take(4) =~= b.subrange(12, 16));
        Ok(AssociatedPlayerData { account_id, data: PlayerData { x, y, rotation } })
    }
}

/// Decoding the encoding of a value, whatever bytes follow it, gives the value back and takes exactly its width.
pub proof fn lemma_player_data_round_trip(v: AssociatedPlayerData, tail: Seq<u8>)
    ensures
        v.wire().len() == AssociatedPlayerData::ENCODED_SIZE,
        parsed_as(AssociatedPlayerData::parse(v.wire() + tail), v, 16),
{
    let b = v.wire() + tail;
    lemma_u32_round_trip(v.account_id as u32);
    lemma_u32_round_trip(v.data.x as u32);
    lemma_u32_round_trip(v.data.y as u32);
    lemma_u32_round_trip(v.data.rotation as u32);
    lemma_i32_bits(v.account_id);
    lemma_i32_bits(v.data.x);
    lemma_i32_bits(v.data.y);
    lemma_i32_bits(v.data.rotation);
    assert(b.subrange(0, 4) =~= be_u32(v.account_id as u32));
    assert(b.subrange(4, 8) =~= be_u32(v.data.x as u32));
    assert(b.subrange(8, 12) =~= be_u32(v.data.y as u32));
    assert(b.subrange(12, 16) =~= be_u32(v.data.rotation as u32));
}

impl AssociatedPlayerMetadata {
    pub open spec fn parse(b: Seq<u8>) -> Parsed<AssociatedPlayerMetadata> {
        if b.len() < 10 {
            Err(DecodeError::UnexpectedEof)
        } else {
            Ok(
                (
                    AssociatedPlayerMetadata {
                        account_id: i32_at(b, 0),
                        data: PlayerMetadata {
                            percentage: u16_from_be(b.subrange(4, 6)),
                            attempts: i32_at(b, 6),
                        },
                    },
                    10,
                ),
            )
        }
    }

    pub fn decode(buf: &mut ByteBuf) -> (r: Result<AssociatedPlayerMetadata, DecodeError>)
        requires
            old(buf).wf(),
        ensures
            decoded(*old(buf), *final(buf), r, AssociatedPlayerMetadata::parse(old(buf).rest())),
    {
        let ghost b = buf.rest();
        if buf.remaining() < 10 {
            return Err(DecodeError::UnexpectedEof);
        }
        let account_id = match buf.read_i32() {
            Ok(v) => v,
            Err(e) => return Err(e),
        };
        assert(b.take(4) =~= b.subrange(0, 4));
        assert(buf.rest() =~= b.skip(4));
        let percentage = match buf.read_u16() {
            Ok(v) => v,
            Err(e) => return Err(e),
        };
        assert(b.skip(4).take(2) =~= b.subrange(4, 6));
        assert(buf.rest() =~= b.skip(6));
        let attempts = match buf.read_i32() {
            Ok(v) => v,
            Err(e) => return Err(e),
        };
        assert(b.skip(6).take(4) =~= b.subrange(6, 10));
        Ok(AssociatedPlayerMetadata { account_id, data: PlayerMetadata { percentage, attempts } })
    }
}

/// Decoding the encoding of a value, whatever bytes follow it, gives the value back and takes exactly its width.
pub proof fn lemma_player_metadata_round_trip(v: AssociatedPlayerMetadata, tail: Seq<u8>)
    ensures
        v.wire().len() == AssociatedPlayerMetadata::ENCODED_SIZE,
        parsed_as(AssociatedPlayerMetadata::parse(v.wire() + tail), v, 10),
{
    let b = v.wire() + tail;
    lemma_u32_round_trip(v.account_id as u32);
    lemma_u16_round_trip(v.data.percentage);
    lemma_u32_round_trip(v.data.attempts as u32);
    lemma_i32_bits(v.account_id);
    lemma_i32_bits(v.data.attempts);
    assert(b.subrange(0, 4) =~= be_u32(v.account_id as u32));
    assert(b.subrange(4, 6) =~= be_u16(v.data.percentage));
    assert(b.subrange(6, 10) =~= be_u32(v.data.attempts as u32));
}

impl RecordKind {
    /// Width of one record of this kind.
    pub open spec fn width(self) -> nat {
        match self {
            RecordKind::Data => 16,
            RecordKind::Metadata => 10,
        }
    }

    /// The record of this kind for a player.
    pub open spec fn record(self, e: PlayerEntry) -> Seq<u8> {
        match self {
            RecordKind::Data => e.data.wire(),
            RecordKind::Metadata => e.meta.wire(),
        }
    }

    pub fn encoded_size(self) -> (r: usize)
        ensures
            r == self.width(),
    {
        match self {
            RecordKind::Data => AssociatedPlayerData::ENCODED_SIZE,
            RecordKind::Metadata => AssociatedPlayerMetadata::ENCODED_SIZE,
        }
    }

    /// Writes this kind's record of `e` into a fast buffer with room for it.
    pub fn write_record(self, e: &PlayerEntry, buf: &mut FastBuf)
        requires
            old(buf).wf(),
            old(buf).pos + self.width() <= old(buf).capacity(),
        ensures
            final(buf).wf(),
            final(buf).data@ == overwrite(old(buf).data@, old(buf).pos as int, self.record(*e)),
            final(buf).pos == old(buf).pos + self.width(),
    {
        let mut tmp = ByteBuf::new();
        match self {
            RecordKind::Data => e.data.encode(&mut tmp),
            RecordKind::Metadata => e.meta.encode(&mut tmp),
        }
        buf.write_bytes(tmp.data.as_slice());
    }
}

/// The records of `kind` for `entries`, one after another.
pub open spec fn records_wire(kind: RecordKind, entries: Seq<PlayerEntry>) -> Seq<u8>
    decreases entries.len(),
{
    if entries.len() == 0 {
        Seq::empty()
    } else {
        records_wire(kind, entries.drop_last()) + kind.record(entries.last())
    }
}

/// Each record of a kind has the same width.
pub proof fn lemma_records_len(kind: RecordKind, entries: Seq<PlayerEntry>)
    ensures
        records_wire(kind, entries).len() == kind.width() * entries.len(),
    decreases entries.len(),
{
    if entries.len() > 0 {
        lemma_records_len(kind, entries.drop_last());
        assert(kind.width() * entries.len() == kind.width() * (entries.len() - 1) + kind.width())
            by (nonlinear_arith);
    }
}

/// The members of one level, in the order they joined.
pub struct LevelRoster {
    pub level_id: i32,
    pub members: Vec<i32>,
}

/// `s` with `a` taken out, if it is there.
pub open spec fn without(s: Seq<i32>, a: i32) -> Seq<i32> {
    if s.contains(a) {
        s.remove(s.index_of(a))
    } else {
        s
    }
}

/// `s` with `a` added at the end, unless it is there already.
pub open spec fn with(s: Seq<i32>, a: i32) -> Seq<i32> {
    if s.contains(a) {
        s
    } else {
        s.push(a)
    }
}

/// A player count as the registry reports it: `None` for a level nobody is on.
pub open spec fn count_of(s: Seq<i32>) -> Option<usize> {
    if s.len() == 0 {
        None
    } else {
        Some(s.len() as usize)
    }
}

/// Level rosters and player records. One instance is shared by every connection.
pub struct PlayerManager {
    pub players: Vec<PlayerEntry>,
    pub levels: Vec<LevelRoster>,
}

impl PlayerManager {
    /// Level ids and account ids are unique, no roster lists an account twice,
    /// and a roster with no members is not kept.
    pub open spec fn wf(&self) -> bool {
        &&& forall|i: int, j: int|
            0 <= i < j < self.levels@.len() ==> self.levels@[i].level_id
                != self.levels@[j].level_id
        &&& forall|i: int|
            0 <= i < self.levels@.len() ==> (#[trigger] self.levels@[i]).members@.no_duplicates()
                && self.levels@[i].members@.len() > 0
        &&& forall|i: int, j: int|
            0 <= i < j < self.players@.len() ==> self.players@[i].data.account_id
                != self.players@[j].data.account_id
    }

    pub open spec fn has_level(&self, level: i32) -> bool {
        exists|i: int| 0 <= i < self.levels@.len() && self.levels@[i].level_id == level
    }

    /// The members of `level`, in roster order; empty for a level nobody is on.
    pub open spec fn roster(&self, level: i32) -> Seq<i32> {
        if self.has_level(level) {
            self.levels@[choose|i: int|
                0 <= i < self.levels@.len() && self.levels@[i].level_id == level].members@
        } else {
            Seq::empty()
        }
    }

    pub open spec fn has_player(&self, account: i32) -> bool {
        exists|i: int| 0 <= i < self.players@.len() && self.players@[i].data.account_id == account
    }

    /// The record of `account`, if there is one.
    pub open spec fn player(&self, account: i32) -> Option<PlayerEntry> {
        if self.has_player(account) {
            Some(
                self.players@[choose|i: int|
                    0 <= i < self.players@.len() && self.players@[i].data.account_id
                        == account],
            )
        } else {
            None
        }
    }

    /// The players a budgeted walk over `members` writes: in order, each member
    /// that has a record and is not `exclude`, until `budget` are taken.
    pub open spec fn pick(&self, members: Seq<i32>, exclude: i32, budget: nat) -> Seq<PlayerEntry>
        decreases members.len(),
    {
        if members.len() == 0 {
            Seq::empty()
        } else {
            let prev = self.pick(members.drop_last(), exclude, budget);
            let m = members.last();
            if m != exclude && prev.len() < budget && self.player(m) is Some {
                prev.push(self.player(m).unwrap())
            } else {
                prev
            }
        }
    }

    /// With unique level ids, the roster of a stored level is the one stored for it.
    pub proof fn lemma_level_at(&self, i: int)
        requires
            self.wf(),
            0 <= i < self.levels@.len(),
        ensures
            self.has_level(self.levels@[i].level_id),
            self.roster(self.levels@[i].level_id) == self.levels@[i].members@,
    {
        let l = self.levels@[i].level_id;
        let j = choose|j: int| 0 <= j < self.levels@.len() && self.levels@[j].level_id == l;
        assert(0 <= j < self.levels@.len() && self.levels@[j].level_id == l);
        if j < i {
        } else if i < j {
        }
    }

    /// With unique account ids, the record of a stored account is the one stored for it.
    pub proof fn lemma_player_at(&self, i: int)
        requires
            self.wf(),
            0 <= i < self.players@.len(),
        ensures
            self.player(self.players@[i].data.account_id) == Some(self.players@[i]),
    {
        let a = self.players@[i].data.account_id;
        let j = choose|j: int| 0 <= j < self.players@.len() && self.players@[j].data.account_id == a;
        assert(0 <= j < self.players@.len() && self.players@[j].data.account_id == a);
        if j < i {
        } else if i < j {
        }
    }

    pub fn new() -> (r: PlayerManager)
        ensures
            r.wf(),
            forall|l: i32| r.roster(l) == Seq::<i32>::empty(),
            forall|a: i32| r.player(a) is None,
    {
        PlayerManager { players: Vec::new(), levels: Vec::new() }
    }

    fn find_level(&self, level: i32) -> (r: Option<usize>)
        ensures
            match r {
                Some(i) => i < self.levels@.len() && self.levels@[i as int].level_id == level,
                None => !self.has_level(level),
            },
    {
        let mut i: usize = 0;
        while i < self.levels.len()
            invariant
                i <= self.levels@.len(),
                forall|k: int| 0 <= k < i ==> self.levels@[k].level_id != level,
            decreases self.levels@.len() - i,
        {
            if self.levels[i].level_id == level {
                return Some(i);
            }
            i += 1;
        }
        None
    }

    fn find_player(&self, account: i32) -> (r: Option<usize>)
        ensures
            match r {
                Some(i) => i < self.players@.len() && self.players@[i as int].data.account_id
                    == account,
                None => !self.has_player(account),
            },
    {
        let mut i: usize = 0;
        while i < self.players.len()
            invariant
                i <= self.players@.len(),
                forall|k: int| 0 <= k < i ==> self.players@[k].data.account_id != account,
            decreases self.players@.len() - i,
        {
            if self.players[i].data.account_id == account {
                return Some(i);
            }
            i += 1;
        }
        None
    }
    /// Every roster of a level other than `level` appears unchanged in both.
    pub open spec fn same_other_levels(&self, other: &PlayerManager, level: i32) -> bool {
        forall|j: int|
            #![trigger self.levels@[j]]
            0 <= j < self.levels@.len() && self.levels@[j].level_id != level ==> exists|k: int|
                0 <= k < other.levels@.len() && other.levels@[k].level_id == self.levels@[j].level_id
                    && other.levels@[k].members@ == self.levels@[j].members@
    }

    /// Rosters of other levels are equal when each side holds the other's entries for them.
    pub proof fn lemma_frame(&self, new: &PlayerManager, level: i32)
        requires
            self.wf(),
            new.wf(),
            self.same_other_levels(new, level),
            new.same_other_levels(self, level),
        ensures
            forall|l: i32| l != level ==> new.roster(l) == self.roster(l),
    {
        assert forall|l: i32| l != level implies new.roster(l) == self.roster(l) by {
            if self.has_level(l) {
                let j = choose|j: int| 0 <= j < self.levels@.len() && self.levels@[j].level_id == l;
                self.lemma_level_at(j);
                let k = choose|k: int|
                    0 <= k < new.levels@.len() && new.levels@[k].level_id == self.levels@[j].level_id
                        && new.levels@[k].members@ == self.levels@[j].members@;
                new.lemma_level_at(k);
            } else if new.has_level(l) {
                let k = choose|k: int| 0 <= k < new.levels@.len() && new.levels@[k].level_id == l;
                let j = choose|j: int|
                    0 <= j < self.levels@.len() && self.levels@[j].level_id == new.levels@[k].level_id
                        && self.levels@[j].members@ == new.levels@[k].members@;
                assert(self.levels@[j].level_id == l);
            }
        }
    }

    /// Replacing the entry of `level` in place leaves every other roster as it was.
    pub proof fn lemma_update_frame(&self, new: &PlayerManager, i: int, level: i32)
        requires
            self.wf(),
            new.wf(),
            0 <= i < self.levels@.len(),
            self.levels@[i].level_id == level,
            new.levels@ == self.levels@.update(i, new.levels@[i]),
            new.levels@[i].level_id == level,
        ensures
            forall|l: i32| l != level ==> new.roster(l) == self.roster(l),
    {
        assert forall|j: int|
            #![trigger self.levels@[j]]
            0 <= j < self.levels@.len() && self.levels@[j].level_id != level implies exists|k: int|
            0 <= k < new.levels@.len() && new.levels@[k].level_id == self.levels@[j].level_id
                && new.levels@[k].members@ == self.levels@[j].members@ by {
            assert(new.levels@[j] == self.levels@[j]);
        }
        assert forall|k: int|
            #![trigger new.levels@[k]]
            0 <= k < new.levels@.len() && new.levels@[k].level_id != level implies exists|j: int|
            0 <= j < self.levels@.len() && self.levels@[j].level_id == new.levels@[k].level_id
                && self.levels@[j].members@ == new.levels@[k].members@ by {
            assert(new.levels@[k] == self.levels@[k]);
        }
        self.lemma_frame(new, level);
    }

    /// Removing the entry of `level` leaves every other roster as it was.
    pub proof fn lemma_remove_frame(&self, new: &PlayerManager, i: int, level: i32)
        requires
            self.wf(),
            new.wf(),
            0 <= i < self.levels@.len(),
            self.levels@[i].level_id == level,
            new.levels@ == self.levels@.remove(i),
        ensures
            forall|l: i32| l != level ==> new.roster(l) == self.roster(l),
    {
        assert forall|j: int|
            #![trigger self.levels@[j]]
            0 <= j < self.levels@.len() && self.levels@[j].level_id != level implies exists|k: int|
            0 <= k < new.levels@.len() && new.levels@[k].level_id == self.levels@[j].level_id
                && new.levels@[k].members@ == self.levels@[j].members@ by {
            if j < i {
                assert(new.levels@[j] == self.levels@[j]);
            } else {
                assert(new.levels@[j - 1] == self.levels@[j]);
            }
        }
        assert forall|k: int|
            #![trigger new.levels@[k]]
            0 <= k < new.levels@.len() && new.levels@[k].level_id != level implies exists|j: int|
            0 <= j < self.levels@.len() && self.levels@[j].level_id == new.levels@[k].level_id
                && self.levels@[j].members@ == new.levels@[k].members@ by {
            if k < i {
                assert(new.levels@[k] == self.levels@[k]);
            } else {
                assert(new.levels@[k] == self.levels@[k + 1]);
            }
        }
        self.lemma_frame(new, level);
    }

    /// Puts `account` on `level`; nothing changes if it is there already.
    pub fn add_to_level(&mut self, level: i32, account: i32)
        requires
            old(self).wf(),
        ensures
            final(self).wf(),
            final(self).roster(level) == with(old(self).roster(level), account),
            forall|l: i32| l != level ==> final(self).roster(l) == old(self).roster(l),
            final(self).players == old(self).players,
    {
        match self.find_level(level) {
            Some(i) => {
                proof {
                    self.lemma_level_at(i as int);
                }
                let mut r = self.levels.remove(i);
                let ghost before = r.members@;
                if index_in(&r.members, account).is_none() {
                    r.members.push(account);
                    proof {
                        assert forall|a: int, b: int|
                            0 <= a < b < r.members@.len() implies r.members@[a] != r.members@[b] by {
                            if b == r.members@.len() - 1 {
                                assert(before[a] == r.members@[a]);
                            }
                        }
                    }
                }
                self.levels.insert(i, r);
                proof {
                    assert(self.levels@ =~= old(self).levels@.update(i as int, self.levels@[i as int]));
                    assert(self.wf());
                    self.lemma_level_at(i as int);
                    old(self).lemma_update_frame(self, i as int, level);
                    assert(r.members@ =~= with(before, account));
                }
            },
            None => {
                let mut members: Vec<i32> = Vec::new();
                members.push(account);
                self.levels.push(LevelRoster { level_id: level, members });
                proof {
                    let n = old(self).levels@.len() as int;
                    assert(self.wf());
                    self.lemma_level_at(n);
                    assert forall|j: int|
                        #![trigger old(self).levels@[j]]
                        0 <= j < old(self).levels@.len() && old(self).levels@[j].level_id != level
                            implies exists|k: int|
                        0 <= k < self.levels@.len() && self.levels@[k].level_id
                            == old(self).levels@[j].level_id && self.levels@[k].members@ == old(
                            self,
                        ).levels@[j].members@ by {
                        assert(self.levels@[j] == old(self).levels@[j]);
                    }
                    assert forall|k: int|
                        #![trigger self.levels@[k]]
                        0 <= k < self.levels@.len() && self.levels@[k].level_id != level
                            implies exists|j: int|
                        0 <= j < old(self).levels@.len() && old(self).levels@[j].level_id
                            == self.levels@[k].level_id && old(self).levels@[j].members@
                            == self.levels@[k].members@ by {
                        assert(self.levels@[k] == old(self).levels@[k]);
                    }
                    old(self).lemma_frame(self, level);
                    assert(self.levels@[n].members@ =~= with(Seq::empty(), account));
                }
            },
        }
    }

    /// Takes `account` off `level`; nothing changes if it is not there. A level
    /// left with no members is dropped.
    pub fn remove_from_level(&mut self, level: i32, account: i32)
        requires
            old(self).wf(),
        ensures
            final(self).wf(),
            final(self).roster(level) == without(old(self).roster(level), account),
            forall|l: i32| l != level ==> final(self).roster(l) == old(self).roster(l),
            final(self).players == old(self).players,
    {
        match self.find_level(level) {
            Some(i) => {
                proof {
                    self.lemma_level_at(i as int);
                }
                let mut r = self.levels.remove(i);
                let ghost before = r.members@;
                let ghost removed = old(self).levels@.remove(i as int);
                match index_in(&r.members, account) {
                    Some(k) => {
                        r.members.remove(k);
                        proof {
                            let idx = before.index_of(account);
                            assert(before[idx] == account);
                            assert(idx == k as int);
                            assert(r.members@ == without(before, account));
                        }
                    },
                    None => {
                        assert(r.members@ == without(before, account));
                    },
                }
                if r.members.len() > 0 {
                    self.levels.insert(i, r);
                    proof {
                        assert(self.levels@ =~= old(self).levels@.update(
                            i as int,
                            self.levels@[i as int],
                        ));
                        assert(self.wf());
                        self.lemma_level_at(i as int);
                        old(self).lemma_update_frame(self, i as int, level);
                    }
                } else {
                    proof {
                        assert(self.levels@ == removed);
                        assert(self.wf());
                        assert(!self.has_level(level));
                        assert(r.members@ =~= Seq::<i32>::empty());
                        old(self).lemma_remove_frame(self, i as int, level);
                    }
                }
            },
            None => {},
        }
    }

    /// How many players are on `level`; `None` when nobody is.
    pub fn get_player_count_on_level(&self, level: i32) -> (r: Option<usize>)
        requires
            self.wf(),
        ensures
            r == count_of(self.roster(level)),
            r is Some ==> r->Some_0 as int == self.roster(level).len(),
    {
        match self.find_level(level) {
            Some(i) => {
                proof {
                    self.lemma_level_at(i as int);
                }
                Some(self.levels[i].members.len())
            },
            None => None,
        }
    }

    /// The members of `level`, in roster order.
    pub fn level_members(&self, level: i32) -> (r: Vec<i32>)
        requires
            self.wf(),
        ensures
            r@ == self.roster(level),
    {
        match self.find_level(level) {
            Some(i) => {
                proof {
                    self.lemma_level_at(i as int);
                }
                let mut out: Vec<i32> = Vec::new();
                let mut k: usize = 0;
                while k < self.levels[i].members.len()
                    invariant
                        i < self.levels@.len(),
                        k <= self.levels@[i as int].members@.len(),
                        out@ == self.levels@[i as int].members@.take(k as int),
                    decreases self.levels@[i as int].members@.len() - k,
                {
                    out.push(self.levels[i].members[k]);
                    k += 1;
                    assert(out@ =~= self.levels@[i as int].members@.take(k as int));
                }
                assert(out@ =~= self.levels@[i as int].members@);
                out
            },
            None => Vec::new(),
        }
    }
}

/// Where `a` stands in `v`, if it is there.
fn index_in(v: &Vec<i32>, a: i32) -> (r: Option<usize>)
    ensures
        match r {
            Some(k) => k < v@.len() && v@[k as int] == a,
            None => !v@.contains(a),
        },
{
    let mut k: usize = 0;
    while k < v.len()
        invariant
            k <= v@.len(),
            forall|j: int| 0 <= j < k ==> v@[j] != a,
        decreases v@.len() - k,
    {
        if v[k] == a {
            return Some(k);
        }
        k += 1;
    }
    None
}

/// A fresh record for `account`: every snapshot value zero.
pub open spec fn fresh_entry(account: i32) -> PlayerEntry {
    PlayerEntry {
        data: AssociatedPlayerData { account_id: account, data: PlayerData { x: 0, y: 0, rotation: 0 } },
        meta: AssociatedPlayerMetadata {
            account_id: account,
            data: PlayerMetadata { percentage: 0, attempts: 0 },
        },
    }
}

/// `e` with its movement snapshot replaced.
pub open spec fn with_data(e: PlayerEntry, d: PlayerData) -> PlayerEntry {
    PlayerEntry { data: AssociatedPlayerData { account_id: e.data.account_id, data: d }, ..e }
}

/// `e` with its progress snapshot replaced.
pub open spec fn with_meta(e: PlayerEntry, m: PlayerMetadata) -> PlayerEntry {
    PlayerEntry { meta: AssociatedPlayerMetadata { account_id: e.meta.account_id, data: m }, ..e }
}

impl PlayerManager {
    /// Records of other accounts are equal when each side holds the other's entries for them.
    pub proof fn lemma_player_frame(&self, new: &PlayerManager, account: i32)
        requires
            self.wf(),
            new.wf(),
            forall|j: int|
                #![trigger self.players@[j]]
                0 <= j < self.players@.len() && self.players@[j].data.account_id != account
                    ==> exists|k: int| 0 <= k < new.players@.len() && new.players@[k] == self.players@[j],
            forall|k: int|
                #![trigger new.players@[k]]
                0 <= k < new.players@.len() && new.players@[k].data.account_id != account
                    ==> exists|j: int| 0 <= j < self.players@.len() && self.players@[j] == new.players@[k],
        ensures
            forall|a: i32| a != account ==> new.player(a) == self.player(a),
    {
        assert forall|a: i32| a != account implies new.player(a) == self.player(a) by {
            if self.has_player(a) {
                let j = choose|j: int|
                    0 <= j < self.players@.len() && self.players@[j].data.account_id == a;
                self.lemma_player_at(j);
                let k = choose|k: int| 0 <= k < new.players@.len() && new.players@[k] == self.players@[j];
                new.lemma_player_at(k);
            } else if new.has_player(a) {
                let k = choose|k: int|
                    0 <= k < new.players@.len() && new.players@[k].data.account_id == a;
                let j = choose|j: int| 0 <= j < self.players@.len() && self.players@[j] == new.players@[k];
                assert(self.players@[j].data.account_id == a);
            }
        }
    }

    /// Replaces the record at `i`, keeping its account.
    fn replace_player(&mut self, i: usize, e: PlayerEntry)
        requires
            old(self).wf(),
            i < old(self).players@.len(),
            e.data.account_id == old(self).players@[i as int].data.account_id,
        ensures
            final(self).wf(),
            final(self).player(e.data.account_id) == Some(e),
            forall|a: i32| a != e.data.account_id ==> final(self).player(a) == old(self).player(a),
            final(self).levels == old(self).levels,
    {
        self.players.set(i, e);
        proof {
            assert(self.wf());
            self.lemma_player_at(i as int);
            assert forall|j: int|
                #![trigger old(self).players@[j]]
                0 <= j < old(self).players@.len() && old(self).players@[j].data.account_id
                    != e.data.account_id implies exists|k: int|
                0 <= k < self.players@.len() && self.players@[k] == old(self).players@[j] by {
                assert(self.players@[j] == old(self).players@[j]);
            }
            assert forall|k: int|
                #![trigger self.players@[k]]
                0 <= k < self.players@.len() && self.players@[k].data.account_id
                    != e.data.account_id implies exists|j: int|
                0 <= j < old(self).players@.len() && old(self).players@[j] == self.players@[k] by {
                assert(self.players@[k] == old(self).players@[k]);
            }
            old(self).lemma_player_frame(self, e.data.account_id);
        }
    }

    /// Starts keeping a record for `account`; an existing one is kept as it is.
    pub fn create_player(&mut self, account: i32)
        requires
            old(self).wf(),
        ensures
            final(self).wf(),
            final(self).player(account) == Some(
                match old(self).player(account) {
                    Some(e) => e,
                    None => fresh_entry(account),
                },
            ),
            forall|a: i32| a != account ==> final(self).player(a) == old(self).player(a),
            final(self).levels == old(self).levels,
    {
        match self.find_player(account) {
            Some(i) => {
                proof {
                    self.lemma_player_at(i as int);
                }
            },
            None => {
                let e = PlayerEntry {
                    data: AssociatedPlayerData {
                        account_id: account,
                        data: PlayerData { x: 0, y: 0, rotation: 0 },
                    },
                    meta: AssociatedPlayerMetadata {
                        account_id: account,
                        data: PlayerMetadata { percentage: 0, attempts: 0 },
                    },
                };
                self.players.push(e);
                proof {
                    let n = old(self).players@.len() as int;
                    assert(self.wf());
                    self.lemma_player_at(n);
                    assert forall|j: int|
                        #![trigger old(self).players@[j]]
                        0 <= j < old(self).players@.len() && old(self).players@[j].data.account_id
                            != account implies exists|k: int|
                        0 <= k < self.players@.len() && self.players@[k] == old(self).players@[j] by {
                        assert(self.players@[j] == old(self).players@[j]);
                    }
                    assert forall|k: int|
                        #![trigger self.players@[k]]
                        0 <= k < self.players@.len() && self.players@[k].data.account_id != account
                            implies exists|j: int|
                        0 <= j < old(self).players@.len() && old(self).players@[j] == self.players@[k] by {
                        assert(self.players@[k] == old(self).players@[k]);
                    }
                    old(self).lemma_player_frame(self, account);
                }
            },
        }
    }

    /// Drops the record of `account`, if there is one.
    pub fn remove_player(&mut self, account: i32)
        requires
            old(self).wf(),
        ensures
            final(self).wf(),
            final(self).player(account) is None,
            forall|a: i32| a != account ==> final(self).player(a) == old(self).player(a),
            final(self).levels == old(self).levels,
    {
        match self.find_player(account) {
            Some(i) => {
                self.players.remove(i);
                proof {
                    assert(self.wf());
                    assert forall|j: int|
                        #![trigger old(self).players@[j]]
                        0 <= j < old(self).players@.len() && old(self).players@[j].data.account_id
                            != account implies exists|k: int|
                        0 <= k < self.players@.len() && self.players@[k] == old(self).players@[j] by {
                        if j < i {
                            assert(self.players@[j] == old(self).players@[j]);
                        } else {
                            assert(self.players@[j - 1] == old(self).players@[j]);
                        }
                    }
                    assert forall|k: int|
                        #![trigger self.players@[k]]
                        0 <= k < self.players@.len() && self.players@[k].data.account_id != account
                            implies exists|j: int|
                        0 <= j < old(self).players@.len() && old(self).players@[j] == self.players@[k] by {
                        if k < i {
                            assert(self.players@[k] == old(self).players@[k]);
                        } else {
                            assert(self.players@[k] == old(self).players@[k + 1]);
                        }
                    }
                    old(self).lemma_player_frame(self, account);
                    if self.has_player(account) {
                        let k = choose|k: int|
                            0 <= k < self.players@.len() && self.players@[k].data.account_id
                                == account;
                        if k < i {
                            assert(old(self).players@[k] == self.players@[k]);
                        } else {
                            assert(old(self).players@[k + 1] == self.players@[k]);
                        }
                    }
                }
            },
            None => {},
        }
    }

    /// Stores the latest movement snapshot of `account`; the last write wins. An
    /// account without a record is ignored.
    pub fn set_player_data(&mut self, account: i32, data: &PlayerData)
        requires
            old(self).wf(),
        ensures
            final(self).wf(),
            final(self).player(account) == match old(self).player(account) {
                Some(e) => Some(with_data(e, *data)),
                None => None::<PlayerEntry>,
            },
            forall|a: i32| a != account ==> final(self).player(a) == old(self).player(a),
            final(self).levels == old(self).levels,
    {
        match self.find_player(account) {
            Some(i) => {
                proof {
                    self.lemma_player_at(i as int);
                }
                let old_e = self.players[i];
                let e = PlayerEntry {
                    data: AssociatedPlayerData { account_id: old_e.data.account_id, data: *data },
                    meta: old_e.meta,
                };
                self.replace_player(i, e);
            },
            None => {},
        }
    }

    /// Stores the latest progress snapshot of `account`; the last write wins. An
    /// account without a record is ignored.
    pub fn set_player_metadata(&mut self, account: i32, meta: &PlayerMetadata)
        requires
            old(self).wf(),
        ensures
            final(self).wf(),
            final(self).player(account) == match old(self).player(account) {
                Some(e) => Some(with_meta(e, *meta)),
                None => None::<PlayerEntry>,
            },
            forall|a: i32| a != account ==> final(self).player(a) == old(self).player(a),
            final(self).levels == old(self).levels,
    {
        match self.find_player(account) {
            Some(i) => {
                proof {
                    self.lemma_player_at(i as int);
                }
                let old_e = self.players[i];
                let e = PlayerEntry {
                    data: old_e.data,
                    meta: AssociatedPlayerMetadata { account_id: old_e.meta.account_id, data: *meta },
                };
                self.replace_player(i, e);
            },
            None => {},
        }
    }
}

impl PlayerManager {
    /// Walks the roster of `level` in order and writes the `kind` record of each
    /// member other than `exclude`, stopping at `budget` records, however the
    /// roster has changed since the budget was taken. Returns how many it wrote.
    pub fn stream_level_records(
        &self,
        level: i32,
        exclude: i32,
        kind: RecordKind,
        budget: usize,
        buf: &mut FastBuf,
    ) -> (written: usize)
        requires
            self.wf(),
            old(buf).wf(),
            old(buf).pos + kind.width() * budget <= old(buf).capacity(),
        ensures
            written == self.pick(self.roster(level), exclude, budget as nat).len(),
            written <= budget,
            final(buf).wf(),
            final(buf).data@ == overwrite(
                old(buf).data@,
                old(buf).pos as int,
                records_wire(kind, self.pick(self.roster(level), exclude, budget as nat)),
            ),
            final(buf).pos == old(buf).pos + kind.width() * written,
    {
        let members = self.level_members(level);
        self.stream_players(&members, exclude, kind, budget, buf)
    }

    /// Like `stream_level_records`, over an explicit list of accounts; those
    /// without a record are skipped.
    pub fn stream_players(
        &self,
        members: &Vec<i32>,
        exclude: i32,
        kind: RecordKind,
        budget: usize,
        buf: &mut FastBuf,
    ) -> (written: usize)
        requires
            self.wf(),
            old(buf).wf(),
            old(buf).pos + kind.width() * budget <= old(buf).capacity(),
        ensures
            written == self.pick(members@, exclude, budget as nat).len(),
            written <= budget,
            final(buf).wf(),
            final(buf).data@ == overwrite(
                old(buf).data@,
                old(buf).pos as int,
                records_wire(kind, self.pick(members@, exclude, budget as nat)),
            ),
            final(buf).pos == old(buf).pos + kind.width() * written,
    {
        let w = kind.encoded_size();
        let ghost p0 = buf.pos as int;
        let ghost d0 = buf.data@;
        let mut count: usize = 0;
        let mut j: usize = 0;
        proof {
            assert(members@.take(0) =~= Seq::<i32>::empty());
            assert(overwrite(d0, p0, Seq::empty()) =~= d0);
        }
        while j < members.len()
            invariant
                self.wf(),
                w == kind.width(),
                j <= members@.len(),
                count == self.pick(members@.take(j as int), exclude, budget as nat).len(),
                count <= budget,
                buf.wf(),
                buf.data@.len() == d0.len(),
                p0 + w * budget <= d0.len(),
                buf.pos == p0 + w * count,
                buf.data@ == overwrite(
                    d0,
                    p0,
                    records_wire(kind, self.pick(members@.take(j as int), exclude, budget as nat)),
                ),
            decreases members@.len() - j,
        {
            let ghost prev = self.pick(members@.take(j as int), exclude, budget as nat);
            let m = members[j];
            proof {
                assert(members@.take(j + 1).drop_last() =~= members@.take(j as int));
                lemma_records_len(kind, prev);
            }
            if m != exclude && count < budget {
                match self.find_player(m) {
                    Some(pi) => {
                        proof {
                            self.lemma_player_at(pi as int);
                            assert(w * count + w <= w * budget) by (nonlinear_arith)
                                requires
                                    count < budget,
                            ;
                        }
                        kind.write_record(&self.players[pi], buf);
                        count += 1;
                        proof {
                            let e = self.players@[pi as int];
                            assert(prev.push(e).drop_last() =~= prev);
                            lemma_overwrite_concat(d0, p0, records_wire(kind, prev), kind.record(e));
                            assert(w * (count - 1) + w == w * count) by (nonlinear_arith);
                        }
                    },
                    None => {},
                }
            }
            j += 1;
        }
        proof {
            assert(members@.take(j as int) =~= members@);
        }
        count
    }
}

} // verus!
