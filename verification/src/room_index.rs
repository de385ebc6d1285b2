use vstd::prelude::*;

verus! {

/// One room's record: its identifier and the ids of every client that has
/// ever sent a message tagged with it, in arrival order. Membership is
/// append-only and may contain duplicates; entries are never removed.
pub struct RoomEntry {
    pub room: String,
    pub members: Vec<u64>,
}

/// The room-membership index: a room identifier maps to the sequence of
/// client ids that have sent at least one message tagged with that room.
/// Entries are created lazily on first use and live for the whole process.
pub struct RoomIndex {
    pub rooms: Vec<RoomEntry>,
}

/// The membership sequence that `entries` records for `room`: the members of
/// the first entry named `room`, or empty if no entry is.
pub open spec fn members_in(entries: Seq<RoomEntry>, room: Seq<char>) -> Seq<u64>
    decreases entries.len(),
{
    if entries.len() == 0 {
        Seq::<u64>::empty()
    } else if entries.first().room@ == room {
        entries.first().members@
    } else {
        members_in(entries.drop_first(), room)
    }
}

impl RoomIndex {
    /// Each room has at most one entry, so an entry's members are the room's
    /// whole record.
    pub open spec fn wf(self) -> bool {
        forall|i: int, j: int|
            0 <= i < j < self.rooms@.len() ==> #[trigger] self.rooms@[i].room@
                != #[trigger] self.rooms@[j].room@
    }

    /// The recorded membership sequence of `room` (empty if unknown).
    pub open spec fn members_of(self, room: Seq<char>) -> Seq<u64> {
        members_in(self.rooms@, room)
    }

    pub fn new() -> (r: RoomIndex)
        ensures
            r.wf(),
            forall|room: Seq<char>| r.members_of(room) == Seq::<u64>::empty(),
    {
        let r = RoomIndex { rooms: Vec::new() };
        proof {
            assert forall|room: Seq<char>| r.members_of(room) == Seq::<u64>::empty() by {
                assert(r.rooms@.len() == 0);
            }
        }
        r
    }

    /// Appends `id` to the membership of `room`, creating the room's entry if
    /// this is the first message tagged with it. No other room changes.
    pub fn join(&mut self, room: &str, id: u64)
        requires
            old(self).wf(),
        ensures
            final(self).wf(),
            final(self).members_of(room@) == old(self).members_of(room@).push(id),
            forall|other: Seq<char>|
                other != room@ ==> final(self).members_of(other) == old(self).members_of(other),
    {
        let key: String = room.to_owned();
        let n = self.rooms.len();
        let mut i: usize = 0;
        while i < n
            invariant
                n == self.rooms@.len(),
                i <= n,
                key@ == room@,
                self == old(self),
                old(self).wf(),
                forall|j: int| 0 <= j < i ==> #[trigger] self.rooms@[j].room@ != room@,
            decreases n - i,
        {
            if self.rooms[i].room == key {
                let ghost pre = self.rooms@;
                let mut entry = self.rooms.remove(i);
                entry.members.push(id);
                self.rooms.insert(i, entry);
                proof {
                    assert(self.rooms@ =~= pre.update(i as int, self.rooms@[i as int]));
                    assert(self.rooms@[i as int].room@ == room@);
                    assert(self.rooms@[i as int].members@ == pre[i as int].members@.push(id));
                    assert(pre == old(self).rooms@);
                    assert(forall|j: int|
                        0 <= j < self.rooms@.len() ==> #[trigger] self.rooms@[j].room@
                            == pre[j].room@);
                    assert forall|a: int, b: int| 0 <= a < b < self.rooms@.len() implies (
                    #[trigger] self.rooms@[a].room@) != (#[trigger] self.rooms@[b].room@) by {
                        assert(old(self).rooms@[a].room@ != old(self).rooms@[b].room@);
                    }
                    lemma_members_update(pre, i as int, self.rooms@[i as int], room@, id);
                    assert forall|other: Seq<char>| other != room@ implies members_in(
                        self.rooms@,
                        other,
                    ) == members_in(pre, other) by {
                        lemma_members_update_other(pre, i as int, self.rooms@[i as int], other);
                    }
                }
                return;
            }
            i = i + 1;
        }
        let ghost pre = self.rooms@;
        let mut members: Vec<u64> = Vec::new();
        members.push(id);
        self.rooms.push(RoomEntry { room: key, members });
        proof {
            assert(self.rooms@ =~= pre.push(self.rooms@[pre.len() as int]));
            lemma_members_absent(pre, room@);
            lemma_members_append(pre, self.rooms@[pre.len() as int], room@);
            assert(self.members_of(room@) =~= old(self).members_of(room@).push(id));
            assert forall|other: Seq<char>| other != room@ implies members_in(self.rooms@, other)
                == members_in(pre, other) by {
                lemma_members_append_other(pre, self.rooms@[pre.len() as int], other);
            }
        }
    }

    /// The membership recorded for `room`, as a fresh vector.
    pub fn members(&self, room: &str) -> (r: Vec<u64>)
        requires
            self.wf(),
        ensures
            r@ == self.members_of(room@),
    {
        let key: String = room.to_owned();
        let n = self.rooms.len();
        let mut i: usize = 0;
        while i < n
            invariant
                n == self.rooms@.len(),
                i <= n,
                key@ == room@,
                forall|j: int| 0 <= j < i ==> #[trigger] self.rooms@[j].room@ != room@,
            decreases n - i,
        {
            if self.rooms[i].room == key {
                proof {
                    lemma_members_found(self.rooms@, i as int, room@);
                }
                let src = &self.rooms[i].members;
                let m = src.len();
                let mut out: Vec<u64> = Vec::new();
                let mut k: usize = 0;
                while k < m
                    invariant
                        m == src@.len(),
                        k <= m,
                        out@ == src@.take(k as int),
                    decreases m - k,
                {
                    out.push(src[k]);
                    proof {
                        assert(out@ =~= src@.take(k + 1));
                    }
                    k = k + 1;
                }
                proof {
                    assert(src@.take(m as int) =~= src@);
                }
                return out;
            }
            i = i + 1;
        }
        proof {
            lemma_members_absent(self.rooms@, room@);
        }
        Vec::new()
    }
}

/// In a sequence whose first `i` entries are not named `room` and whose `i`-th
/// is, the membership recorded for `room` is the `i`-th entry's.
proof fn lemma_members_found(entries: Seq<RoomEntry>, i: int, room: Seq<char>)
    requires
        0 <= i < entries.len(),
        entries[i].room@ == room,
        forall|j: int| 0 <= j < i ==> #[trigger] entries[j].room@ != room,
    ensures
        members_in(entries, room) == entries[i].members@,
    decreases i,
{
    if i > 0 {
        assert(entries.drop_first()[i - 1] == entries[i]);
        assert(forall|j: int|
            0 <= j < i - 1 ==> #[trigger] entries.drop_first()[j].room@ != room);
        lemma_members_found(entries.drop_first(), i - 1, room);
    }
}

/// A sequence with no entry named `room` records no members for it.
proof fn lemma_members_absent(entries: Seq<RoomEntry>, room: Seq<char>)
    requires
        forall|j: int| 0 <= j < entries.len() ==> #[trigger] entries[j].room@ != room,
    ensures
        members_in(entries, room) == Seq::<u64>::empty(),
    decreases entries.len(),
{
    if entries.len() > 0 {
        assert(forall|j: int|
            0 <= j < entries.drop_first().len() ==> #[trigger] entries.drop_first()[j].room@
                != room);
        lemma_members_absent(entries.drop_first(), room);
    }
}

/// Replacing the first entry named `room` by one with the same name and
/// members `entries[i].members.push(id)` pushes `id` onto the room's record.
proof fn lemma_members_update(entries: Seq<RoomEntry>, i: int, e: RoomEntry, room: Seq<char>, id: u64)
    requires
        0 <= i < entries.len(),
        entries[i].room@ == room,
        e.room@ == room,
        e.members@ == entries[i].members@.push(id),
        forall|j: int| 0 <= j < i ==> #[trigger] entries[j].room@ != room,
    ensures
        members_in(entries.update(i, e), room) == members_in(entries, room).push(id),
{
    lemma_members_found(entries, i, room);
    let upd = entries.update(i, e);
    assert(upd[i] == e);
    assert(forall|j: int| 0 <= j < i ==> #[trigger] upd[j] == entries[j]);
    lemma_members_found(upd, i, room);
}

/// Replacing an entry by one with the same name leaves every other room's
/// record unchanged.
proof fn lemma_members_update_other(entries: Seq<RoomEntry>, i: int, e: RoomEntry, other: Seq<char>)
    requires
        0 <= i < entries.len(),
        e.room@ == entries[i].room@,
        e.room@ != other,
    ensures
        members_in(entries.update(i, e), other) == members_in(entries, other),
    decreases entries.len(),
{
    let upd = entries.update(i, e);
    if i == 0 {
        assert(upd.first() == e);
        assert(upd.drop_first() =~= entries.drop_first());
    } else {
        assert(upd.first() == entries.first());
        assert(upd.drop_first() =~= entries.drop_first().update(i - 1, e));
        lemma_members_update_other(entries.drop_first(), i - 1, e, other);
    }
}

/// Appending an entry for a room that has none makes its members the room's
/// record.
proof fn lemma_members_append(entries: Seq<RoomEntry>, e: RoomEntry, room: Seq<char>)
    requires
        e.room@ == room,
        forall|j: int| 0 <= j < entries.len() ==> #[trigger] entries[j].room@ != room,
    ensures
        members_in(entries.push(e), room) == e.members@,
{
    assert(entries.push(e)[entries.len() as int] == e);
    assert(forall|j: int| 0 <= j < entries.len() ==> #[trigger] entries.push(e)[j] == entries[j]);
    lemma_members_found(entries.push(e), entries.len() as int, room);
}

/// Appending an entry leaves every differently named room's record unchanged.
proof fn lemma_members_append_other(entries: Seq<RoomEntry>, e: RoomEntry, other: Seq<char>)
    requires
        e.room@ != other,
    ensures
        members_in(entries.push(e), other) == members_in(entries, other),
    decreases entries.len(),
{
    let ext = entries.push(e);
    if entries.len() == 0 {
        assert(ext.first() == e);
        assert(ext.drop_first() =~= Seq::<RoomEntry>::empty());
        assert(members_in(Seq::<RoomEntry>::empty(), other) == Seq::<u64>::empty());
        assert(members_in(entries, other) == Seq::<u64>::empty());
    } else {
        assert(ext.first() == entries.first());
        assert(ext.drop_first() =~= entries.drop_first().push(e));
        lemma_members_append_other(entries.drop_first(), e, other);
    }
}

} // verus!
