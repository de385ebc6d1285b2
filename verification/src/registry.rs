use vstd::prelude::*;

verus! {

/// Identifier of a live connection, allocated by the registry on connect and
/// never reused within a process lifetime.
pub type ClientId = u64;

/// One live connection: its identifier, the room of its most recent message
/// (empty until the first message arrives), and the outbound sink that the
/// connection's forwarding task drains onto the transport.
pub struct Client {
    pub id: ClientId,
    pub room: String,
    pub tx: tokio::sync::mpsc::UnboundedSender<String>,
}

/// The set of all currently connected clients. Every live connection has
/// exactly one entry; entries are added on connect and removed exactly once
/// on disconnect. All mutation happens through `&mut self`, so a caller that
/// guards the registry with one exclusion mechanism gets the required
/// atomicity of each operation.
pub struct Registry {
    pub clients: Vec<Client>,
    pub next_id: ClientId,
}

/// The clients of `s` whose id is not `id`, in their original order.
pub open spec fn without_id(s: Seq<Client>, id: ClientId) -> Seq<Client>
    decreases s.len(),
{
    if s.len() == 0 {
        s
    } else {
        let rest = without_id(s.drop_last(), id);
        if s.last().id == id {
            rest
        } else {
            rest.push(s.last())
        }
    }
}

impl Registry {
    /// No two entries share an id, and every id is below the allocation
    /// counter, so a fresh id can never collide with a live one.
    pub open spec fn wf(self) -> bool {
        &&& forall|i: int, j: int|
            0 <= i < j < self.clients@.len() ==> #[trigger] self.clients@[i].id
                != #[trigger] self.clients@[j].id
        &&& forall|i: int| 0 <= i < self.clients@.len() ==> #[trigger] self.clients@[i].id < self.next_id
    }

    /// Whether a connection with this id is currently registered.
    pub open spec fn has_client(self, id: ClientId) -> bool {
        exists|i: int| 0 <= i < self.clients@.len() && #[trigger] self.clients@[i].id == id
    }

    /// How many connections are currently registered.
    pub open spec fn client_count(self) -> nat {
        self.clients@.len()
    }

    pub fn new() -> (r: Registry)
        ensures
            r.wf(),
            r.client_count() == 0,
            r.next_id == 0,
    {
        Registry { clients: Vec::new(), next_id: 0 }
    }

    /// Registers a new connection with an empty current room and returns its
    /// fresh id. The registry grows by exactly one entry and no existing
    /// entry changes.
    pub fn register(&mut self, tx: tokio::sync::mpsc::UnboundedSender<String>) -> (id: ClientId)
        requires
            old(self).wf(),
            old(self).next_id < ClientId::MAX,
        ensures
            final(self).wf(),
            id == old(self).next_id,
            !old(self).has_client(id),
            final(self).has_client(id),
            final(self).client_count() == old(self).client_count() + 1,
            final(self).clients@.len() == old(self).clients@.len() + 1,
            forall|i: int|
                0 <= i < old(self).clients@.len() ==> final(self).clients@[i] == old(self).clients@[i],
            final(self).clients@.last().id == id,
            final(self).clients@.last().room@ == Seq::<char>::empty(),
            final(self).next_id == old(self).next_id + 1,
            forall|x: ClientId| final(self).has_client(x) <==> (old(self).has_client(x) || x == id),
    {
        let id = self.next_id;
        self.clients.push(Client { id, room: String::new(), tx });
        self.next_id = self.next_id + 1;
        proof {
            assert(self.clients@[self.clients@.len() - 1].id == id);
            assert forall|x: ClientId| self.has_client(x) implies (old(self).has_client(x) || x
                == id) by {
                let i = choose|i: int|
                    0 <= i < self.clients@.len() && #[trigger] self.clients@[i].id == x;
                if i < old(self).clients@.len() {
                    assert(old(self).clients@[i].id == x);
                }
            }
            assert forall|x: ClientId| (old(self).has_client(x) || x == id) implies self.has_client(
                x,
            ) by {
                if x == id {
                    assert(self.clients@[self.clients@.len() - 1].id == x);
                } else {
                    let i = choose|i: int|
                        0 <= i < old(self).clients@.len() && #[trigger] old(self).clients@[i].id
                            == x;
                    assert(self.clients@[i].id == x);
                }
            }
        }
        id
    }

    /// Removes the entry with this id, if any. Removing an absent id is a
    /// no-op; removing a present id removes exactly that one entry and leaves
    /// every other connection registered.
    pub fn unregister(&mut self, id: ClientId)
        requires
            old(self).wf(),
        ensures
            final(self).wf(),
            final(self).clients@ == without_id(old(self).clients@, id),
            !final(self).has_client(id),
            forall|x: ClientId|
                x != id ==> (final(self).has_client(x) <==> old(self).has_client(x)),
            old(self).has_client(id) ==> final(self).client_count() == old(self).client_count() - 1,
            !old(self).has_client(id) ==> final(self).clients@ == old(self).clients@,
            final(self).next_id == old(self).next_id,
    {
        let ghost orig = self.clients@;
        let mut rest: Vec<Client> = Vec::new();
        core::mem::swap(&mut rest, &mut self.clients);
        let mut kept: Vec<Client> = Vec::new();
        let ghost total = orig.len();
        proof {
            assert(orig.take(0) =~= Seq::<Client>::empty());
        }
        while rest.len() > 0
            invariant
                rest@ =~= orig.skip(total - rest@.len()),
                rest@.len() <= total,
                total == orig.len(),
                kept@ == without_id(orig.take(total - rest@.len()), id),
            decreases rest@.len(),
        {
            let ghost done = total - rest@.len();
            let c = rest.remove(0);
            proof {
                assert(c == orig[done]);
                assert(rest@ =~= orig.skip(done + 1));
                lemma_without_id_step(orig, id, done);
            }
            if c.id != id {
                kept.push(c);
            }
        }
        proof {
            assert(orig.take(total as int) =~= orig);
        }
        self.clients = kept;
        proof {
            lemma_without_id_props(orig, id);
            lemma_without_id_distinct(orig, id);
            if old(self).has_client(id) {
                lemma_without_id_len(orig, id);
            }
            if !old(self).has_client(id) {
                lemma_without_id_absent(orig, id);
            }
            assert forall|x: ClientId| x != id && self.has_client(x) implies old(self).has_client(
                x,
            ) by {
                lemma_without_id_membership(orig, id, x);
                let j = choose|j: int|
                    0 <= j < self.clients@.len() && #[trigger] self.clients@[j].id == x;
                assert(without_id(orig, id)[j].id == x);
            }
            assert forall|x: ClientId| x != id && old(self).has_client(x) implies self.has_client(
                x,
            ) by {
                assert(exists|i: int| 0 <= i < orig.len() && #[trigger] orig[i].id == x);
                lemma_without_id_membership(orig, id, x);
                let j = choose|j: int|
                    0 <= j < without_id(orig, id).len() && #[trigger] without_id(orig, id)[j].id
                        == x;
                assert(self.clients@[j].id == x);
            }
        }
    }

    /// Sets the current room of the client with this id (a no-op if the id is
    /// not registered). Every other entry, and every entry's id, is unchanged.
    pub fn set_room(&mut self, id: ClientId, room: &str)
        requires
            old(self).wf(),
        ensures
            final(self).wf(),
            final(self).next_id == old(self).next_id,
            final(self).clients@.len() == old(self).clients@.len(),
            forall|i: int|
                0 <= i < final(self).clients@.len() ==> #[trigger] final(self).clients@[i].id == old(
                    self,
                ).clients@[i].id,
            forall|i: int|
                0 <= i < final(self).clients@.len() && old(self).clients@[i].id == id
                    ==> #[trigger] final(self).clients@[i].room@ == room@,
            forall|i: int|
                0 <= i < final(self).clients@.len() && old(self).clients@[i].id != id
                    ==> #[trigger] final(self).clients@[i] == old(self).clients@[i],
            forall|x: ClientId| final(self).has_client(x) <==> old(self).has_client(x),
    {
        let n = self.clients.len();
        let mut i: usize = 0;
        while i < n
            invariant
                n == self.clients@.len(),
                i <= n,
                self.next_id == old(self).next_id,
                self.clients@.len() == old(self).clients@.len(),
                forall|j: int|
                    0 <= j < n ==> #[trigger] self.clients@[j].id == old(self).clients@[j].id,
                forall|j: int|
                    0 <= j < i && old(self).clients@[j].id == id
                        ==> #[trigger] self.clients@[j].room@ == room@,
                forall|j: int|
                    0 <= j < n && !(j < i && old(self).clients@[j].id == id)
                        ==> #[trigger] self.clients@[j] == old(self).clients@[j],
            decreases n - i,
        {
            if self.clients[i].id == id {
                self.clients[i].room = room.to_owned();
            }
            i = i + 1;
        }
        proof {
            assert forall|x: ClientId| self.has_client(x) implies old(self).has_client(x) by {
                let j = choose|j: int|
                    0 <= j < self.clients@.len() && #[trigger] self.clients@[j].id == x;
                assert(old(self).clients@[j].id == x);
            }
            assert forall|x: ClientId| old(self).has_client(x) implies self.has_client(x) by {
                let j = choose|j: int|
                    0 <= j < old(self).clients@.len() && #[trigger] old(self).clients@[j].id == x;
                assert(self.clients@[j].id == x);
            }
        }
    }

    /// A consistent point-in-time view for iteration: every registered
    /// client's id and current room, in registry order.
    pub fn snapshot(&self) -> (r: Vec<(ClientId, String)>)
        ensures
            r@.len() == self.clients@.len(),
            forall|i: int|
                0 <= i < r@.len() ==> (#[trigger] r@[i]).0 == self.clients@[i].id && r@[i].1@
                    == self.clients@[i].room@,
    {
        let n = self.clients.len();
        let mut out: Vec<(ClientId, String)> = Vec::new();
        let mut i: usize = 0;
        while i < n
            invariant
                n == self.clients@.len(),
                i <= n,
                out@.len() == i,
                forall|j: int|
                    0 <= j < i ==> (#[trigger] out@[j]).0 == self.clients@[j].id && out@[j].1@
                        == self.clients@[j].room@,
            decreases n - i,
        {
            let c = &self.clients[i];
            out.push((c.id, c.room.clone()));
            i = i + 1;
        }
        out
    }

    /// The number of currently registered connections.
    pub fn count(&self) -> (n: usize)
        ensures
            n == self.client_count(),
    {
        self.clients.len()
    }
}

/// However connections have come and gone, the registry's size is the number
/// of currently open connections: each registered id is counted exactly once,
/// so the size is the cardinality of the set of ids held. `register` grows
/// that set by exactly the one fresh id and `unregister` removes exactly the
/// one given id, so the equality is preserved by every step of every
/// connect/disconnect sequence.
pub proof fn lemma_size_counts_each_connection_once(r: Registry)
    requires
        r.wf(),
    ensures
        r.client_count() == Set::new(|x: ClientId| r.has_client(x)).len(),
{
    let ids = r.clients@.map_values(|c: Client| c.id);
    assert(ids.no_duplicates()) by {
        assert forall|i: int, j: int|
            0 <= i < ids.len() && 0 <= j < ids.len() && i != j implies ids[i] != ids[j] by {
            if i < j {
                assert(r.clients@[i].id != r.clients@[j].id);
            } else {
                assert(r.clients@[j].id != r.clients@[i].id);
            }
        }
    }
    ids.unique_seq_to_set();
    assert(Set::new(|x: ClientId| r.has_client(x)) =~= ids.to_set()) by {
        assert forall|x: ClientId| r.has_client(x) implies ids.to_set().contains(x) by {
            let i = choose|i: int|
                0 <= i < r.clients@.len() && #[trigger] r.clients@[i].id == x;
            assert(ids[i] == x);
        }
        assert forall|x: ClientId| ids.to_set().contains(x) implies r.has_client(x) by {
            let i = choose|i: int| 0 <= i < ids.len() && ids[i] == x;
            assert(r.clients@[i].id == x);
        }
    }
}

/// Dropping id `id` from a sequence extended by one element keeps or appends
/// that element according to its id.
proof fn lemma_without_id_step(s: Seq<Client>, id: ClientId, i: int)
    requires
        0 <= i < s.len(),
    ensures
        without_id(s.take(i + 1), id) == if s[i].id == id {
            without_id(s.take(i), id)
        } else {
            without_id(s.take(i), id).push(s[i])
        },
{
    assert(s.take(i + 1).drop_last() =~= s.take(i));
    assert(s.take(i + 1).last() == s[i]);
}

/// Every entry that survives the removal kept its id (which is not the
/// removed one) and came from the original sequence.
proof fn lemma_without_id_props(s: Seq<Client>, id: ClientId)
    ensures
        forall|i: int|
            0 <= i < without_id(s, id).len() ==> (#[trigger] without_id(s, id)[i]).id != id,
        forall|i: int|
            0 <= i < without_id(s, id).len() ==> s.contains(#[trigger] without_id(s, id)[i]),
        without_id(s, id).len() <= s.len(),
    decreases s.len(),
{
    if s.len() > 0 {
        lemma_without_id_props(s.drop_last(), id);
        assert forall|i: int|
            0 <= i < without_id(s.drop_last(), id).len() implies s.contains(
            #[trigger] without_id(s.drop_last(), id)[i],
        ) by {
            assert(s.drop_last().contains(without_id(s.drop_last(), id)[i]));
            let k = choose|k: int|
                0 <= k < s.drop_last().len() && s.drop_last()[k] == without_id(
                    s.drop_last(),
                    id,
                )[i];
            assert(s[k] == without_id(s.drop_last(), id)[i]);
        }
        assert(s.contains(s.last())) by {
            assert(s[s.len() - 1] == s.last());
        }
    }
}

/// Under distinct ids, the survivors' ids stay pairwise distinct.
proof fn lemma_without_id_distinct(s: Seq<Client>, id: ClientId)
    requires
        forall|m: int, n: int| 0 <= m < n < s.len() ==> #[trigger] s[m].id != #[trigger] s[n].id,
    ensures
        forall|i: int, j: int|
            0 <= i < j < without_id(s, id).len() ==> #[trigger] without_id(s, id)[i].id
                != #[trigger] without_id(s, id)[j].id,
    decreases s.len(),
{
    if s.len() > 0 {
        assert(forall|m: int, n: int|
            0 <= m < n < s.drop_last().len() ==> #[trigger] s.drop_last()[m].id
                != #[trigger] s.drop_last()[n].id);
        lemma_without_id_distinct(s.drop_last(), id);
        lemma_without_id_props(s.drop_last(), id);
        if s.last().id != id {
            let w = without_id(s, id);
            let wrest = without_id(s.drop_last(), id);
            assert forall|i: int, j: int| 0 <= i < j < w.len() implies #[trigger] w[i].id
                != #[trigger] w[j].id by {
                if j < wrest.len() {
                } else {
                    assert(w[j] == s.last());
                    assert(s.drop_last().contains(wrest[i]));
                    let k = choose|k: int|
                        0 <= k < s.drop_last().len() && s.drop_last()[k] == wrest[i];
                    assert(s[k].id != s[s.len() - 1].id);
                }
            }
        }
    }
}

/// Removing a present id (ids being distinct) shrinks the sequence by one.
proof fn lemma_without_id_len(s: Seq<Client>, id: ClientId)
    requires
        forall|m: int, n: int| 0 <= m < n < s.len() ==> #[trigger] s[m].id != #[trigger] s[n].id,
        exists|i: int| 0 <= i < s.len() && #[trigger] s[i].id == id,
    ensures
        without_id(s, id).len() == s.len() - 1,
    decreases s.len(),
{
    let i = choose|i: int| 0 <= i < s.len() && #[trigger] s[i].id == id;
    if s.last().id == id {
        lemma_without_id_absent(s.drop_last(), id);
    } else {
        assert(0 <= i < s.drop_last().len() && s.drop_last()[i].id == id);
        lemma_without_id_len(s.drop_last(), id);
    }
}

/// Removing an absent id changes nothing.
proof fn lemma_without_id_absent(s: Seq<Client>, id: ClientId)
    requires
        forall|i: int| 0 <= i < s.len() ==> #[trigger] s[i].id != id,
    ensures
        without_id(s, id) == s,
    decreases s.len(),
{
    if s.len() > 0 {
        assert(forall|i: int|
            0 <= i < s.drop_last().len() ==> #[trigger] s.drop_last()[i].id != id);
        lemma_without_id_absent(s.drop_last(), id);
        assert(without_id(s, id) =~= s) by {
            assert(without_id(s.drop_last(), id).push(s.last()) =~= s);
        }
    }
}

/// A client id other than the removed one survives the removal exactly when
/// it was there before.
proof fn lemma_without_id_membership(s: Seq<Client>, id: ClientId, x: ClientId)
    requires
        x != id,
    ensures
        (exists|i: int| 0 <= i < without_id(s, id).len() && #[trigger] without_id(s, id)[i].id == x)
            <==> (exists|i: int| 0 <= i < s.len() && #[trigger] s[i].id == x),
    decreases s.len(),
{
    if s.len() > 0 {
        lemma_without_id_membership(s.drop_last(), id, x);
        let w = without_id(s, id);
        let wrest = without_id(s.drop_last(), id);
        if exists|i: int| 0 <= i < s.len() && #[trigger] s[i].id == x {
            let i = choose|i: int| 0 <= i < s.len() && #[trigger] s[i].id == x;
            if i < s.len() - 1 {
                assert(s.drop_last()[i].id == x);
                let j = choose|j: int| 0 <= j < wrest.len() && #[trigger] wrest[j].id == x;
                if s.last().id == id {
                    assert(w[j].id == x);
                } else {
                    assert(w[j].id == x);
                }
            } else {
                assert(s.last().id == x);
                assert(w == wrest.push(s.last()));
                assert(w[w.len() - 1].id == x);
            }
        }
        if exists|i: int| 0 <= i < w.len() && #[trigger] w[i].id == x {
            let i = choose|i: int| 0 <= i < w.len() && #[trigger] w[i].id == x;
            if s.last().id == id {
                assert(wrest[i].id == x);
                let j = choose|j: int|
                    0 <= j < s.drop_last().len() && #[trigger] s.drop_last()[j].id == x;
                assert(s[j].id == x);
            } else {
                if i < wrest.len() {
                    assert(wrest[i].id == x);
                    let j = choose|j: int|
                        0 <= j < s.drop_last().len() && #[trigger] s.drop_last()[j].id == x;
                    assert(s[j].id == x);
                } else {
                    assert(w[i] == s.last());
                    assert(s[s.len() - 1].id == x);
                }
            }
        }
    }
}

} // verus!
