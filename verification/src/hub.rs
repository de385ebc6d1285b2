use vstd::prelude::*;
use crate::codec::Envelope;
use crate::codec::decode_frame;
use crate::codec::json_frame;
use crate::registry::Client;
use crate::registry::ClientId;
use crate::registry::Registry;
use crate::room_index::RoomIndex;
use crate::sink::push_text;
use crate::store::MessageStore;

verus! {

/// Whether a message tagged `room` and sent by `sender` is delivered to
/// client `c`: `c` is currently in `room`, is recorded as one of the room's
/// senders, and is not the sender itself.
pub open spec fn is_recipient(members: Seq<u64>, room: Seq<char>, sender: ClientId, c: Client) -> bool {
    c.room@ == room && members.contains(c.id) && c.id != sender
}

/// The recipients of a message among `clients`, in registry order: the ids of
/// exactly those clients that `is_recipient` selects.
pub open spec fn fanout(
    clients: Seq<Client>,
    members: Seq<u64>,
    room: Seq<char>,
    sender: ClientId,
) -> Seq<ClientId>
    decreases clients.len(),
{
    if clients.len() == 0 {
        Seq::<ClientId>::empty()
    } else {
        let rest = fanout(clients.drop_last(), members, room, sender);
        if is_recipient(members, room, sender, clients.last()) {
            rest.push(clients.last().id)
        } else {
            rest
        }
    }
}

/// Everything one message does besides touching shared state: the decoded
/// fields, the ids the text was pushed to, and whether the row reached the
/// store (false until the store write is attempted, and after a failed one).
pub struct Delivery {
    pub room_id: String,
    pub room_name: String,
    pub text: String,
    pub recipients: Vec<ClientId>,
    pub persisted: bool,
}

/// The connection registry and the room index under one owner, so that the
/// per-message update and the recipient snapshot happen as one step. A caller
/// that serialises calls on a `Hub` (for instance behind one lock) gets
/// exactly the relay's locking discipline.
pub struct Hub {
    pub registry: Registry,
    pub index: RoomIndex,
}

impl Hub {
    pub open spec fn wf(self) -> bool {
        self.registry.wf() && self.index.wf()
    }

    pub fn new() -> (r: Hub)
        ensures
            r.wf(),
            r.registry.client_count() == 0,
    {
        Hub { registry: Registry::new(), index: RoomIndex::new() }
    }

    /// A connection completed its handshake: register it, with no current
    /// room, and return its fresh id.
    pub fn connect(&mut self, tx: tokio::sync::mpsc::UnboundedSender<String>) -> (id: ClientId)
        requires
            old(self).wf(),
            old(self).registry.next_id < ClientId::MAX,
        ensures
            final(self).wf(),
            !old(self).registry.has_client(id),
            final(self).registry.has_client(id),
            final(self).registry.client_count() == old(self).registry.client_count() + 1,
            forall|i: int|
                0 <= i < old(self).registry.clients@.len() ==> final(self).registry.clients@[i]
                    == old(self).registry.clients@[i],
            final(self).registry.clients@.last().id == id,
            final(self).registry.clients@.last().room@ == Seq::<char>::empty(),
            forall|x: ClientId|
                final(self).registry.has_client(x) <==> (old(self).registry.has_client(x) || x
                    == id),
            final(self).index == old(self).index,
    {
        self.registry.register(tx)
    }

    /// A connection closed or its transport failed: remove it from the
    /// registry. The room index keeps its recorded memberships, as the relay
    /// never prunes them; the fan-out contract keeps a gone client from ever
    /// being targeted again.
    pub fn disconnect(&mut self, id: ClientId)
        requires
            old(self).wf(),
        ensures
            final(self).wf(),
            !final(self).registry.has_client(id),
            forall|x: ClientId|
                x != id ==> (final(self).registry.has_client(x) <==> old(
                    self,
                ).registry.has_client(x)),
            old(self).registry.has_client(id) ==> final(self).registry.client_count() == old(
                self,
            ).registry.client_count() - 1,
            !old(self).registry.has_client(id) ==> final(self).registry.clients@ == old(
                self,
            ).registry.clients@,
            final(self).index == old(self).index,
    {
        self.registry.unregister(id)
    }

    /// One inbound frame from `sender`, up to but not including the store
    /// write and the pushes: decode it, and when it decodes, move `sender`
    /// into the frame's room, record it as one of the room's senders, and
    /// compute the recipient set. A frame that is not well-formed JSON
    /// changes nothing and yields nothing.
    pub fn process_frame(&mut self, sender: ClientId, frame: &str) -> (r: Option<Delivery>)
        requires
            old(self).wf(),
        ensures
            final(self).wf(),
            r is Some <==> json_frame(frame@) is Some,
            json_frame(frame@) is None ==> *final(self) == *old(self),
            r matches Some(d) ==> (json_frame(frame@) matches Some(f) && {
                &&& !d.persisted
                &&& d.room_id@ == f.0
                &&& d.room_name@ == f.1
                &&& d.text@ == f.2
                &&& final(self).index.members_of(f.0) == old(self).index.members_of(f.0).push(
                    sender,
                )
                &&& forall|other: Seq<char>|
                    other != f.0 ==> final(self).index.members_of(other) == old(
                        self,
                    ).index.members_of(other)
                &&& final(self).registry.clients@.len() == old(self).registry.clients@.len()
                &&& forall|i: int|
                    0 <= i < final(self).registry.clients@.len()
                        ==> #[trigger] final(self).registry.clients@[i].id == old(
                        self,
                    ).registry.clients@[i].id
                &&& forall|i: int|
                    0 <= i < final(self).registry.clients@.len() && old(
                        self,
                    ).registry.clients@[i].id == sender
                        ==> #[trigger] final(self).registry.clients@[i].room@ == f.0
                &&& forall|i: int|
                    0 <= i < final(self).registry.clients@.len() && old(
                        self,
                    ).registry.clients@[i].id != sender
                        ==> #[trigger] final(self).registry.clients@[i] == old(
                        self,
                    ).registry.clients@[i]
                &&& forall|x: ClientId|
                    final(self).registry.has_client(x) <==> old(self).registry.has_client(x)
                &&& final(self).registry.next_id == old(self).registry.next_id
                &&& d.recipients@ == fanout(
                    final(self).registry.clients@,
                    final(self).index.members_of(f.0),
                    f.0,
                    sender,
                )
            }),
    {
        let env: Envelope = match decode_frame(frame) {
            None => {
                return None;
            },
            Some(e) => e,
        };
        self.registry.set_room(sender, env.room_id.as_str());
        self.index.join(env.room_id.as_str(), sender);
        let members = self.index.members(env.room_id.as_str());
        let n = self.registry.clients.len();
        let mut recipients: Vec<ClientId> = Vec::new();
        let ghost snap = *self;
        let ghost live = self.registry.clients@;
        let ghost ms = members@;
        let ghost room = env.room_id@;
        proof {
            assert(live.take(0) =~= Seq::<Client>::empty());
        }
        let mut i: usize = 0;
        while i < n
            invariant
                n == live.len(),
                i <= n,
                *self == snap,
                live == snap.registry.clients@,
                members@ == ms,
                room == env.room_id@,
                recipients@ == fanout(live.take(i as int), ms, room, sender),
            decreases n - i,
        {
            let c = &self.registry.clients[i];
            proof {
                lemma_fanout_step(live, ms, room, sender, i as int);
            }
            if vec_contains(&members, c.id) && c.room == env.room_id && c.id != sender {
                recipients.push(c.id);
            }
            i = i + 1;
        }
        proof {
            assert(live.take(n as int) =~= live);
        }
        Some(
            Delivery {
                room_id: env.room_id,
                room_name: env.room_name,
                text: env.text,
                recipients,
                persisted: false,
            },
        )
    }

    /// Pushes the delivery's text onto the outbound sink of every recipient.
    /// The pushes themselves are fire-and-forget; which ids are targeted is
    /// fixed by `d.recipients`.
    pub fn deliver(&self, d: &Delivery) {
        let n = self.registry.clients.len();
        let mut i: usize = 0;
        while i < n
            invariant
                n == self.registry.clients@.len(),
                i <= n,
            decreases n - i,
        {
            let c = &self.registry.clients[i];
            if vec_contains(&d.recipients, c.id) {
                push_text(&c.tx, d.text.as_str());
            }
            i = i + 1;
        }
    }

    /// One inbound frame from `sender`, whole: decode and update state as
    /// `process_frame` does, then persist the decoded fields (best effort: a
    /// store failure is swallowed, the message is still delivered) and push
    /// the text to every recipient. On success the store holds exactly the
    /// old rows plus the decoded triple; on a store failure it is unchanged;
    /// the returned delivery says which happened. Callers that guard the hub
    /// with a lock and must not hold it across the store write use
    /// `process_frame`, the store, and `deliver` separately instead.
    pub fn handle_frame(&mut self, store: &mut MessageStore, sender: ClientId, frame: &str) -> (r:
        Option<Delivery>)
        requires
            old(self).wf(),
        ensures
            final(self).wf(),
            r is Some <==> json_frame(frame@) is Some,
            json_frame(frame@) is None ==> *final(self) == *old(self),
            json_frame(frame@) is None ==> final(store).rows() == old(store).rows(),
            final(store).fresh() == old(store).fresh(),
            r matches Some(d) ==> (json_frame(frame@) matches Some(f) && {
                &&& d.persisted ==> final(store).rows() == old(store).rows().push((f.0, f.1, f.2))
                &&& !d.persisted ==> final(store).rows() == old(store).rows()
                &&& d.room_id@ == f.0
                &&& d.room_name@ == f.1
                &&& d.text@ == f.2
                &&& final(self).index.members_of(f.0) == old(self).index.members_of(f.0).push(
                    sender,
                )
                &&& forall|other: Seq<char>|
                    other != f.0 ==> final(self).index.members_of(other) == old(
                        self,
                    ).index.members_of(other)
                &&& final(self).registry.clients@.len() == old(self).registry.clients@.len()
                &&& forall|i: int|
                    0 <= i < final(self).registry.clients@.len()
                        ==> #[trigger] final(self).registry.clients@[i].id == old(
                        self,
                    ).registry.clients@[i].id
                &&& forall|i: int|
                    0 <= i < final(self).registry.clients@.len() && old(
                        self,
                    ).registry.clients@[i].id == sender
                        ==> #[trigger] final(self).registry.clients@[i].room@ == f.0
                &&& forall|i: int|
                    0 <= i < final(self).registry.clients@.len() && old(
                        self,
                    ).registry.clients@[i].id != sender
                        ==> #[trigger] final(self).registry.clients@[i] == old(
                        self,
                    ).registry.clients@[i]
                &&& forall|x: ClientId|
                    final(self).registry.has_client(x) <==> old(self).registry.has_client(x)
                &&& final(self).registry.next_id == old(self).registry.next_id
                &&& d.recipients@ == fanout(
                    final(self).registry.clients@,
                    final(self).index.members_of(f.0),
                    f.0,
                    sender,
                )
            }),
    {
        let mut d = match self.process_frame(sender, frame) {
            None => {
                return None;
            },
            Some(d) => d,
        };
        // Best-effort durability: a failed insert must not stop delivery.
        let stored = store.add_message(d.room_id.clone(), d.room_name.clone(), d.text.clone());
        d.persisted = stored.is_ok();
        self.deliver(&d);
        Some(d)
    }
}

/// Whether `x` occurs in `v`.
fn vec_contains(v: &Vec<u64>, x: u64) -> (r: bool)
    ensures
        r == v@.contains(x),
{
    let n = v.len();
    let mut i: usize = 0;
    while i < n
        invariant
            n == v@.len(),
            i <= n,
            forall|j: int| 0 <= j < i ==> v@[j] != x,
        decreases n - i,
    {
        if v[i] == x {
            return true;
        }
        i = i + 1;
    }
    false
}

/// Extending the examined prefix by one client appends that client's id to
/// the fan-out exactly when it is a recipient.
proof fn lemma_fanout_step(
    clients: Seq<Client>,
    members: Seq<u64>,
    room: Seq<char>,
    sender: ClientId,
    i: int,
)
    requires
        0 <= i < clients.len(),
    ensures
        fanout(clients.take(i + 1), members, room, sender) == if is_recipient(
            members,
            room,
            sender,
            clients[i],
        ) {
            fanout(clients.take(i), members, room, sender).push(clients[i].id)
        } else {
            fanout(clients.take(i), members, room, sender)
        },
{
    assert(clients.take(i + 1).drop_last() =~= clients.take(i));
    assert(clients.take(i + 1).last() == clients[i]);
}

/// The fan-out of a message is exactly membership: an id is targeted if and
/// only if some registered client carries it, that client's current room is
/// the message's room, the id is recorded among the room's senders, and it is
/// not the sender. In particular the sender never receives its own message.
pub proof fn lemma_fanout_exact(
    clients: Seq<Client>,
    members: Seq<u64>,
    room: Seq<char>,
    sender: ClientId,
    x: ClientId,
)
    ensures
        fanout(clients, members, room, sender).contains(x) <==> exists|i: int|
            0 <= i < clients.len() && (#[trigger] clients[i]).id == x && clients[i].room@ == room
                && members.contains(x) && x != sender,
    decreases clients.len(),
{
    if clients.len() > 0 {
        lemma_fanout_exact(clients.drop_last(), members, room, sender, x);
        let out = fanout(clients, members, room, sender);
        let rest = fanout(clients.drop_last(), members, room, sender);
        if rest.contains(x) {
            let j = choose|j: int| 0 <= j < rest.len() && rest[j] == x;
            assert(out.contains(x)) by {
                assert(out[j] == x);
            }
        }
        if exists|i: int|
            0 <= i < clients.drop_last().len() && (#[trigger] clients.drop_last()[i]).id == x
                && clients.drop_last()[i].room@ == room && members.contains(x) && x != sender {
            let i = choose|i: int|
                0 <= i < clients.drop_last().len() && (#[trigger] clients.drop_last()[i]).id == x
                    && clients.drop_last()[i].room@ == room && members.contains(x) && x != sender;
            assert(clients[i].id == x && clients[i].room@ == room);
        }
        if out.contains(x) {
            let j = choose|j: int| 0 <= j < out.len() && out[j] == x;
            if is_recipient(members, room, sender, clients.last()) && j == out.len() - 1 {
                assert(clients[clients.len() - 1].id == x);
            } else {
                assert(rest[j] == x);
                assert(rest.contains(x));
            }
        }
        if exists|i: int|
            0 <= i < clients.len() && (#[trigger] clients[i]).id == x && clients[i].room@ == room
                && members.contains(x) && x != sender {
            let i = choose|i: int|
                0 <= i < clients.len() && (#[trigger] clients[i]).id == x && clients[i].room@
                    == room && members.contains(x) && x != sender;
            if i < clients.len() - 1 {
                assert(clients.drop_last()[i].id == x && clients.drop_last()[i].room@ == room);
                assert(rest.contains(x));
                let j = choose|j: int| 0 <= j < rest.len() && rest[j] == x;
                assert(out[j] == x);
            } else {
                assert(is_recipient(members, room, sender, clients.last()));
                assert(out[out.len() - 1] == x);
            }
        }
    }
}

/// A message is never delivered to its sender.
pub proof fn lemma_fanout_excludes_sender(
    clients: Seq<Client>,
    members: Seq<u64>,
    room: Seq<char>,
    sender: ClientId,
)
    ensures
        !fanout(clients, members, room, sender).contains(sender),
{
    lemma_fanout_exact(clients, members, room, sender, sender);
}

/// Every targeted id belongs to a currently registered client, so a
/// disconnected client is never targeted again.
pub proof fn lemma_fanout_only_registered(
    clients: Seq<Client>,
    members: Seq<u64>,
    room: Seq<char>,
    sender: ClientId,
    x: ClientId,
)
    ensures
        fanout(clients, members, room, sender).contains(x) ==> exists|i: int|
            0 <= i < clients.len() && (#[trigger] clients[i]).id == x,
{
    lemma_fanout_exact(clients, members, room, sender, x);
}

/// Delivery is at most once per recipient: when no two registered clients
/// share an id (the registry's invariant), no id is targeted twice.
pub proof fn lemma_fanout_at_most_once(
    clients: Seq<Client>,
    members: Seq<u64>,
    room: Seq<char>,
    sender: ClientId,
)
    requires
        forall|i: int, j: int|
            0 <= i < j < clients.len() ==> (#[trigger] clients[i]).id != (#[trigger] clients[j]).id,
    ensures
        fanout(clients, members, room, sender).no_duplicates(),
    decreases clients.len(),
{
    if clients.len() > 0 {
        assert(forall|i: int, j: int|
            0 <= i < j < clients.drop_last().len() ==> (#[trigger] clients.drop_last()[i]).id != (
            #[trigger] clients.drop_last()[j]).id);
        lemma_fanout_at_most_once(clients.drop_last(), members, room, sender);
        let rest = fanout(clients.drop_last(), members, room, sender);
        let last = clients.last();
        if is_recipient(members, room, sender, last) {
            assert forall|k: int| 0 <= k < rest.len() implies rest[k] != last.id by {
                if rest[k] == last.id {
                    assert(rest.contains(last.id));
                    lemma_fanout_only_registered(clients.drop_last(), members, room, sender, last.id);
                    let i = choose|i: int|
                        0 <= i < clients.drop_last().len() && (#[trigger] clients.drop_last()[i]).id
                            == last.id;
                    assert(clients[i].id == clients[clients.len() - 1].id);
                }
            }
            assert(fanout(clients, members, room, sender) == rest.push(last.id));
        }
    }
}

/// A message tagged with a room whose only recorded sender is the message's
/// own sender — in particular, the first message ever tagged with that room —
/// is delivered to nobody.
pub proof fn lemma_fresh_room_no_recipients(
    clients: Seq<Client>,
    members: Seq<u64>,
    room: Seq<char>,
    sender: ClientId,
)
    requires
        members == Seq::<u64>::empty().push(sender),
    ensures
        fanout(clients, members, room, sender) == Seq::<ClientId>::empty(),
    decreases clients.len(),
{
    if clients.len() > 0 {
        lemma_fresh_room_no_recipients(clients.drop_last(), members, room, sender);
        let c = clients.last();
        if is_recipient(members, room, sender, c) {
            let j = choose|j: int| 0 <= j < members.len() && members[j] == c.id;
            assert(members[0] == sender);
            assert(false);
        }
    }
}

} // verus!
