use vstd::prelude::*;
use crate::registry::Client;
use crate::registry::ClientId;
use crate::registry::without_id;

verus! {

/// One step of a connection history: some client connects, or the client
/// that was allocated the given id disconnects. Ids are modelled as
/// unbounded integers; the registry allocates them in the same order from
/// its 64-bit counter, which `register`'s precondition keeps from wrapping.
pub enum LifecycleStep {
    Connect,
    Disconnect(int),
}

/// How many of the first `k` steps connect. Ids are handed out in order, so
/// the connect at position `k` is allocated id `connects_before(steps, k)`.
pub open spec fn connects_before(steps: Seq<LifecycleStep>, k: int) -> int
    decreases k,
{
    if k <= 0 {
        0
    } else {
        connects_before(steps, k - 1) + (if steps[k - 1] is Connect {
            1int
        } else {
            0int
        })
    }
}

/// Whether the connection opened at step `k` is still open at the end of the
/// history: `k` connects, and no later step disconnects the id it was
/// allocated.
pub open spec fn still_open(steps: Seq<LifecycleStep>, k: int) -> bool {
    &&& 0 <= k < steps.len()
    &&& steps[k] is Connect
    &&& forall|m: int|
        k < m < steps.len() ==> steps[m] != LifecycleStep::Disconnect(connects_before(steps, k))
}

/// `s` with every occurrence of `x` removed, in order: what removing an id
/// leaves of a sequence of ids.
pub open spec fn ids_without<A>(s: Seq<A>, x: A) -> Seq<A>
    decreases s.len(),
{
    if s.len() == 0 {
        s
    } else if s.last() == x {
        ids_without(s.drop_last(), x)
    } else {
        ids_without(s.drop_last(), x).push(s.last())
    }
}

/// The ids registered after a fresh registry replays `steps`: a connect
/// appends the next id in order, a disconnect removes the given id. This is
/// exactly how `Registry::new`, `register` and `unregister` change the id
/// column of the client list (see `lemma_unregister_removes_only_that_id`).
pub open spec fn replay_ids(steps: Seq<LifecycleStep>) -> Seq<int>
    decreases steps.len(),
{
    if steps.len() == 0 {
        Seq::<int>::empty()
    } else {
        let prev = replay_ids(steps.drop_last());
        match steps.last() {
            LifecycleStep::Connect => prev.push(connects_before(steps, steps.len() - 1)),
            LifecycleStep::Disconnect(x) => ids_without(prev, x),
        }
    }
}

/// A step appended to a history does not change how many of the first `k`
/// steps connect.
proof fn lemma_connects_before_prefix(steps: Seq<LifecycleStep>, e: LifecycleStep, k: int)
    requires
        0 <= k <= steps.len(),
    ensures
        connects_before(steps.push(e), k) == connects_before(steps, k),
    decreases k,
{
    if k > 0 {
        lemma_connects_before_prefix(steps, e, k - 1);
        assert(steps.push(e)[k - 1] == steps[k - 1]);
    }
}

/// What survives the removal is everything else, in order: no survivor is
/// the removed id, every survivor was there, and every other id survives.
proof fn lemma_ids_without_membership<A>(s: Seq<A>, x: A, y: A)
    ensures
        forall|i: int| 0 <= i < ids_without(s, x).len() ==> #[trigger] ids_without(s, x)[i] != x,
        forall|i: int|
            0 <= i < ids_without(s, x).len() ==> s.contains(#[trigger] ids_without(s, x)[i]),
        y != x ==> (ids_without(s, x).contains(y) <==> s.contains(y)),
    decreases s.len(),
{
    if s.len() > 0 {
        lemma_ids_without_membership(s.drop_last(), x, y);
        let w = ids_without(s, x);
        let wrest = ids_without(s.drop_last(), x);
        assert forall|i: int| 0 <= i < w.len() implies s.contains(#[trigger] w[i]) by {
            if s.last() != x && i == w.len() - 1 {
                assert(s[s.len() - 1] == s.last());
            } else {
                assert(s.drop_last().contains(wrest[i]));
                let k = choose|k: int| 0 <= k < s.drop_last().len() && s.drop_last()[k] == wrest[i];
                assert(s[k] == wrest[i]);
            }
        }
        if y != x {
            if s.contains(y) {
                let k = choose|k: int| 0 <= k < s.len() && s[k] == y;
                if k < s.len() - 1 {
                    assert(s.drop_last()[k] == y);
                    let j = choose|j: int| 0 <= j < wrest.len() && wrest[j] == y;
                    assert(w.contains(y)) by {
                        assert(w[j] == y);
                    }
                } else {
                    assert(s.last() == y);
                    assert(w[w.len() - 1] == y);
                }
            }
            if w.contains(y) {
                let j = choose|j: int| 0 <= j < w.len() && w[j] == y;
                if s.last() != x && j == w.len() - 1 {
                    assert(s[s.len() - 1] == y);
                } else {
                    assert(wrest[j] == y);
                    assert(wrest.contains(y));
                    let k = choose|k: int|
                        0 <= k < s.drop_last().len() && s.drop_last()[k] == y;
                    assert(s[k] == y);
                }
            }
        }
    }
}

/// Removal keeps distinctness.
proof fn lemma_ids_without_distinct<A>(s: Seq<A>, x: A)
    requires
        s.no_duplicates(),
    ensures
        ids_without(s, x).no_duplicates(),
    decreases s.len(),
{
    if s.len() > 0 {
        assert(s.drop_last().no_duplicates());
        lemma_ids_without_distinct(s.drop_last(), x);
        lemma_ids_without_membership(s.drop_last(), x, x);
        if s.last() != x {
            let w = ids_without(s, x);
            let wrest = ids_without(s.drop_last(), x);
            assert forall|i: int, j: int|
                0 <= i < w.len() && 0 <= j < w.len() && i != j implies w[i] != w[j] by {
                if i < wrest.len() && j < wrest.len() {
                } else {
                    let a = if i < j { i } else { j };
                    assert(w[a] == wrest[a]);
                    assert(s.drop_last().contains(wrest[a]));
                    let k = choose|k: int|
                        0 <= k < s.drop_last().len() && s.drop_last()[k] == wrest[a];
                    assert(s[k] == wrest[a]);
                    assert(s[k] != s[s.len() - 1]);
                }
            }
        }
    }
}

/// Every id a history registers is below the number of connects in it.
proof fn lemma_replay_ids_bound(steps: Seq<LifecycleStep>)
    ensures
        forall|i: int|
            0 <= i < replay_ids(steps).len() ==> #[trigger] replay_ids(steps)[i] < connects_before(
                steps,
                steps.len() as int,
            ),
    decreases steps.len(),
{
    if steps.len() > 0 {
        let s = steps.drop_last();
        let e = steps.last();
        assert(steps =~= s.push(e));
        lemma_replay_ids_bound(s);
        lemma_connects_before_prefix(s, e, s.len() as int);
        let prev = replay_ids(s);
        match e {
            LifecycleStep::Connect => {
                assert(connects_before(steps, steps.len() as int) == connects_before(
                    steps,
                    steps.len() - 1,
                ) + 1);
            },
            LifecycleStep::Disconnect(x) => {
                lemma_ids_without_membership(prev, x, x);
                assert forall|i: int|
                    0 <= i < replay_ids(steps).len() implies #[trigger] replay_ids(steps)[i]
                    < connects_before(steps, steps.len() as int) by {
                    assert(prev.contains(ids_without(prev, x)[i]));
                    let k = choose|k: int| 0 <= k < prev.len() && prev[k] == ids_without(prev, x)[i];
                }
            },
        }
    }
}

/// A history never registers an id twice: every open connection is counted
/// exactly once, whatever the order of connects and disconnects.
pub proof fn lemma_history_registers_each_id_once(steps: Seq<LifecycleStep>)
    ensures
        replay_ids(steps).no_duplicates(),
    decreases steps.len(),
{
    if steps.len() > 0 {
        let s = steps.drop_last();
        let e = steps.last();
        assert(steps =~= s.push(e));
        lemma_history_registers_each_id_once(s);
        let prev = replay_ids(s);
        match e {
            LifecycleStep::Connect => {
                lemma_replay_ids_bound(s);
                lemma_connects_before_prefix(s, e, s.len() as int);
                assert(replay_ids(steps) == prev.push(connects_before(steps, steps.len() - 1)));
                assert(forall|i: int| 0 <= i < prev.len() ==> #[trigger] prev[i] != connects_before(
                    steps,
                    steps.len() - 1,
                ));
            },
            LifecycleStep::Disconnect(x) => {
                lemma_ids_without_distinct(prev, x);
            },
        }
    }
}

/// After any history of connects and disconnects, the registered ids are the
/// ids of exactly the still-open connections: those opened by a connect that
/// no later step closed. With `lemma_history_registers_each_id_once`, the
/// registry's size after any history is the number of currently-open,
/// not-yet-closed connections.
pub proof fn lemma_history_registers_exactly_open(steps: Seq<LifecycleStep>, x: int)
    ensures
        replay_ids(steps).contains(x) <==> exists|k: int|
            #[trigger] still_open(steps, k) && connects_before(steps, k) == x,
    decreases steps.len(),
{
    if steps.len() == 0 {
        assert(!replay_ids(steps).contains(x));
    } else {
        let s = steps.drop_last();
        let e = steps.last();
        assert(steps =~= s.push(e));
        lemma_history_registers_exactly_open(s, x);
        let prev = replay_ids(s);
        let n = steps.len() as int;
        assert forall|k: int| 0 <= k <= s.len() implies connects_before(steps, k)
            == connects_before(s, k) by {
            lemma_connects_before_prefix(s, e, k);
        }
        match e {
            LifecycleStep::Connect => {
                let fresh = connects_before(steps, n - 1);
                assert(replay_ids(steps) == prev.push(fresh));
                if prev.contains(x) || x == fresh {
                    assert(replay_ids(steps).contains(x)) by {
                        if x == fresh {
                            assert(replay_ids(steps)[prev.len() as int] == x);
                        } else {
                            let j = choose|j: int| 0 <= j < prev.len() && prev[j] == x;
                            assert(replay_ids(steps)[j] == x);
                        }
                    }
                }
                if replay_ids(steps).contains(x) {
                    let j = choose|j: int|
                        0 <= j < replay_ids(steps).len() && replay_ids(steps)[j] == x;
                    if j < prev.len() {
                        assert(prev.contains(x)) by {
                            assert(prev[j] == x);
                        }
                    }
                }
                // An id registered by the shorter history is still open after
                // the connect, and the fresh id is open with no later steps.
                if exists|k: int| #[trigger] still_open(s, k) && connects_before(s, k) == x {
                    let k = choose|k: int|
                        #[trigger] still_open(s, k) && connects_before(s, k) == x;
                    assert(still_open(steps, k)) by {
                        assert(forall|m: int| k < m < n - 1 ==> steps[m] == s[m]);
                    }
                }
                assert(still_open(steps, n - 1)) by {
                    assert(steps[n - 1] is Connect);
                }
                if exists|k: int| #[trigger] still_open(steps, k) && connects_before(steps, k)
                    == x {
                    let k = choose|k: int|
                        #[trigger] still_open(steps, k) && connects_before(steps, k) == x;
                    if k < n - 1 {
                        assert(still_open(s, k)) by {
                            assert(forall|m: int| k < m < s.len() ==> s[m] == steps[m]);
                        }
                    } else {
                        assert(x == fresh);
                    }
                }
            },
            LifecycleStep::Disconnect(y) => {
                assert(replay_ids(steps) == ids_without(prev, y));
                lemma_ids_without_membership(prev, y, x);
                if x == y {
                    assert(!replay_ids(steps).contains(x)) by {
                        if replay_ids(steps).contains(x) {
                            let j = choose|j: int|
                                0 <= j < replay_ids(steps).len() && replay_ids(steps)[j] == x;
                        }
                    }
                    if exists|k: int| #[trigger] still_open(steps, k) && connects_before(steps, k)
                        == x {
                        let k = choose|k: int|
                            #[trigger] still_open(steps, k) && connects_before(steps, k) == x;
                        assert(steps[n - 1] == LifecycleStep::Disconnect(connects_before(
                            steps,
                            k,
                        )));
                        assert(false);
                    }
                } else {
                    if exists|k: int| #[trigger] still_open(s, k) && connects_before(s, k) == x {
                        let k = choose|k: int|
                            #[trigger] still_open(s, k) && connects_before(s, k) == x;
                        assert(still_open(steps, k)) by {
                            assert(forall|m: int| k < m < n - 1 ==> steps[m] == s[m]);
                            assert(steps[n - 1] != LifecycleStep::Disconnect(connects_before(
                                steps,
                                k,
                            )));
                        }
                    }
                    if exists|k: int| #[trigger] still_open(steps, k) && connects_before(steps, k)
                        == x {
                        let k = choose|k: int|
                            #[trigger] still_open(steps, k) && connects_before(steps, k) == x;
                        assert(k < n - 1);
                        assert(still_open(s, k)) by {
                            assert(forall|m: int| k < m < s.len() ==> s[m] == steps[m]);
                        }
                    }
                }
            },
        }
    }
}

/// The bridge to the executable registry: removing a client removes exactly
/// its id from the id column, so `unregister` realises the history model's
/// disconnect step just as `register`'s push realises its connect step.
pub proof fn lemma_unregister_removes_only_that_id(s: Seq<Client>, id: ClientId)
    ensures
        without_id(s, id).map_values(|c: Client| c.id) == ids_without(
            s.map_values(|c: Client| c.id),
            id,
        ),
    decreases s.len(),
{
    if s.len() > 0 {
        lemma_unregister_removes_only_that_id(s.drop_last(), id);
        let f = |c: Client| c.id;
        assert(s.map_values(f).drop_last() =~= s.drop_last().map_values(f));
        assert(s.map_values(f).last() == s.last().id);
        if s.last().id == id {
        } else {
            assert(without_id(s, id).map_values(f) =~= without_id(s.drop_last(), id).map_values(
                f,
            ).push(s.last().id));
        }
    }
}

} // verus!
