//! Heartbeat failure detection: a member that has been silent for longer than a timeout is dead.
use crate::sorted_map::{in_order, listing, lists, lookup, SortedMap};
use crate::value::{Key, Value};
use vstd::prelude::*;

verus! {

/// An instant, in nanoseconds.
#[derive(Clone, Copy, Debug, PartialEq, Eq, PartialOrd, Ord, Structural)]
pub struct Nanos(pub u64);

impl DeepView for Nanos {
    type V = u64;

    open spec fn deep_view(&self) -> u64 {
        self.0
    }
}

impl Value for Nanos {
    fn dup(&self) -> (r: Self) {
        *self
    }

    fn same(&self, other: &Self) -> (b: bool) {
        self.0 == other.0
    }
}

/// How long after `last` the instant `now` is; nothing if it is not after it.
pub open spec fn silence(now: u64, last: u64) -> nat {
    if last <= now {
        (now - last) as nat
    } else {
        0
    }
}

/// Whether a member last seen at `last` is alive at `now`.
pub open spec fn alive_at(last: u64, now: u64, timeout: nat) -> bool {
    silence(now, last) <= timeout
}

/// The heartbeats once `node` was heard of at `now`: an instant earlier than the recorded one
/// changes nothing.
pub open spec fn after_heartbeat<N>(heartbeats: Map<N, u64>, node: N, now: u64) -> Map<N, u64> {
    match lookup(heartbeats, node) {
        Some(last) if last >= now => heartbeats,
        _ => heartbeats.insert(node, now),
    }
}

/// A failure detector over members named by `N`. It holds no clock: every verdict is a function of
/// the recorded heartbeats and the given instant.
#[derive(Debug)]
pub struct FailureDetector<N: Key> {
    /// The most recent heartbeat of each tracked member.
    last_seen: SortedMap<N, Nanos>,
    /// How many nanoseconds of silence a member survives.
    timeout: u128,
}

/// The verdict on one tracked member.
#[derive(Debug, PartialEq, Eq)]
pub struct Liveness<N> {
    /// The member.
    pub node: N,
    /// Whether a heartbeat arrived within the timeout.
    pub alive: bool,
}

impl<N: DeepView> DeepView for Liveness<N> {
    type V = (N::V, bool);

    open spec fn deep_view(&self) -> (N::V, bool) {
        (self.node.deep_view(), self.alive)
    }
}

impl<N: Key> Clone for Liveness<N> {
    fn clone(&self) -> (r: Self)
        ensures
            r.deep_view() == self.deep_view(),
    {
        Liveness { node: self.node.dup(), alive: self.alive }
    }
}

impl<N: Key> FailureDetector<N> {
    /// The instant of the most recent heartbeat of each tracked member.
    pub closed spec fn heartbeats(self) -> Map<N::V, u64> {
        self.last_seen@
    }

    /// How many nanoseconds of silence a member survives.
    pub closed spec fn limit(self) -> nat {
        self.timeout as nat
    }

    /// Whether a member is alive at `now`; one that is not tracked is not.
    pub open spec fn judges_alive(self, node: N::V, now: u64) -> bool {
        match lookup(self.heartbeats(), node) {
            Some(last) => alive_at(last, now, self.limit()),
            None => false,
        }
    }

    /// A detector that tracks no member yet. `timeout` is in nanoseconds.
    #[must_use]
    pub fn new(timeout: u128) -> (r: Self)
        ensures
            r.heartbeats() == Map::<N::V, u64>::empty(),
            r.limit() == timeout,
    {
        FailureDetector { last_seen: SortedMap::new(), timeout }
    }

    /// Records a heartbeat of `node` at `now`, and tracks it from then on. An instant earlier than
    /// the recorded one changes nothing.
    pub fn observe(&mut self, node: N, now: Nanos)
        ensures
            final(self).limit() == old(self).limit(),
            final(self).heartbeats() == after_heartbeat(
                old(self).heartbeats(),
                node.deep_view(),
                now.0,
            ),
    {
        let known: bool = match self.last_seen.get(&node) {
            Some(last) => last.0 >= now.0,
            None => false,
        };
        if !known {
            self.last_seen.insert(node, now);
        }
    }

    /// Stops tracking `node`.
    pub fn forget(&mut self, node: N)
        ensures
            final(self).limit() == old(self).limit(),
            final(self).heartbeats() == old(self).heartbeats().remove(node.deep_view()),
    {
        self.last_seen.remove(&node);
    }

    /// Whether `node` is tracked.
    #[must_use]
    pub fn tracks(&self, node: N) -> (b: bool)
        ensures
            b == self.heartbeats().contains_key(node.deep_view()),
    {
        self.last_seen.contains_key(&node)
    }

    /// Whether `node` is alive at `now`.
    #[must_use]
    pub fn is_alive(&self, node: N, now: Nanos) -> (b: bool)
        ensures
            b == self.judges_alive(node.deep_view(), now.0),
    {
        match self.last_seen.get(&node) {
            Some(last) => self.within_timeout(*last, now),
            None => false,
        }
    }

    fn within_timeout(&self, last: Nanos, now: Nanos) -> (b: bool)
        ensures
            b == alive_at(last.0, now.0, self.limit()),
    {
        let silent: u64 = if last.0 <= now.0 {
            now.0 - last.0
        } else {
            0
        };
        silent as u128 <= self.timeout
    }

    /// The verdicts on every tracked member at `now`, in ascending order.
    #[must_use]
    pub fn evaluate(&self, now: Nanos) -> (r: Vec<Liveness<N>>)
        ensures
            lists::<N>(
                listing::<N>(self.heartbeats().dom()),
                self.heartbeats().dom(),
            ),
            r.deep_view() == verdicts(
                self.heartbeats(),
                listing::<N>(self.heartbeats().dom()),
                now.0,
                self.limit(),
            ),
    {
        let n: usize = self.last_seen.len();
        let ghost keys = self.last_seen.keys();
        let mut out: Vec<Liveness<N>> = Vec::new();
        let mut i: usize = 0;
        while i < n
            invariant
                i <= n,
                n == keys.len(),
                keys == self.last_seen.keys(),
                in_order(self.last_seen),
                out.deep_view() == verdicts(
                    self.heartbeats(),
                    keys.take(i as int),
                    now.0,
                    self.limit(),
                ),
            decreases n - i,
        {
            let node: &N = self.last_seen.key_at(i);
            let last: Nanos = *self.last_seen.value_at(i);
            let ghost before = out.deep_view();
            proof {
                assert(self.last_seen@[keys[i as int]] == last.0);
            }
            let verdict = Liveness { node: node.dup(), alive: self.within_timeout(last, now) };
            let ghost added = verdict.deep_view();
            out.push(verdict);
            proof {
                assert(out.deep_view() =~= before.push(added));
                assert(out.deep_view() =~= verdicts(
                    self.heartbeats(),
                    keys.take(i + 1),
                    now.0,
                    self.limit(),
                ));
            }
            i = i + 1;
        }
        assert(keys.take(n as int) =~= keys);
        out
    }
}

impl<N: Key> Clone for FailureDetector<N> {
    fn clone(&self) -> (r: Self)
        ensures
            r.heartbeats() == self.heartbeats(),
            r.limit() == self.limit(),
    {
        FailureDetector { last_seen: self.last_seen.dup(), timeout: self.timeout }
    }
}

/// The given members beside whether each is alive.
pub open spec fn verdicts<N>(
    heartbeats: Map<N, u64>,
    nodes: Seq<N>,
    now: u64,
    timeout: nat,
) -> Seq<(N, bool)> {
    Seq::new(nodes.len(), |i: int| (nodes[i], alive_at(heartbeats[nodes[i]], now, timeout)))
}

/// Evaluating every tracked member judges each as it is judged alone.
pub proof fn evaluation_judges_each_alone<N: Key>(
    d: FailureDetector<N>,
    nodes: Seq<N::V>,
    now: u64,
    i: int,
)
    requires
        lists::<N>(nodes, d.heartbeats().dom()),
        0 <= i < nodes.len(),
    ensures
        verdicts(d.heartbeats(), nodes, now, d.limit())[i] == (
            nodes[i],
            d.judges_alive(nodes[i], now),
        ),
{
    assert(nodes.contains(nodes[i]));
}

/// A heartbeat never makes a member look more silent than it did: whoever was alive at an instant
/// is alive at that instant still after another heartbeat.
pub proof fn a_heartbeat_kills_nobody(last: u64, beat: u64, now: u64, timeout: nat)
    requires
        alive_at(last, now, timeout),
    ensures
        alive_at(if last >= beat { last } else { beat }, now, timeout),
{
}

/// Silence only grows: a member that is dead stays dead until its next heartbeat.
pub proof fn the_silent_stay_dead(last: u64, now: u64, later: u64, timeout: nat)
    requires
        now <= later,
        !alive_at(last, now, timeout),
    ensures
        !alive_at(last, later, timeout),
{
}

/// A member is alive up to the timeout after its last heartbeat, and not beyond.
pub proof fn the_timeout_decides(last: u64, now: u64, timeout: nat)
    ensures
        alive_at(last, now, timeout) <==> now <= last + timeout,
{
}

/// A detector judges a member alive exactly if it has seen a heartbeat of it no longer ago than the
/// timeout; a member that it does not track is not alive.
pub proof fn only_the_seen_are_alive<N: Key>(d: FailureDetector<N>, node: N::V, now: u64)
    ensures
        d.judges_alive(node, now) <==> d.heartbeats().contains_key(node) && now
            <= d.heartbeats()[node] + d.limit(),
{
}

/// After a heartbeat the member is tracked, last seen at the later of the heartbeat and what was
/// recorded; every other member is as it was.
pub proof fn the_latest_heartbeat_counts<N>(heartbeats: Map<N, u64>, node: N, now: u64)
    ensures
        ({
            let after = after_heartbeat(heartbeats, node, now);
            &&& after.contains_key(node)
            &&& after[node] == if heartbeats.contains_key(node) && heartbeats[node] > now {
                heartbeats[node]
            } else {
                now
            }
            &&& after.remove(node) == heartbeats.remove(node)
        }),
{
    let after = after_heartbeat(heartbeats, node, now);
    assert(after.remove(node) =~= heartbeats.remove(node));
}

} // verus!
