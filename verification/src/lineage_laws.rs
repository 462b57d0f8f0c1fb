//! Following splits: the live successors of a tablet, and the segments that a recovery replays.
use crate::ids::TabletId;
use crate::lineage::{
    acyclic, below, below_shrinks, children, climb, climb_adds, climb_prefix, descends,
    live_descendants, live_of_children, split_from,
};
use crate::meta::MetadataModel;
use crate::pitr::{pending, replay_of_tablet, replay_plan, replay_walk, replayed, segment_ref};
use crate::rows::{PitrReplaySegmentRefModel, SplitLineage};
use crate::sorted_map::{listing, listing_exists, lists};
use crate::value::Key;
use vstd::prelude::*;

verus! {

/// Whether `t` is `a` or was split from it, over however many generations.
pub open spec fn stems_from(
    lineage: Map<TabletId, SplitLineage>,
    t: TabletId,
    a: TabletId,
) -> bool {
    t == a || descends(lineage, t, a)
}

/// What was split from a tablet was split from one of its children, or is one.
proof fn descends_through_a_child(
    lineage: Map<TabletId, SplitLineage>,
    t: TabletId,
    a: TabletId,
) -> (c: TabletId)
    requires
        descends(lineage, t, a),
    ensures
        children(lineage, a).contains(c),
        stems_from(lineage, t, c),
{
    let n = choose|n: nat| n > 0 && #[trigger] climb(lineage, t, n) == Some(a);
    let c = climb(lineage, t, (n - 1) as nat)->0;
    if n > 1 {
        assert(climb(lineage, t, (n - 1) as nat) == Some(c));
    } else {
        assert(climb(lineage, t, 0) == Some(t));
    }
    c
}

/// What was split from a child of a tablet was split from the tablet.
proof fn descends_from_the_parent(
    lineage: Map<TabletId, SplitLineage>,
    t: TabletId,
    c: TabletId,
    a: TabletId,
)
    requires
        children(lineage, a).contains(c),
        stems_from(lineage, t, c),
    ensures
        descends(lineage, t, a),
{
    if t == c {
        assert(climb(lineage, c, 0) == Some(c));
        assert(climb(lineage, c, 1) == Some(a));
    } else {
        let n = choose|n: nat| n > 0 && #[trigger] climb(lineage, t, n) == Some(c);
        assert(climb(lineage, t, n + 1) == Some(a));
    }
}

/// Two children of a tablet have no descendant in common.
proof fn siblings_are_disjoint(
    lineage: Map<TabletId, SplitLineage>,
    t: TabletId,
    c: TabletId,
    d: TabletId,
    a: TabletId,
)
    requires
        acyclic(lineage),
        children(lineage, a).contains(c),
        children(lineage, a).contains(d),
        stems_from(lineage, t, c),
        stems_from(lineage, t, d),
    ensures
        c == d,
{
    assert(climb(lineage, t, 0) == Some(t));
    let n = if t == c {
        0nat
    } else {
        choose|n: nat| n > 0 && #[trigger] climb(lineage, t, n) == Some(c)
    };
    let k = if t == d {
        0nat
    } else {
        choose|k: nat| k > 0 && #[trigger] climb(lineage, t, k) == Some(d)
    };
    if n <= k {
        no_sibling_above(lineage, t, n, k, c, d, a);
    } else {
        no_sibling_above(lineage, t, k, n, d, c, a);
    }
}

proof fn no_sibling_above(
    lineage: Map<TabletId, SplitLineage>,
    t: TabletId,
    n: nat,
    k: nat,
    c: TabletId,
    d: TabletId,
    a: TabletId,
)
    requires
        acyclic(lineage),
        children(lineage, a).contains(c),
        children(lineage, a).contains(d),
        n <= k,
        climb(lineage, t, n) == Some(c),
        climb(lineage, t, k) == Some(d),
    ensures
        n == k,
{
    assert(climb(lineage, t, n + 1) == Some(a));
    assert(climb(lineage, t, k + 1) == Some(a));
    climb_adds(lineage, t, n + 1, (k - n) as nat);
    assert(n + 1 + (k - n) as nat == k + 1);
    assert(climb(lineage, a, (k - n) as nat) == Some(a));
}

/// The live successors of a tablet are live, and each is the tablet or was split from it.
proof fn live_successors_stem(m: MetadataModel, a: TabletId, t: TabletId)
    requires
        acyclic(m.split_lineage),
        m.split_lineage.dom().finite(),
        live_descendants(m, a).contains(t),
    ensures
        m.tablets.contains_key(t),
        stems_from(m.split_lineage, t, a),
    decreases
        below(m.split_lineage, a).len(),
        listing::<TabletId>(children(m.split_lineage, a)).len() + 1,
{
    if !m.tablets.contains_key(a) {
        let cs = listing::<TabletId>(children(m.split_lineage, a));
        live_of_children_stem(m, a, cs, t);
    }
}

proof fn live_of_children_stem(
    m: MetadataModel,
    a: TabletId,
    cs: Seq<TabletId>,
    t: TabletId,
)
    requires
        acyclic(m.split_lineage),
        m.split_lineage.dom().finite(),
        live_of_children(m, a, cs).contains(t),
    ensures
        m.tablets.contains_key(t),
        descends(m.split_lineage, t, a),
        exists|i: int|
            0 <= i < cs.len() && children(m.split_lineage, a).contains(cs[i]) && stems_from(
                m.split_lineage,
                t,
                #[trigger] cs[i],
            ),
    decreases below(m.split_lineage, a).len(), cs.len(),
{
    let rest = live_of_children(m, a, cs.drop_last());
    let own = live_descendants(m, cs.last());
    let i = choose|i: int|
        0 <= i < live_of_children(m, a, cs).len() && live_of_children(m, a, cs)[i] == t;
    if i < rest.len() {
        assert(rest[i] == t);
        live_of_children_stem(m, a, cs.drop_last(), t);
        let j = choose|j: int|
            0 <= j < cs.drop_last().len() && children(m.split_lineage, a).contains(
                cs.drop_last()[j],
            ) && stems_from(m.split_lineage, t, #[trigger] cs.drop_last()[j]);
        assert(cs[j] == cs.drop_last()[j]);
    } else {
        assert(own[i - rest.len()] == t);
        below_shrinks(m.split_lineage, a, cs.last());
        live_successors_stem(m, cs.last(), t);
        descends_from_the_parent(m.split_lineage, t, cs.last(), a);
        assert(stems_from(m.split_lineage, t, cs[cs.len() - 1]));
    }
}

/// Every live tablet that stems from `a` is among its live successors, where no tablet that was
/// split is live.
proof fn live_successors_are_all(m: MetadataModel, a: TabletId, t: TabletId)
    requires
        acyclic(m.split_lineage),
        m.split_lineage.dom().finite(),
        forall|c: TabletId| #[trigger]
            m.split_lineage.contains_key(c) ==> !m.tablets.contains_key(m.split_lineage[c].parent),
        m.tablets.contains_key(t),
        stems_from(m.split_lineage, t, a),
    ensures
        live_descendants(m, a).contains(t),
    decreases below(m.split_lineage, a).len(),
{
    if t == a {
        assert(live_descendants(m, a)[0] == t);
    } else {
        let c = descends_through_a_child(m.split_lineage, t, a);
        assert(!m.tablets.contains_key(a));
        below_shrinks(m.split_lineage, a, c);
        live_successors_are_all(m, c, t);
        let kids = children(m.split_lineage, a);
        m.split_lineage.dom().lemma_len_filter(split_from(m.split_lineage, a));
        listing_exists::<TabletId>(kids);
        let cs = listing::<TabletId>(kids);
        assert(cs.contains(c));
        let i = choose|i: int| 0 <= i < cs.len() && cs[i] == c;
        assert forall|j: int| 0 <= j < cs.len() implies kids.contains(#[trigger] cs[j]) by {
            assert(cs.contains(cs[j]));
        }
        live_of_children_has(m, a, cs, i, t);
    }
}

proof fn live_of_children_has(
    m: MetadataModel,
    a: TabletId,
    cs: Seq<TabletId>,
    i: int,
    t: TabletId,
)
    requires
        acyclic(m.split_lineage),
        m.split_lineage.dom().finite(),
        forall|j: int|
            0 <= j < cs.len() ==> children(m.split_lineage, a).contains(#[trigger] cs[j]),
        0 <= i < cs.len(),
        live_descendants(m, cs[i]).contains(t),
    ensures
        live_of_children(m, a, cs).contains(t),
    decreases cs.len(),
{
    let rest = live_of_children(m, a, cs.drop_last());
    let own = live_descendants(m, cs.last());
    let all = live_of_children(m, a, cs);
    assert(all == rest + own);
    if i == cs.len() - 1 {
        let k = choose|k: int| 0 <= k < own.len() && own[k] == t;
        assert(all[rest.len() + k] == t);
    } else {
        assert(cs.drop_last()[i] == cs[i]);
        assert forall|j: int| 0 <= j < cs.drop_last().len() implies children(
            m.split_lineage,
            a,
        ).contains(#[trigger] cs.drop_last()[j]) by {
            assert(cs[j] == cs.drop_last()[j]);
        }
        live_of_children_has(m, a, cs.drop_last(), i, t);
        let k = choose|k: int| 0 <= k < rest.len() && rest[k] == t;
        assert(all[k] == t);
    }
}

/// The live successors of a tablet are exactly the live tablets among it and what was split from
/// it, where no tablet that was split is live.
pub proof fn live_successors_are_exact(m: MetadataModel, a: TabletId, t: TabletId)
    requires
        acyclic(m.split_lineage),
        m.split_lineage.dom().finite(),
        forall|c: TabletId| #[trigger]
            m.split_lineage.contains_key(c) ==> !m.tablets.contains_key(m.split_lineage[c].parent),
    ensures
        live_descendants(m, a).contains(t) <==> m.tablets.contains_key(t) && stems_from(
            m.split_lineage,
            t,
            a,
        ),
{
    if live_descendants(m, a).contains(t) {
        live_successors_stem(m, a, t);
    } else if m.tablets.contains_key(t) && stems_from(m.split_lineage, t, a) {
        live_successors_are_all(m, a, t);
    }
}

/// No tablet is listed twice among the live successors of a tablet: what a split left behind is
/// counted once.
pub proof fn live_successors_are_distinct(m: MetadataModel, a: TabletId)
    requires
        acyclic(m.split_lineage),
        m.split_lineage.dom().finite(),
    ensures
        live_descendants(m, a).no_duplicates(),
    decreases
        below(m.split_lineage, a).len(),
        listing::<TabletId>(children(m.split_lineage, a)).len() + 1,
{
    if !m.tablets.contains_key(a) {
        let kids = children(m.split_lineage, a);
        m.split_lineage.dom().lemma_len_filter(split_from(m.split_lineage, a));
        listing_exists::<TabletId>(kids);
        let cs = listing::<TabletId>(kids);
        assert forall|i: int, j: int| 0 <= i < j < cs.len() implies cs[i] != cs[j] by {
            assert(TabletId::before(cs[i], cs[j]));
        }
        live_of_children_distinct(m, a, cs);
    }
}

proof fn live_of_children_distinct(m: MetadataModel, a: TabletId, cs: Seq<TabletId>)
    requires
        acyclic(m.split_lineage),
        m.split_lineage.dom().finite(),
        forall|i: int, j: int| 0 <= i < j < cs.len() ==> cs[i] != cs[j],
    ensures
        live_of_children(m, a, cs).no_duplicates(),
    decreases below(m.split_lineage, a).len(), cs.len(),
{
    if cs.len() > 0 && children(m.split_lineage, a).contains(cs.last()) {
        let rest = live_of_children(m, a, cs.drop_last());
        let own = live_descendants(m, cs.last());
        let all = live_of_children(m, a, cs);
        live_of_children_distinct(m, a, cs.drop_last());
        below_shrinks(m.split_lineage, a, cs.last());
        live_successors_are_distinct(m, cs.last());
        assert forall|i: int, j: int| 0 <= i < j < all.len() implies all[i] != all[j] by {
            if i < rest.len() && j >= rest.len() && all[i] == all[j] {
                assert(rest[i] == all[i]);
                assert(own[j - rest.len()] == all[j]);
                live_of_children_stem(m, a, cs.drop_last(), all[i]);
                live_successors_stem(m, cs.last(), all[j]);
                let k = choose|k: int|
                    0 <= k < cs.drop_last().len() && children(m.split_lineage, a).contains(
                        cs.drop_last()[k],
                    ) && stems_from(m.split_lineage, all[i], #[trigger] cs.drop_last()[k]);
                siblings_are_disjoint(
                    m.split_lineage,
                    all[i],
                    cs.drop_last()[k],
                    cs.last(),
                    a,
                );
                assert(cs[k] == cs[cs.len() - 1]);
            } else if j < rest.len() {
                assert(rest[i] == all[i] && rest[j] == all[j]);
            } else if i >= rest.len() {
                assert(own[i - rest.len()] == all[i] && own[j - rest.len()] == all[j]);
            }
        }
    }
}

/// Whether `r` refers to a recovery segment of `t` that was sealed by `cutoff` and reaches past
/// `floor`: to what of it lies past `floor`.
pub open spec fn refers_to(
    m: MetadataModel,
    t: TabletId,
    floor: u64,
    cutoff: u64,
    epoch: u64,
    r: PitrReplaySegmentRefModel,
) -> bool {
    &&& m.pitr_segments.contains_key((t, epoch))
    &&& m.pitr_segments[(t, epoch)].hlc_range.1 > floor
    &&& m.pitr_segments[(t, epoch)].seal_wall_ms <= cutoff
    &&& r == segment_ref(m.pitr_segments, (t, epoch), floor)
}

/// Where the replay of `t` starts if `root` was captured up to `cut`.
pub open spec fn replay_floor(root: TabletId, cut: u64, t: TabletId) -> u64 {
    if t == root {
        cut
    } else {
        0
    }
}

proof fn tablet_replay_is_exact(
    m: MetadataModel,
    t: TabletId,
    floor: u64,
    cutoff: u64,
    r: PitrReplaySegmentRefModel,
)
    requires
        m.pitr_segments.dom().finite(),
    ensures
        replay_of_tablet(m, t, floor, cutoff).contains(r) <==> exists|e: u64|
            refers_to(m, t, floor, cutoff, e, r),
{
    let p = replayed(m.pitr_segments, t, floor, cutoff);
    let set = m.pitr_segments.dom().filter(p);
    m.pitr_segments.dom().lemma_len_filter(p);
    listing_exists::<(TabletId, u64)>(set);
    let ids = listing::<(TabletId, u64)>(set);
    let refs = replay_of_tablet(m, t, floor, cutoff);
    if refs.contains(r) {
        let i = choose|i: int| 0 <= i < refs.len() && refs[i] == r;
        assert(ids.contains(ids[i]));
        assert(refers_to(m, t, floor, cutoff, ids[i].1, r));
    }
    if exists|e: u64| refers_to(m, t, floor, cutoff, e, r) {
        let e = choose|e: u64| refers_to(m, t, floor, cutoff, e, r);
        assert(set.contains((t, e)));
        assert(ids.contains((t, e)));
        let i = choose|i: int| 0 <= i < ids.len() && ids[i] == (t, e);
        assert(refs[i] == r);
    }
}

/// Whether `r` belongs to the replay of a stack of visits.
spec fn owed(
    m: MetadataModel,
    stack: Seq<(TabletId, bool)>,
    cut: u64,
    cutoff: u64,
    r: PitrReplaySegmentRefModel,
    j: int,
    t: TabletId,
    e: u64,
) -> bool {
    &&& 0 <= j < stack.len()
    &&& stems_from(m.split_lineage, t, stack[j].0)
    &&& refers_to(
        m,
        t,
        if stack[j].1 {
            replay_floor(stack[j].0, cut, t)
        } else {
            0
        },
        cutoff,
        e,
        r,
    )
}

proof fn a_walk_visits_no_stranger(
    m: MetadataModel,
    stack: Seq<(TabletId, bool)>,
    fuel: nat,
    cut: u64,
    cutoff: u64,
    r: PitrReplaySegmentRefModel,
)
    requires
        acyclic(m.split_lineage),
        m.split_lineage.dom().finite(),
        m.pitr_segments.dom().finite(),
        replay_walk(m, stack, fuel, cut, cutoff).contains(r),
    ensures
        exists|j: int, t: TabletId, e: u64| owed(m, stack, cut, cutoff, r, j, t, e),
    decreases fuel,
{
    let (x, is_root) = stack.last();
    let floor = if is_root {
        cut
    } else {
        0
    };
    let kids = children(m.split_lineage, x);
    let cs = listing::<TabletId>(kids);
    let next = stack.drop_last() + pending(cs);
    let own = replay_of_tablet(m, x, floor, cutoff);
    let rest = replay_walk(m, next, (fuel - 1) as nat, cut, cutoff);
    let all = replay_walk(m, stack, fuel, cut, cutoff);
    let i = choose|i: int| 0 <= i < all.len() && all[i] == r;
    if i < own.len() {
        assert(own[i] == r);
        tablet_replay_is_exact(m, x, floor, cutoff, r);
        let e = choose|e: u64| refers_to(m, x, floor, cutoff, e, r);
        assert(owed(m, stack, cut, cutoff, r, stack.len() - 1, x, e));
    } else {
        assert(rest[i - own.len()] == r);
        a_walk_visits_no_stranger(m, next, (fuel - 1) as nat, cut, cutoff, r);
        let (j, t, e) = choose|j: int, t: TabletId, e: u64| owed(m, next, cut, cutoff, r, j, t, e);
        if j < stack.len() - 1 {
            assert(next[j] == stack[j]);
            assert(owed(m, stack, cut, cutoff, r, j, t, e));
        } else {
            m.split_lineage.dom().lemma_len_filter(split_from(m.split_lineage, x));
            listing_exists::<TabletId>(kids);
            let c = cs[j - (stack.len() - 1)];
            assert(next[j] == (c, false));
            assert(cs.contains(c));
            descends_from_the_parent(m.split_lineage, t, c, x);
            assert(t != x) by {
                if t == x {
                    let n = choose|n: nat|
                        n > 0 && #[trigger] climb(m.split_lineage, t, n) == Some(x);
                    assert(climb(m.split_lineage, t, n) != Some(t));
                }
            }
            assert(owed(m, stack, cut, cutoff, r, stack.len() - 1, t, e));
        }
    }
}

/// How many visits a stack takes: each tablet on it and all that was split from it.
spec fn weight(lineage: Map<TabletId, SplitLineage>, stack: Seq<(TabletId, bool)>) -> nat
    decreases stack.len(),
{
    if stack.len() == 0 {
        0
    } else {
        weight(lineage, stack.drop_last()) + 1 + below(lineage, stack.last().0).len()
    }
}

proof fn weight_adds(
    lineage: Map<TabletId, SplitLineage>,
    a: Seq<(TabletId, bool)>,
    b: Seq<(TabletId, bool)>,
)
    ensures
        weight(lineage, a + b) == weight(lineage, a) + weight(lineage, b),
    decreases b.len(),
{
    if b.len() == 0 {
        assert(a + b =~= a);
    } else {
        weight_adds(lineage, a, b.drop_last());
        assert((a + b).drop_last() =~= a + b.drop_last());
    }
}

/// What stems from one of the first `n` of `cs`.
spec fn stemming(lineage: Map<TabletId, SplitLineage>, cs: Seq<TabletId>, n: int) -> Set<TabletId> {
    lineage.dom().filter(
        |t: TabletId| exists|i: int| 0 <= i < n && stems_from(lineage, t, #[trigger] cs[i]),
    )
}

proof fn children_weigh_their_parents_rest(
    lineage: Map<TabletId, SplitLineage>,
    x: TabletId,
    cs: Seq<TabletId>,
    n: int,
)
    requires
        acyclic(lineage),
        lineage.dom().finite(),
        lists::<TabletId>(cs, children(lineage, x)),
        0 <= n <= cs.len(),
    ensures
        stemming(lineage, cs, n).finite(),
        weight(lineage, pending(cs.take(n))) == stemming(lineage, cs, n).len(),
    decreases n,
{
    lineage.dom().lemma_len_filter(
        |t: TabletId| exists|i: int| 0 <= i < n && stems_from(lineage, t, #[trigger] cs[i]),
    );
    let set = stemming(lineage, cs, n);
    if n == 0 {
        assert(pending(cs.take(0)) =~= Seq::empty());
        assert(set =~= Set::empty());
    } else {
        children_weigh_their_parents_rest(lineage, x, cs, n - 1);
        let c = cs[n - 1];
        let before = stemming(lineage, cs, n - 1);
        let own = below(lineage, c);
        lineage.dom().lemma_len_filter(|t: TabletId| descends(lineage, t, c));
        assert(pending(cs.take(n)).drop_last() =~= pending(cs.take(n - 1)));
        assert(pending(cs.take(n)).last().0 == c);
        assert(cs.contains(c));
        assert(children(lineage, x).contains(c));
        assert(!own.contains(c)) by {
            if own.contains(c) {
                let k = choose|k: nat| k > 0 && #[trigger] climb(lineage, c, k) == Some(c);
                assert(climb(lineage, c, k) != Some(c));
            }
        }
        let mine = own.insert(c);
        assert(before.disjoint(mine)) by {
            assert forall|t: TabletId| !(before.contains(t) && mine.contains(t)) by {
                if before.contains(t) && mine.contains(t) {
                    let i = choose|i: int|
                        0 <= i < n - 1 && stems_from(lineage, t, #[trigger] cs[i]);
                    assert(cs.contains(cs[i]));
                    siblings_are_disjoint(lineage, t, cs[i], c, x);
                    assert(TabletId::before(cs[i], cs[n - 1]));
                }
            }
        }
        assert(set =~= before.union(mine)) by {
            assert forall|t: TabletId| set.contains(t) <==> before.contains(t) || mine.contains(
                t,
            ) by {
                if set.contains(t) {
                    let i = choose|i: int| 0 <= i < n && stems_from(lineage, t, #[trigger] cs[i]);
                    if i < n - 1 {
                        assert(stems_from(lineage, t, cs[i]));
                    }
                }
                if before.contains(t) {
                    let i = choose|i: int|
                        0 <= i < n - 1 && stems_from(lineage, t, #[trigger] cs[i]);
                    assert(stems_from(lineage, t, cs[i]));
                }
                if mine.contains(t) {
                    assert(stems_from(lineage, t, cs[n - 1]));
                }
            }
        }
        vstd::set_lib::lemma_set_disjoint_lens(before, mine);
    }
}

proof fn children_weigh_what_is_below(lineage: Map<TabletId, SplitLineage>, x: TabletId)
    requires
        acyclic(lineage),
        lineage.dom().finite(),
    ensures
        weight(lineage, pending(listing::<TabletId>(children(lineage, x)))) == below(
            lineage,
            x,
        ).len(),
{
    let kids = children(lineage, x);
    lineage.dom().lemma_len_filter(split_from(lineage, x));
    listing_exists::<TabletId>(kids);
    let cs = listing::<TabletId>(kids);
    children_weigh_their_parents_rest(lineage, x, cs, cs.len() as int);
    assert(cs.take(cs.len() as int) =~= cs);
    assert(stemming(lineage, cs, cs.len() as int) =~= below(lineage, x)) by {
        assert forall|t: TabletId|
            stemming(lineage, cs, cs.len() as int).contains(t) <==> below(lineage, x).contains(
                t,
            ) by {
            if stemming(lineage, cs, cs.len() as int).contains(t) {
                let i = choose|i: int|
                    0 <= i < cs.len() && stems_from(lineage, t, #[trigger] cs[i]);
                assert(cs.contains(cs[i]));
                descends_from_the_parent(lineage, t, cs[i], x);
            }
            if below(lineage, x).contains(t) {
                let c = descends_through_a_child(lineage, t, x);
                assert(cs.contains(c));
                let i = choose|i: int| 0 <= i < cs.len() && cs[i] == c;
                assert(stems_from(lineage, t, cs[i]));
            }
        }
    }
}

proof fn a_walk_misses_nothing(
    m: MetadataModel,
    stack: Seq<(TabletId, bool)>,
    fuel: nat,
    cut: u64,
    cutoff: u64,
    r: PitrReplaySegmentRefModel,
    j: int,
    t: TabletId,
    e: u64,
)
    requires
        acyclic(m.split_lineage),
        m.split_lineage.dom().finite(),
        m.pitr_segments.dom().finite(),
        weight(m.split_lineage, stack) <= fuel,
        owed(m, stack, cut, cutoff, r, j, t, e),
    ensures
        replay_walk(m, stack, fuel, cut, cutoff).contains(r),
    decreases fuel,
{
    let (x, is_root) = stack.last();
    let floor = if is_root {
        cut
    } else {
        0
    };
    let kids = children(m.split_lineage, x);
    m.split_lineage.dom().lemma_len_filter(split_from(m.split_lineage, x));
    listing_exists::<TabletId>(kids);
    let cs = listing::<TabletId>(kids);
    let next = stack.drop_last() + pending(cs);
    let own = replay_of_tablet(m, x, floor, cutoff);
    let rest = replay_walk(m, next, (fuel - 1) as nat, cut, cutoff);
    let all = replay_walk(m, stack, fuel, cut, cutoff);
    assert(all == own + rest);
    weight_adds(m.split_lineage, stack.drop_last(), pending(cs));
    children_weigh_what_is_below(m.split_lineage, x);
    if j == stack.len() - 1 && t == x {
        tablet_replay_is_exact(m, x, floor, cutoff, r);
        assert(own.contains(r));
        let i = choose|i: int| 0 <= i < own.len() && own[i] == r;
        assert(all[i] == r);
    } else {
        let k = if j < stack.len() - 1 {
            assert(next[j] == stack[j]);
            j
        } else {
            let c = descends_through_a_child(m.split_lineage, t, x);
            assert(cs.contains(c));
            let i = choose|i: int| 0 <= i < cs.len() && cs[i] == c;
            assert(next[stack.len() - 1 + i] == (c, false));
            stack.len() - 1 + i
        };
        assert(owed(m, next, cut, cutoff, r, k, t, e));
        a_walk_misses_nothing(m, next, (fuel - 1) as nat, cut, cutoff, r, k, t, e);
        let i = choose|i: int| 0 <= i < rest.len() && rest[i] == r;
        assert(all[own.len() + i] == r);
    }
}

/// Whether `r` is owed to the `j`th tablet of a base snapshot: it refers to a segment of that
/// tablet past its captured version, or to a segment of a tablet that was split from it.
pub open spec fn owed_to_base(
    m: MetadataModel,
    base: Seq<(TabletId, u64)>,
    cutoff: u64,
    r: PitrReplaySegmentRefModel,
    j: int,
    t: TabletId,
    e: u64,
) -> bool {
    &&& 0 <= j < base.len()
    &&& stems_from(m.split_lineage, t, base[j].0)
    &&& refers_to(m, t, replay_floor(base[j].0, base[j].1, t), cutoff, e, r)
}

/// A replay plan is exact: it holds every segment of the base snapshot's tablets and of all that
/// was split from them, live or not, that was sealed by the cutoff and that the snapshot does not
/// cover, and nothing else.
pub proof fn a_replay_plan_is_exact(
    m: MetadataModel,
    base: Seq<(TabletId, u64)>,
    cutoff: u64,
    r: PitrReplaySegmentRefModel,
)
    requires
        acyclic(m.split_lineage),
        m.split_lineage.dom().finite(),
        m.pitr_segments.dom().finite(),
    ensures
        replay_plan(m, base, cutoff).contains(r) <==> exists|j: int, t: TabletId, e: u64|
            owed_to_base(m, base, cutoff, r, j, t, e),
    decreases base.len(),
{
    if base.len() > 0 {
        let rest = replay_plan(m, base.drop_last(), cutoff);
        let (x, cut) = base.last();
        let stack = seq![(x, true)];
        let fuel = m.split_lineage.dom().len() + 1;
        let own = replay_walk(m, stack, fuel, cut, cutoff);
        let all = replay_plan(m, base, cutoff);
        assert(all == rest + own);
        a_replay_plan_is_exact(m, base.drop_last(), cutoff, r);
        if all.contains(r) {
            let i = choose|i: int| 0 <= i < all.len() && all[i] == r;
            if i < rest.len() {
                assert(rest[i] == r);
                let (j, t, e) = choose|j: int, t: TabletId, e: u64|
                    owed_to_base(m, base.drop_last(), cutoff, r, j, t, e);
                assert(base.drop_last()[j] == base[j]);
                assert(owed_to_base(m, base, cutoff, r, j, t, e));
            } else {
                assert(own[i - rest.len()] == r);
                a_walk_visits_no_stranger(m, stack, fuel, cut, cutoff, r);
                let (j, t, e) = choose|j: int, t: TabletId, e: u64|
                    owed(m, stack, cut, cutoff, r, j, t, e);
                assert(owed_to_base(m, base, cutoff, r, base.len() - 1, t, e));
            }
        }
        if exists|j: int, t: TabletId, e: u64| owed_to_base(m, base, cutoff, r, j, t, e) {
            let (j, t, e) = choose|j: int, t: TabletId, e: u64|
                owed_to_base(m, base, cutoff, r, j, t, e);
            if j < base.len() - 1 {
                assert(base.drop_last()[j] == base[j]);
                assert(owed_to_base(m, base.drop_last(), cutoff, r, j, t, e));
                let i = choose|i: int| 0 <= i < rest.len() && rest[i] == r;
                assert(all[i] == r);
            } else {
                assert(weight(m.split_lineage, stack) <= fuel) by {
                    assert(stack.drop_last() =~= Seq::empty());
                    assert(weight(m.split_lineage, stack.drop_last()) == 0);
                    m.split_lineage.dom().lemma_len_filter(
                        |c: TabletId| descends(m.split_lineage, c, x),
                    );
                }
                assert(owed(m, stack, cut, cutoff, r, 0, t, e));
                a_walk_misses_nothing(m, stack, fuel, cut, cutoff, r, 0, t, e);
                let i = choose|i: int| 0 <= i < own.len() && own[i] == r;
                assert(all[rest.len() + i] == r);
            }
        }
    }
}

/// Whether no two references name the same segment, and those of one tablet come in the order of
/// their epochs.
pub open spec fn names_once(refs: Seq<PitrReplaySegmentRefModel>) -> bool {
    forall|i: int, j: int|
        #![trigger refs[i], refs[j]]
        0 <= i < j < refs.len() ==> refs[i].tablet != refs[j].tablet || refs[i].epoch
            < refs[j].epoch
}

proof fn joined_plans_name_once(
    a: Seq<PitrReplaySegmentRefModel>,
    b: Seq<PitrReplaySegmentRefModel>,
)
    requires
        names_once(a),
        names_once(b),
        forall|i: int, j: int|
            #![trigger a[i], b[j]]
            0 <= i < a.len() && 0 <= j < b.len() ==> a[i].tablet != b[j].tablet,
    ensures
        names_once(a + b),
{
    let all = a + b;
    assert forall|i: int, j: int|
        #![trigger all[i], all[j]]
        0 <= i < j < all.len() implies all[i].tablet != all[j].tablet || all[i].epoch
        < all[j].epoch by {
        if j < a.len() {
            assert(all[i] == a[i] && all[j] == a[j]);
        } else if i < a.len() {
            assert(all[i] == a[i] && all[j] == b[j - a.len()]);
        } else {
            assert(all[i] == b[i - a.len()] && all[j] == b[j - a.len()]);
        }
    }
}

proof fn tablet_replay_names_once(m: MetadataModel, t: TabletId, floor: u64, cutoff: u64)
    requires
        m.pitr_segments.dom().finite(),
    ensures
        names_once(replay_of_tablet(m, t, floor, cutoff)),
        forall|i: int|
            0 <= i < replay_of_tablet(m, t, floor, cutoff).len() ==> (
            #[trigger] replay_of_tablet(m, t, floor, cutoff)[i]).tablet == t,
{
    let p = replayed(m.pitr_segments, t, floor, cutoff);
    let set = m.pitr_segments.dom().filter(p);
    m.pitr_segments.dom().lemma_len_filter(p);
    listing_exists::<(TabletId, u64)>(set);
    let ids = listing::<(TabletId, u64)>(set);
    let refs = replay_of_tablet(m, t, floor, cutoff);
    assert forall|i: int| 0 <= i < refs.len() implies (#[trigger] refs[i]).tablet == t by {
        assert(ids.contains(ids[i]));
        assert(set.contains(ids[i]));
    }
    assert forall|i: int, j: int|
        #![trigger refs[i], refs[j]]
        0 <= i < j < refs.len() implies refs[i].tablet != refs[j].tablet || refs[i].epoch
        < refs[j].epoch by {
        assert(<(TabletId, u64) as Key>::before(ids[i], ids[j]));
        assert(refs[i].epoch == ids[i].1 && refs[j].epoch == ids[j].1);
        assert(refs[i].tablet == ids[i].0 && refs[j].tablet == ids[j].0);
    }
}

/// Whether no tablet stems from two of the tablets on a stack.
spec fn apart(lineage: Map<TabletId, SplitLineage>, stack: Seq<(TabletId, bool)>) -> bool {
    forall|i: int, j: int, t: TabletId|
        #![trigger stems_from(lineage, t, stack[i].0), stems_from(lineage, t, stack[j].0)]
        0 <= i < j < stack.len() ==> !(stems_from(lineage, t, stack[i].0) && stems_from(
            lineage,
            t,
            stack[j].0,
        ))
}

/// A step of the walk keeps the pending visits apart.
proof fn a_step_keeps_apart(
    lineage: Map<TabletId, SplitLineage>,
    stack: Seq<(TabletId, bool)>,
    cs: Seq<TabletId>,
)
    requires
        acyclic(lineage),
        stack.len() > 0,
        apart(lineage, stack),
        lists::<TabletId>(cs, children(lineage, stack.last().0)),
    ensures
        apart(lineage, stack.drop_last() + pending(cs)),
{
    let x = stack.last().0;
    let n = stack.len() - 1;
    let next = stack.drop_last() + pending(cs);
    assert forall|i: int, j: int, t: TabletId|
        #![trigger stems_from(lineage, t, next[i].0), stems_from(lineage, t, next[j].0)]
        0 <= i < j < next.len() implies !(stems_from(lineage, t, next[i].0) && stems_from(
        lineage,
        t,
        next[j].0,
    )) by {
        if stems_from(lineage, t, next[i].0) && stems_from(lineage, t, next[j].0) {
            if j < n {
                assert(next[i] == stack[i] && next[j] == stack[j]);
                assert(stems_from(lineage, t, stack[i].0));
                assert(stems_from(lineage, t, stack[j].0));
            } else {
                let d = cs[j - n];
                assert(next[j].0 == d);
                assert(cs.contains(d));
                descends_from_the_parent(lineage, t, d, x);
                if i < n {
                    assert(next[i] == stack[i]);
                    assert(stems_from(lineage, t, stack[i].0));
                    assert(stems_from(lineage, t, stack[n].0));
                } else {
                    let c = cs[i - n];
                    assert(next[i].0 == c);
                    assert(cs.contains(c));
                    siblings_are_disjoint(lineage, t, c, d, x);
                    assert(TabletId::before(cs[i - n], cs[j - n]));
                }
            }
        }
    }
}

proof fn a_walk_names_once(
    m: MetadataModel,
    stack: Seq<(TabletId, bool)>,
    fuel: nat,
    cut: u64,
    cutoff: u64,
)
    requires
        acyclic(m.split_lineage),
        m.split_lineage.dom().finite(),
        m.pitr_segments.dom().finite(),
        apart(m.split_lineage, stack),
    ensures
        names_once(replay_walk(m, stack, fuel, cut, cutoff)),
    decreases fuel,
{
    if stack.len() > 0 && fuel > 0 {
        let (x, is_root) = stack.last();
        let floor = if is_root {
            cut
        } else {
            0
        };
        let kids = children(m.split_lineage, x);
        m.split_lineage.dom().lemma_len_filter(split_from(m.split_lineage, x));
        listing_exists::<TabletId>(kids);
        let cs = listing::<TabletId>(kids);
        let next = stack.drop_last() + pending(cs);
        let own = replay_of_tablet(m, x, floor, cutoff);
        let rest = replay_walk(m, next, (fuel - 1) as nat, cut, cutoff);
        a_step_keeps_apart(m.split_lineage, stack, cs);
        a_walk_names_once(m, next, (fuel - 1) as nat, cut, cutoff);
        tablet_replay_names_once(m, x, floor, cutoff);
        assert forall|i: int, j: int|
            #![trigger own[i], rest[j]]
            0 <= i < own.len() && 0 <= j < rest.len() implies own[i].tablet != rest[j].tablet by {
            let r = rest[j];
            a_walk_visits_no_stranger(m, next, (fuel - 1) as nat, cut, cutoff, r);
            let (k, t, e) = choose|k: int, t: TabletId, e: u64|
                owed(m, next, cut, cutoff, r, k, t, e);
            assert(r.tablet == t);
            if t == x {
                let n = stack.len() - 1;
                if k < n {
                    assert(next[k] == stack[k]);
                    assert(stems_from(m.split_lineage, x, stack[k].0));
                    assert(stems_from(m.split_lineage, x, stack[n].0));
                } else {
                    let c = cs[k - n];
                    assert(next[k].0 == c);
                    assert(cs.contains(c));
                    descends_from_the_parent(m.split_lineage, x, c, x);
                    let up = choose|up: nat|
                        up > 0 && #[trigger] climb(m.split_lineage, x, up) == Some(x);
                    assert(climb(m.split_lineage, x, up) != Some(x));
                }
            }
        }
        joined_plans_name_once(own, rest);
    }
}

/// Two tablets from which a third stems: one of them stems from the other.
pub proof fn ancestors_form_a_chain(
    lineage: Map<TabletId, SplitLineage>,
    t: TabletId,
    a: TabletId,
    b: TabletId,
)
    requires
        stems_from(lineage, t, a),
        stems_from(lineage, t, b),
    ensures
        stems_from(lineage, a, b) || stems_from(lineage, b, a),
{
    assert(climb(lineage, t, 0) == Some(t));
    let n = if t == a {
        0nat
    } else {
        choose|n: nat| n > 0 && #[trigger] climb(lineage, t, n) == Some(a)
    };
    let k = if t == b {
        0nat
    } else {
        choose|k: nat| k > 0 && #[trigger] climb(lineage, t, k) == Some(b)
    };
    if n < k {
        climb_adds(lineage, t, n, (k - n) as nat);
        assert(n + (k - n) as nat == k);
        assert(climb(lineage, a, (k - n) as nat) == Some(b));
    } else if k < n {
        climb_adds(lineage, t, k, (n - k) as nat);
        assert(k + (n - k) as nat == n);
        assert(climb(lineage, b, (n - k) as nat) == Some(a));
    }
}

/// A replay plan repeats nothing: where no tablet of the base snapshot stems from another, as
/// where there is only one, each segment is named at most once, and those of one tablet come in
/// the order of their epochs.
pub proof fn a_replay_plan_repeats_nothing(
    m: MetadataModel,
    base: Seq<(TabletId, u64)>,
    cutoff: u64,
)
    requires
        acyclic(m.split_lineage),
        m.split_lineage.dom().finite(),
        m.pitr_segments.dom().finite(),
        forall|i: int, j: int|
            #![trigger base[i], base[j]]
            0 <= i < base.len() && 0 <= j < base.len() && i != j ==> !stems_from(
                m.split_lineage,
                base[i].0,
                base[j].0,
            ),
    ensures
        names_once(replay_plan(m, base, cutoff)),
        replay_plan(m, base, cutoff).no_duplicates(),
    decreases base.len(),
{
    if base.len() > 0 {
        let first = base.drop_last();
        let (x, cut) = base.last();
        let stack = seq![(x, true)];
        let fuel = m.split_lineage.dom().len() + 1;
        let rest = replay_plan(m, first, cutoff);
        let own = replay_walk(m, stack, fuel, cut, cutoff);
        assert forall|i: int, j: int|
            #![trigger first[i], first[j]]
            0 <= i < first.len() && 0 <= j < first.len() && i != j implies !stems_from(
            m.split_lineage,
            first[i].0,
            first[j].0,
        ) by {
            assert(first[i] == base[i] && first[j] == base[j]);
        }
        a_replay_plan_repeats_nothing(m, first, cutoff);
        a_walk_names_once(m, stack, fuel, cut, cutoff);
        assert forall|i: int, j: int|
            #![trigger rest[i], own[j]]
            0 <= i < rest.len() && 0 <= j < own.len() implies rest[i].tablet != own[j].tablet by {
            let r = rest[i];
            let s = own[j];
            a_replay_plan_is_exact(m, first, cutoff, r);
            assert(rest.contains(r));
            let (k, t, e) = choose|k: int, t: TabletId, e: u64|
                owed_to_base(m, first, cutoff, r, k, t, e);
            a_walk_visits_no_stranger(m, stack, fuel, cut, cutoff, s);
            let (l, u, d) = choose|l: int, u: TabletId, d: u64|
                owed(m, stack, cut, cutoff, s, l, u, d);
            assert(r.tablet == t && s.tablet == u);
            if t == u {
                assert(first[k] == base[k] && base[base.len() - 1].0 == x);
                ancestors_form_a_chain(m.split_lineage, t, base[k].0, x);
            }
        }
        joined_plans_name_once(rest, own);
    }
}

/// Every reference of a replay plan names the object of the sealed segment that it stands for, and
/// what of it is to be replayed: from the later of the segment's start and the version that the
/// base captured, to the segment's end. Only the base's own tablets were captured; what was split
/// from them is replayed from its start. The segment was sealed by the cutoff and reaches past
/// what was captured.
pub proof fn a_replay_reference_names_its_segment(
    m: MetadataModel,
    base: Seq<(TabletId, u64)>,
    cutoff: u64,
    i: int,
)
    requires
        acyclic(m.split_lineage),
        m.split_lineage.dom().finite(),
        m.pitr_segments.dom().finite(),
        0 <= i < replay_plan(m, base, cutoff).len(),
    ensures
        ({
            let r = replay_plan(m, base, cutoff)[i];
            let row = m.pitr_segments[(r.tablet, r.epoch)];
            &&& m.pitr_segments.contains_key((r.tablet, r.epoch))
            &&& r.object_id == row.object_id
            &&& row.seal_wall_ms <= cutoff
            &&& exists|j: int|
                {
                    let cut = if r.tablet == (#[trigger] base[j]).0 {
                        base[j].1
                    } else {
                        0
                    };
                    &&& 0 <= j < base.len()
                    &&& stems_from(m.split_lineage, r.tablet, base[j].0)
                    &&& r.replay_range.1 == row.hlc_range.1
                    &&& r.replay_range.0 == if cut < row.hlc_range.0 {
                        row.hlc_range.0
                    } else {
                        cut
                    }
                    &&& cut < row.hlc_range.1
                }
        }),
{
    let plan = replay_plan(m, base, cutoff);
    let r = plan[i];
    assert(plan.contains(r));
    a_replay_plan_is_exact(m, base, cutoff, r);
    let (j, t, e) = choose|j: int, t: TabletId, e: u64|
        owed_to_base(m, base, cutoff, r, j, t, e);
    assert(r.tablet == t && r.epoch == e);
    assert(base[j].0 == base[j].0);
}

/// A replay plan misses nothing: every segment of a tablet of the base, or of one that was split
/// from it, is referred to if it was sealed by the cutoff and reaches past what was captured.
pub proof fn a_replay_plan_misses_nothing(
    m: MetadataModel,
    base: Seq<(TabletId, u64)>,
    cutoff: u64,
    j: int,
    t: TabletId,
    e: u64,
)
    requires
        acyclic(m.split_lineage),
        m.split_lineage.dom().finite(),
        m.pitr_segments.dom().finite(),
        0 <= j < base.len(),
        stems_from(m.split_lineage, t, base[j].0),
        m.pitr_segments.contains_key((t, e)),
        m.pitr_segments[(t, e)].seal_wall_ms <= cutoff,
        m.pitr_segments[(t, e)].hlc_range.1 > if t == base[j].0 {
            base[j].1
        } else {
            0
        },
    ensures
        exists|i: int|
            0 <= i < replay_plan(m, base, cutoff).len() && (#[trigger] replay_plan(
                m,
                base,
                cutoff,
            )[i]).tablet == t && replay_plan(m, base, cutoff)[i].epoch == e,
{
    let plan = replay_plan(m, base, cutoff);
    let r = segment_ref(m.pitr_segments, (t, e), replay_floor(base[j].0, base[j].1, t));
    assert(owed_to_base(m, base, cutoff, r, j, t, e));
    a_replay_plan_is_exact(m, base, cutoff, r);
    let i = choose|i: int| 0 <= i < plan.len() && plan[i] == r;
    assert(plan[i].tablet == t && plan[i].epoch == e);
}

/// What descends from a tablet is what its splits lead to: its children, and what descends from
/// them.
pub proof fn descent_follows_the_splits(
    lineage: Map<TabletId, SplitLineage>,
    t: TabletId,
    a: TabletId,
)
    ensures
        descends(lineage, t, a) <==> lineage.contains_key(t) && (lineage[t].parent == a || descends(
            lineage,
            lineage[t].parent,
            a,
        )),
{
    if descends(lineage, t, a) {
        let n = choose|n: nat| n > 0 && #[trigger] climb(lineage, t, n) == Some(a);
        assert(climb(lineage, t, 0) == Some(t));
        climb_prefix(lineage, t, n, 1);
        assert(climb(lineage, t, 1) == Some(lineage[t].parent));
        climb_adds(lineage, t, 1, (n - 1) as nat);
        assert(1 + (n - 1) as nat == n);
        if n > 1 {
            assert(climb(lineage, lineage[t].parent, (n - 1) as nat) == Some(a));
        }
    }
    if lineage.contains_key(t) {
        let p = lineage[t].parent;
        assert(climb(lineage, t, 0) == Some(t));
        assert(climb(lineage, t, 1) == Some(p));
        if descends(lineage, p, a) {
            let n = choose|n: nat| n > 0 && #[trigger] climb(lineage, p, n) == Some(a);
            climb_adds(lineage, t, 1, n);
            assert(climb(lineage, t, 1 + n) == Some(a));
        }
    }
}

} // verus!
