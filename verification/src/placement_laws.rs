//! What the placement commands keep to.
use crate::command::ApplyOutcome;
use crate::ids::TabletId;
use crate::meta::MetadataModel;
use crate::placement::{
    all_active, entries, misplaced, movable, moved, placement_part, placing_move, placing_moves,
    question_of, repairs, unplaced, MoveModel, PlacementViewModel,
};
use crate::sorted_map::{listing, listing_exists};
use crate::splits::retarget_split_placing;
use crate::tablet::{normal_replicas, TabletState};
use crate::tablet_map::cas_tablet_replicas;
use crate::value::Key;
use vstd::prelude::*;

verus! {

/// The tablet that a placement command moves.
pub open spec fn moved_tablet(x: MoveModel) -> TabletId {
    match x {
        MoveModel::Cas { tablet, .. } => tablet,
        MoveModel::Retarget { tablet, .. } => tablet,
    }
}

/// What a placement command does to the metadata, and what it answers.
pub open spec fn make_move(m: MetadataModel, x: MoveModel) -> (MetadataModel, ApplyOutcome) {
    match x {
        MoveModel::Cas { tablet, expected_epoch, replicas } => cas_tablet_replicas(
            m,
            tablet,
            expected_epoch,
            replicas,
        ),
        MoveModel::Retarget { tablet, expected_epoch, target } => retarget_split_placing(
            m,
            tablet,
            expected_epoch,
            target,
        ),
    }
}

/// Repair moves only tablets that serve and have no placement obligation of their own, and only
/// where the planner wants them elsewhere; each such tablet once.
pub proof fn repair_moves_what_is_misplaced(
    v: PlacementViewModel,
    desired: Map<TabletId, Seq<Seq<char>>>,
    t: TabletId,
)
    requires
        v.policies.dom().finite(),
    ensures
        (exists|i: int|
            0 <= i < repairs(v, desired).len() && moved_tablet(#[trigger] repairs(v, desired)[i])
                == t) <==> v.policies.contains_key(t) && misplaced(v, desired)(t),
        forall|i: int, j: int|
            0 <= i < j < repairs(v, desired).len() ==> moved_tablet(
                #[trigger] repairs(v, desired)[i],
            ) != moved_tablet(#[trigger] repairs(v, desired)[j]),
{
    let p = misplaced(v, desired);
    let set = v.policies.dom().filter(p);
    v.policies.dom().lemma_len_filter(p);
    listing_exists::<TabletId>(set);
    let ids = listing::<TabletId>(set);
    let moves = repairs(v, desired);
    if exists|i: int| 0 <= i < moves.len() && moved_tablet(#[trigger] moves[i]) == t {
        let i = choose|i: int| 0 <= i < moves.len() && moved_tablet(#[trigger] moves[i]) == t;
        assert(ids.contains(ids[i]));
    }
    if set.contains(t) {
        assert(ids.contains(t));
        let i = choose|i: int| 0 <= i < ids.len() && ids[i] == t;
        assert(moved_tablet(moves[i]) == t);
    }
    assert forall|i: int, j: int| 0 <= i < j < moves.len() implies moved_tablet(
        #[trigger] moves[i],
    ) != moved_tablet(#[trigger] moves[j]) by {
        assert(TabletId::before(ids[i], ids[j]));
    }
}

/// Where every tablet stands as the planner wants it, or the planner has no answer, repair moves
/// nothing.
pub proof fn a_satisfied_cluster_is_left_alone(
    v: PlacementViewModel,
    desired: Map<TabletId, Seq<Seq<char>>>,
)
    requires
        v.policies.dom().finite(),
        forall|t: TabletId| #[trigger]
            desired.contains_key(t) && v.tablets.contains_key(t) ==> desired[t]
                == v.tablets[t].replicas,
    ensures
        repairs(v, desired).len() == 0,
{
    let moves = repairs(v, desired);
    if moves.len() > 0 {
        let t = moved_tablet(moves[0]);
        repair_moves_what_is_misplaced(v, desired, t);
        assert(desired.contains_key(t));
    }
}

/// A repair takes effect on the state that it was worked out for, and settles its tablet: the
/// planner's answer, if it is in order, moves nothing again.
pub proof fn a_repair_settles_its_tablet(
    m: MetadataModel,
    desired: Map<TabletId, Seq<Seq<char>>>,
    i: int,
)
    requires
        m.policies.dom().finite(),
        0 <= i < repairs(placement_part(m), desired).len(),
    ensures
        ({
            let x = repairs(placement_part(m), desired)[i];
            let t = moved_tablet(x);
            let (n, outcome) = make_move(m, x);
            &&& outcome == ApplyOutcome::Applied
            &&& n.tablets[t].replicas == normal_replicas(desired[t])
            &&& normal_replicas(desired[t]) == desired[t] ==> !misplaced(
                placement_part(n),
                desired,
            )(t)
        }),
{
    let v = placement_part(m);
    let x = repairs(v, desired)[i];
    repair_moves_what_is_misplaced(v, desired, moved_tablet(x));
}

/// The metadata after placement commands, the first one first.
pub open spec fn after_moves(m: MetadataModel, xs: Seq<MoveModel>) -> MetadataModel
    decreases xs.len(),
{
    if xs.len() == 0 {
        m
    } else {
        make_move(after_moves(m, xs.drop_last()), xs.last()).0
    }
}

/// A batch of repairs settles the cluster: each takes effect in its turn, and afterwards the
/// planner's answers, if they are in order, move nothing again.
pub proof fn a_batch_of_repairs_settles_the_cluster(
    m: MetadataModel,
    desired: Map<TabletId, Seq<Seq<char>>>,
)
    requires
        m.policies.dom().finite(),
        forall|t: TabletId| #[trigger]
            desired.contains_key(t) ==> normal_replicas(desired[t]) == desired[t],
    ensures
        ({
            let xs = repairs(placement_part(m), desired);
            &&& forall|i: int|
                0 <= i < xs.len() ==> make_move(after_moves(m, xs.take(i)), #[trigger] xs[i]).1
                    == ApplyOutcome::Applied
            &&& repairs(placement_part(after_moves(m, xs)), desired).len() == 0
        }),
{
    let v = placement_part(m);
    let xs = repairs(v, desired);
    let n = after_moves(m, xs);
    assert forall|i: int| 0 <= i < xs.len() implies make_move(
        after_moves(m, xs.take(i)),
        #[trigger] xs[i],
    ).1 == ApplyOutcome::Applied by {
        some_repairs_made(m, desired, i + 1);
    }
    some_repairs_made(m, desired, xs.len() as int);
    assert(xs.take(xs.len() as int) =~= xs);
    let again = repairs(placement_part(n), desired);
    if again.len() > 0 {
        let t = moved_tablet(again[0]);
        repair_moves_what_is_misplaced(placement_part(n), desired, t);
        repair_moves_what_is_misplaced(v, desired, t);
        if exists|i: int| 0 <= i < xs.len() && moved_tablet(#[trigger] xs[i]) == t {
            let i = choose|i: int| 0 <= i < xs.len() && moved_tablet(#[trigger] xs[i]) == t;
            assert(n.tablets[moved_tablet(xs[i])].replicas == desired[moved_tablet(xs[i])]);
        } else {
            assert(n.tablets[t] == m.tablets[t]);
        }
    }
}

/// After the first `n` repairs their tablets stand as the planner wants them, and nothing else has
/// changed.
proof fn some_repairs_made(m: MetadataModel, desired: Map<TabletId, Seq<Seq<char>>>, n: int)
    requires
        m.policies.dom().finite(),
        forall|t: TabletId| #[trigger]
            desired.contains_key(t) ==> normal_replicas(desired[t]) == desired[t],
        0 <= n <= repairs(placement_part(m), desired).len(),
    ensures
        ({
            let xs = repairs(placement_part(m), desired);
            let now = after_moves(m, xs.take(n));
            &&& now.policies == m.policies
            &&& now.split_placing == m.split_placing
            &&& now.tablets.dom() == m.tablets.dom()
            &&& forall|i: int|
                0 <= i < n ==> now.tablets[moved_tablet(#[trigger] xs[i])].replicas
                    == desired[moved_tablet(xs[i])]
            &&& forall|t: TabletId|
                (forall|i: int| 0 <= i < n ==> moved_tablet(#[trigger] xs[i]) != t)
                    ==> #[trigger] now.tablets[t] == m.tablets[t]
            &&& n > 0 ==> make_move(after_moves(m, xs.take(n - 1)), xs[n - 1]).1
                == ApplyOutcome::Applied
        }),
    decreases n,
{
    let v = placement_part(m);
    let xs = repairs(v, desired);
    if n > 0 {
        some_repairs_made(m, desired, n - 1);
        let x = xs[n - 1];
        let t = moved_tablet(x);
        let before = after_moves(m, xs.take(n - 1));
        let now = after_moves(m, xs.take(n));
        assert(xs.take(n).drop_last() =~= xs.take(n - 1));
        assert(xs.take(n).last() == x);
        repair_moves_what_is_misplaced(v, desired, t);
        assert(misplaced(v, desired)(t));
        assert(before.tablets[t] == m.tablets[t]) by {
            assert forall|i: int| 0 <= i < n - 1 implies moved_tablet(#[trigger] xs[i]) != t by {
                assert(moved_tablet(xs[i]) != moved_tablet(xs[n - 1]));
            }
        }
        assert(before.tablets.dom().contains(t));
        assert(now.tablets.dom() =~= m.tablets.dom());
        assert forall|i: int| 0 <= i < n implies now.tablets[moved_tablet(
            #[trigger] xs[i],
        )].replicas == desired[moved_tablet(xs[i])] by {
            if i < n - 1 {
                assert(moved_tablet(xs[i]) != moved_tablet(xs[n - 1]));
            }
        }
        assert forall|u: TabletId|
            (forall|i: int| 0 <= i < n ==> moved_tablet(#[trigger] xs[i]) != u) implies #[trigger]
            now.tablets[u] == m.tablets[u] by {
            assert(moved_tablet(xs[n - 1]) != u);
            assert(before.tablets[u] == m.tablets[u]);
        }
    } else {
        assert(xs.take(0) =~= Seq::empty());
    }
}

/// One mover at a time: a tablet with a placement obligation of its own is moved by that alone, and
/// a tablet that repair or balance may move has none.
pub proof fn one_mover_at_a_time(
    v: PlacementViewModel,
    ready: Set<TabletId>,
    answers: Map<TabletId, Seq<Seq<char>>>,
    t: TabletId,
)
    ensures
        movable(v)(t) ==> placing_move(v, ready, answers, t) is None && question_of(v, ready, t)
            is None,
        placing_move(v, ready, answers, t) is Some ==> !movable(v)(t),
{
}

/// The planner is offered, for repair and for balance, only tablets that serve and have no
/// placement obligation of their own.
pub proof fn only_movable_tablets_are_offered(v: PlacementViewModel, i: int)
    requires
        v.policies.dom().finite(),
        0 <= i < entries(v).len(),
    ensures
        movable(v)(entries(v)[i].tablet),
        v.tablets[entries(v)[i].tablet].state == TabletState::Active,
{
    let set = v.policies.dom().filter(movable(v));
    v.policies.dom().lemma_len_filter(movable(v));
    listing_exists::<TabletId>(set);
    let ids = listing::<TabletId>(set);
    assert(ids.contains(ids[i]));
}

/// A target whose members are all active is driven to as it stands, whatever the planner says now.
pub proof fn a_healthy_target_is_never_replaced(
    v: PlacementViewModel,
    ready: Set<TabletId>,
    answers: Map<TabletId, Seq<Seq<char>>>,
    t: TabletId,
)
    requires
        unplaced(v, t),
        v.split_placing[t].target matches Some(target) && all_active(v.members, target),
    ensures
        question_of(v, ready, t) is None,
        placing_move(v, ready, answers, t) matches Some(x) ==> x == (MoveModel::Cas {
            tablet: t,
            expected_epoch: v.tablets[t].epoch,
            replicas: v.split_placing[t].target->0,
        }),
{
}

/// A target that lost a member waits, unmoved, until the member has been down for long enough.
pub proof fn a_dwelling_target_is_not_moved(
    v: PlacementViewModel,
    ready: Set<TabletId>,
    answers: Map<TabletId, Seq<Seq<char>>>,
    t: TabletId,
)
    requires
        unplaced(v, t),
        v.split_placing[t].target matches Some(target) && !all_active(v.members, target),
        !ready.contains(t),
    ensures
        question_of(v, ready, t) is None,
        placing_move(v, ready, answers, t) is None,
{
}

/// Each command for a split child takes effect on the state that it was worked out for.
pub proof fn a_placing_move_takes_effect(
    m: MetadataModel,
    ready: Set<TabletId>,
    answers: Map<TabletId, Seq<Seq<char>>>,
    i: int,
)
    requires
        m.split_placing.dom().finite(),
        0 <= i < placing_moves(placement_part(m), ready, answers).len(),
    ensures
        make_move(m, placing_moves(placement_part(m), ready, answers)[i]).1
            == ApplyOutcome::Applied,
{
    let v = placement_part(m);
    let p = moved(v, ready, answers);
    let set = v.split_placing.dom().filter(p);
    v.split_placing.dom().lemma_len_filter(p);
    listing_exists::<TabletId>(set);
    let ids = listing::<TabletId>(set);
    assert(ids.contains(ids[i]));
}

} // verus!
