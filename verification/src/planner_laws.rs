//! What the planner is asked, and what becomes of its answers, field by field.
use crate::advice::AdviceModel;
use crate::apply::{asked_placement, step};
use crate::command::{ApplyOutcome, MetaCommand};
use crate::ids::{NodeId, TabletId};
use crate::meta::MetadataModel;
use crate::placement::{
    active, are_moves, asked, balancing, candidates, entries, misplaced, movable, move_of, moved,
    placement_part, placing_move, placing_moves, question_of, questions, repairs, MoveModel,
    PlacementViewModel,
};
use crate::rows::{MemberModel, NodeStatus};
use crate::sorted_map::{listing, listing_exists};
use crate::tablet::TabletState;
use crate::tablet_laws::{a_replaced_replica_set_is_as_asked, in_order_of};
use crate::value::Key;
use vstd::prelude::*;

verus! {

/// A placement command is the move that it stands for, in every part.
pub proof fn a_command_is_the_move_it_stands_for(c: MetaCommand, x: MoveModel)
    ensures
        move_of(c) == Some(x) <==> match x {
            MoveModel::Cas { tablet, expected_epoch, replicas } => c is CasTabletReplicas
                && c->CasTabletReplicas_tablet == tablet && c->CasTabletReplicas_expected_epoch
                == expected_epoch && c->CasTabletReplicas_replicas.deep_view() == replicas,
            MoveModel::Retarget { tablet, expected_epoch, target } => c is RetargetSplitPlacing
                && c->RetargetSplitPlacing_tablet == tablet
                && c->RetargetSplitPlacing_expected_epoch == expected_epoch
                && c->RetargetSplitPlacing_target.deep_view() == target,
        },
{
}

/// The commands that stand for a list of moves are those moves, one for one and in that order.
pub proof fn commands_are_the_moves_they_stand_for(cs: Seq<MetaCommand>, xs: Seq<MoveModel>)
    ensures
        are_moves(cs, xs) <==> cs.len() == xs.len() && forall|i: int|
            0 <= i < xs.len() ==> move_of(cs[i]) == Some(#[trigger] xs[i]),
{
}

/// The part of the metadata that placement reads is what the metadata has.
pub proof fn placement_reads_what_is_there(m: MetadataModel)
    ensures
        placement_part(m).members == m.members,
        placement_part(m).tablets == m.tablets,
        placement_part(m).policies == m.policies,
        placement_part(m).split_placing == m.split_placing,
{
}

/// The candidates are the active members, each once, with its own labels, in ascending order.
pub proof fn the_candidates_are_the_active_members(members: Map<Seq<char>, MemberModel>)
    requires
        members.dom().finite(),
    ensures
        ({
            let cs = candidates(members);
            &&& forall|i: int|
                0 <= i < cs.len() ==> {
                    let c = #[trigger] cs[i];
                    &&& members.contains_key(c.node)
                    &&& members[c.node].status == NodeStatus::Active
                    &&& c.labels == members[c.node].labels
                }
            &&& forall|i: int, j: int|
                0 <= i < j < cs.len() ==> NodeId::before(
                    (#[trigger] cs[i]).node,
                    (#[trigger] cs[j]).node,
                )
            &&& forall|n: Seq<char>| #[trigger]
                members.contains_key(n) && members[n].status == NodeStatus::Active ==> exists|i:
                    int|
                    0 <= i < cs.len() && (#[trigger] cs[i]).node == n
        }),
{
    let set = members.dom().filter(active(members));
    members.dom().lemma_len_filter(active(members));
    listing_exists::<NodeId>(set);
    let ids = listing::<NodeId>(set);
    let cs = candidates(members);
    assert forall|i: int| 0 <= i < cs.len() implies ({
        let c = #[trigger] cs[i];
        &&& members.contains_key(c.node)
        &&& members[c.node].status == NodeStatus::Active
        &&& c.labels == members[c.node].labels
    }) by {
        assert(ids.contains(ids[i]));
    }
    assert forall|i: int, j: int| 0 <= i < j < cs.len() implies NodeId::before(
        (#[trigger] cs[i]).node,
        (#[trigger] cs[j]).node,
    ) by {
        assert(NodeId::before(ids[i], ids[j]));
    }
    assert forall|n: Seq<char>| #[trigger]
        members.contains_key(n) && members[n].status == NodeStatus::Active implies exists|i: int|
        0 <= i < cs.len() && (#[trigger] cs[i]).node == n by {
        assert(set.contains(n));
        assert(ids.contains(n));
        let i = choose|i: int| 0 <= i < ids.len() && ids[i] == n;
        assert(cs[i].node == n);
    }
}

/// A cutover asks for a placement exactly if the parent has a policy: by that policy, among the
/// active members.
pub proof fn a_cutover_asks_by_the_parents_policy(m: MetadataModel, c: MetaCommand)
    ensures
        asked_placement(m, c) is Some <==> c is CutoverSplit && m.policies.contains_key(
            c->CutoverSplit_parent,
        ),
        asked_placement(m, c) is Some ==> (asked_placement(m, c)->0).0 == candidates(m.members)
            && (asked_placement(m, c)->0).1 == m.policies[c->CutoverSplit_parent],
{
}

/// Whether a tablet may be moved: it has a policy, serves, and has no open obligation of its own.
pub open spec fn may_move(v: PlacementViewModel, t: TabletId) -> bool {
    &&& v.policies.contains_key(t)
    &&& v.tablets.contains_key(t)
    &&& v.tablets[t].state == TabletState::Active
    &&& v.split_placing.contains_key(t) ==> v.split_placing[t].done
}

/// The planner is asked about every tablet that may be moved, once, with the nodes that it stands
/// on and the policy that it has, in ascending order, and about no other.
pub proof fn the_planner_is_asked_about_what_may_move(v: PlacementViewModel)
    requires
        v.policies.dom().finite(),
    ensures
        ({
            let es = entries(v);
            &&& forall|i: int|
                0 <= i < es.len() ==> {
                    let e = #[trigger] es[i];
                    &&& may_move(v, e.tablet)
                    &&& e.replicas == v.tablets[e.tablet].replicas
                    &&& e.policy == v.policies[e.tablet]
                }
            &&& forall|i: int, j: int|
                0 <= i < j < es.len() ==> (#[trigger] es[i]).tablet.0 < (#[trigger] es[j]).tablet.0
            &&& forall|t: TabletId| #[trigger]
                may_move(v, t) ==> exists|i: int|
                    0 <= i < es.len() && (#[trigger] es[i]).tablet == t
        }),
{
    let set = v.policies.dom().filter(movable(v));
    v.policies.dom().lemma_len_filter(movable(v));
    listing_exists::<TabletId>(set);
    let ids = listing::<TabletId>(set);
    let es = entries(v);
    assert forall|i: int| 0 <= i < es.len() implies ({
        let e = #[trigger] es[i];
        &&& may_move(v, e.tablet)
        &&& e.replicas == v.tablets[e.tablet].replicas
        &&& e.policy == v.policies[e.tablet]
    }) by {
        assert(ids.contains(ids[i]));
    }
    assert forall|i: int, j: int| 0 <= i < j < es.len() implies (#[trigger] es[i]).tablet.0 < (
    #[trigger] es[j]).tablet.0 by {
        assert(TabletId::before(ids[i], ids[j]));
    }
    assert forall|t: TabletId| #[trigger] may_move(v, t) implies exists|i: int|
        0 <= i < es.len() && (#[trigger] es[i]).tablet == t by {
        assert(set.contains(t));
        assert(ids.contains(t));
        let i = choose|i: int| 0 <= i < ids.len() && ids[i] == t;
        assert(es[i].tablet == t);
    }
}

/// Repair moves every tablet that may be moved and stands elsewhere than the planner wants it, to
/// where the planner wants it and at the epoch that it has; each once, and no other.
pub proof fn repair_moves_as_the_planner_wants(
    v: PlacementViewModel,
    desired: Map<TabletId, Seq<Seq<char>>>,
)
    requires
        v.policies.dom().finite(),
    ensures
        ({
            let xs = repairs(v, desired);
            &&& forall|i: int|
                0 <= i < xs.len() ==> {
                    &&& (#[trigger] xs[i]) is Cas
                    &&& may_move(v, xs[i]->Cas_tablet)
                    &&& desired.contains_key(xs[i]->Cas_tablet)
                    &&& desired[xs[i]->Cas_tablet] != v.tablets[xs[i]->Cas_tablet].replicas
                    &&& xs[i]->Cas_expected_epoch == v.tablets[xs[i]->Cas_tablet].epoch
                    &&& xs[i]->Cas_replicas == desired[xs[i]->Cas_tablet]
                }
            &&& forall|i: int, j: int|
                0 <= i < j < xs.len() ==> (#[trigger] xs[i])->Cas_tablet.0 < (
                #[trigger] xs[j])->Cas_tablet.0
            &&& forall|t: TabletId| #[trigger]
                may_move(v, t) && desired.contains_key(t) && desired[t] != v.tablets[t].replicas
                    ==> exists|i: int| 0 <= i < xs.len() && (#[trigger] xs[i])->Cas_tablet == t
        }),
{
    let set = v.policies.dom().filter(misplaced(v, desired));
    v.policies.dom().lemma_len_filter(misplaced(v, desired));
    listing_exists::<TabletId>(set);
    let ids = listing::<TabletId>(set);
    let xs = repairs(v, desired);
    assert forall|i: int| 0 <= i < xs.len() implies {
        &&& (#[trigger] xs[i]) is Cas
        &&& may_move(v, xs[i]->Cas_tablet)
        &&& desired.contains_key(xs[i]->Cas_tablet)
        &&& desired[xs[i]->Cas_tablet] != v.tablets[xs[i]->Cas_tablet].replicas
        &&& xs[i]->Cas_expected_epoch == v.tablets[xs[i]->Cas_tablet].epoch
        &&& xs[i]->Cas_replicas == desired[xs[i]->Cas_tablet]
    } by {
        assert(ids.contains(ids[i]));
    }
    assert forall|i: int, j: int| 0 <= i < j < xs.len() implies (#[trigger] xs[i])->Cas_tablet.0 < (
    #[trigger] xs[j])->Cas_tablet.0 by {
        assert(TabletId::before(ids[i], ids[j]));
    }
    assert forall|t: TabletId| #[trigger]
        may_move(v, t) && desired.contains_key(t) && desired[t] != v.tablets[t].replicas implies
        exists|i: int| 0 <= i < xs.len() && (#[trigger] xs[i])->Cas_tablet == t by {
        assert(set.contains(t));
        assert(ids.contains(t));
        let i = choose|i: int| 0 <= i < ids.len() && ids[i] == t;
        assert(xs[i]->Cas_tablet == t);
    }
}

/// A balancing step becomes a command exactly if its tablet is in the map, and takes effect: the
/// tablet is then held by the nodes of the step, one epoch on, and all else of it and every other
/// tablet stay.
pub proof fn a_balancing_wishtakes_effect(
    m: MetadataModel,
    wish: Option<(TabletId, Seq<Seq<char>>)>,
    c: MetaCommand,
    a: AdviceModel,
)
    requires
        wish is Some && m.tablets.contains_key((wish->0).0) ==> m.tablets[(wish->0).0].epoch.0
            < u64::MAX,
    ensures
        balancing(placement_part(m), wish) is Some <==> wish is Some && m.tablets.contains_key(
            (wish->0).0,
        ),
        wish is Some && m.tablets.contains_key((wish->0).0) && move_of(c) == balancing(
            placement_part(m),
            wish,
        ) ==> {
            let (t, nodes) = wish->0;
            let (n, outcome) = step(m, c, a);
            &&& outcome == ApplyOutcome::Applied
            &&& n.tablets.contains_key(t)
            &&& in_order_of(n.tablets[t].replicas, nodes)
            &&& n.tablets[t].epoch.0 == m.tablets[t].epoch.0 + 1
            &&& n.tablets[t].table == m.tablets[t].table
            &&& n.tablets[t].range == m.tablets[t].range
            &&& n.tablets[t].state == m.tablets[t].state
            &&& n.tablets[t].inplace_split == m.tablets[t].inplace_split
            &&& n.tablets.remove(t) == m.tablets.remove(t)
            &&& n == MetadataModel { tablets: n.tablets, ..m }
        },
{
    if wish is Some && m.tablets.contains_key((wish->0).0) && move_of(c) == balancing(
        placement_part(m),
        wish,
    ) {
        let (t, nodes) = wish->0;
        assert(c is CasTabletReplicas);
        assert(c->CasTabletReplicas_tablet == t);
        assert(c->CasTabletReplicas_expected_epoch == m.tablets[t].epoch);
        assert(c->CasTabletReplicas_replicas.deep_view() == nodes);
        a_replaced_replica_set_is_as_asked(m, c, a);
    }
}

/// Whether a split child has an open obligation and a policy to meet it by.
pub open spec fn is_open(v: PlacementViewModel, t: TabletId) -> bool {
    &&& v.split_placing.contains_key(t)
    &&& !v.split_placing[t].done
    &&& v.tablets.contains_key(t)
    &&& v.policies.contains_key(t)
}

/// Whether the target of a split child is set and every node of it is an active member.
pub open spec fn is_healthy(v: PlacementViewModel, t: TabletId) -> bool {
    &&& v.split_placing[t].target is Some
    &&& forall|n: Seq<char>| #[trigger]
        v.split_placing[t].target->0.contains(n) ==> v.members.contains_key(n)
            && v.members[n].status == NodeStatus::Active
}

proof fn health_is_that_of_every_node(v: PlacementViewModel, t: TabletId)
    requires
        v.split_placing[t].target is Some,
    ensures
        crate::placement::all_active(v.members, v.split_placing[t].target->0) == is_healthy(v, t),
{
    let target = v.split_placing[t].target->0;
    if is_healthy(v, t) {
        assert forall|i: int| 0 <= i < target.len() implies v.members.contains_key(
            #[trigger] target[i],
        ) && v.members[target[i]].status == NodeStatus::Active by {
            assert(target.contains(target[i]));
        }
    }
}

/// The planner is asked about every split child with an open obligation that has no target,
/// whatever is ready, and about every one whose target has lost a member once it is ready. It is
/// asked to repair that target by the child's policy, each child once, in ascending order, and
/// about no other.
pub proof fn the_planner_is_asked_about_unplaced_children(
    v: PlacementViewModel,
    ready: Set<TabletId>,
)
    requires
        v.split_placing.dom().finite(),
    ensures
        ({
            let qs = questions(v, ready);
            &&& forall|i: int|
                0 <= i < qs.len() ==> {
                    let q = #[trigger] qs[i];
                    &&& is_open(v, q.tablet)
                    &&& !is_healthy(v, q.tablet)
                    &&& q.current == v.split_placing[q.tablet].target
                    &&& q.current is Some ==> ready.contains(q.tablet)
                    &&& q.policy == v.policies[q.tablet]
                }
            &&& forall|i: int, j: int|
                0 <= i < j < qs.len() ==> (#[trigger] qs[i]).tablet.0 < (#[trigger] qs[j]).tablet.0
            &&& forall|t: TabletId| #[trigger]
                is_open(v, t) && !is_healthy(v, t) && (v.split_placing[t].target is None
                    || ready.contains(t)) ==> exists|i: int|
                    0 <= i < qs.len() && (#[trigger] qs[i]).tablet == t
        }),
{
    let set = v.split_placing.dom().filter(asked(v, ready));
    v.split_placing.dom().lemma_len_filter(asked(v, ready));
    listing_exists::<TabletId>(set);
    let ids = listing::<TabletId>(set);
    let qs = questions(v, ready);
    assert forall|i: int| 0 <= i < qs.len() implies ({
        let q = #[trigger] qs[i];
        &&& is_open(v, q.tablet)
        &&& !is_healthy(v, q.tablet)
        &&& q.current == v.split_placing[q.tablet].target
        &&& q.current is Some ==> ready.contains(q.tablet)
        &&& q.policy == v.policies[q.tablet]
    }) by {
        assert(ids.contains(ids[i]));
        assert(question_of(v, ready, ids[i]) is Some);
        if v.split_placing[ids[i]].target is Some {
            health_is_that_of_every_node(v, ids[i]);
        }
    }
    assert forall|i: int, j: int| 0 <= i < j < qs.len() implies (#[trigger] qs[i]).tablet.0 < (
    #[trigger] qs[j]).tablet.0 by {
        assert(ids.contains(ids[i]) && ids.contains(ids[j]));
        assert(question_of(v, ready, ids[i]) is Some && question_of(v, ready, ids[j]) is Some);
        assert(TabletId::before(ids[i], ids[j]));
    }
    assert forall|t: TabletId| #[trigger]
        is_open(v, t) && !is_healthy(v, t) && (v.split_placing[t].target is None || ready.contains(
            t,
        )) implies exists|i: int| 0 <= i < qs.len() && (#[trigger] qs[i]).tablet == t by {
        if v.split_placing[t].target is Some {
            health_is_that_of_every_node(v, t);
        }
        assert(question_of(v, ready, t) is Some);
        assert(set.contains(t));
        assert(ids.contains(t));
        let i = choose|i: int| 0 <= i < ids.len() && ids[i] == t;
        assert(qs[i].tablet == t);
    }
}

/// Whether there is a move to the target of a split child: the obligation is open, every node of
/// the target is alive, and the child does not stand there yet.
pub open spec fn is_driven(v: PlacementViewModel, t: TabletId) -> bool {
    is_open(v, t) && is_healthy(v, t) && v.split_placing[t].target->0 != v.tablets[t].replicas
}

/// Whether a split child is given the planner's answer as its target: the obligation is open and
/// there is an answer, and it has no target, or one that has lost a member, is ready to be
/// replaced, and differs from the answer.
pub open spec fn is_retargeted(
    v: PlacementViewModel,
    ready: Set<TabletId>,
    answers: Map<TabletId, Seq<Seq<char>>>,
    t: TabletId,
) -> bool {
    &&& is_open(v, t)
    &&& answers.contains_key(t)
    &&& v.split_placing[t].target is None || (!is_healthy(v, t) && ready.contains(t) && answers[t]
        != v.split_placing[t].target->0)
}

proof fn one_move(
    v: PlacementViewModel,
    ready: Set<TabletId>,
    answers: Map<TabletId, Seq<Seq<char>>>,
    t: TabletId,
)
    ensures
        placing_move(v, ready, answers, t) is Some <==> is_driven(v, t) || is_retargeted(
            v,
            ready,
            answers,
            t,
        ),
        is_driven(v, t) ==> placing_move(v, ready, answers, t) == Some(
            MoveModel::Cas {
                tablet: t,
                expected_epoch: v.tablets[t].epoch,
                replicas: v.split_placing[t].target->0,
            },
        ),
        is_retargeted(v, ready, answers, t) ==> placing_move(v, ready, answers, t) == Some(
            MoveModel::Retarget {
                tablet: t,
                expected_epoch: v.tablets[t].epoch,
                target: Some(answers[t]),
            },
        ),
{
    if v.split_placing[t].target is Some {
        health_is_that_of_every_node(v, t);
    }
}

/// Every split child that can get on does. A child with a healthy target is moved to it, at the
/// epoch that it has; a child without a target is given the planner's answer at once, whatever is
/// ready; and a child whose target has lost a member is given a new answer once it is ready.
pub proof fn split_children_get_on(
    v: PlacementViewModel,
    ready: Set<TabletId>,
    answers: Map<TabletId, Seq<Seq<char>>>,
    t: TabletId,
)
    requires
        v.split_placing.dom().finite(),
    ensures
        is_driven(v, t) ==> placing_moves(v, ready, answers).contains(
            MoveModel::Cas {
                tablet: t,
                expected_epoch: v.tablets[t].epoch,
                replicas: v.split_placing[t].target->0,
            },
        ),
        is_retargeted(v, ready, answers, t) ==> placing_moves(v, ready, answers).contains(
            MoveModel::Retarget {
                tablet: t,
                expected_epoch: v.tablets[t].epoch,
                target: Some(answers[t]),
            },
        ),
{
    let set = v.split_placing.dom().filter(moved(v, ready, answers));
    v.split_placing.dom().lemma_len_filter(moved(v, ready, answers));
    listing_exists::<TabletId>(set);
    let ids = listing::<TabletId>(set);
    let xs = placing_moves(v, ready, answers);
    one_move(v, ready, answers, t);
    if is_driven(v, t) || is_retargeted(v, ready, answers, t) {
        assert(set.contains(t));
        assert(ids.contains(t));
        let i = choose|i: int| 0 <= i < ids.len() && ids[i] == t;
        assert(xs[i] == placing_move(v, ready, answers, t)->0);
        assert(xs.contains(xs[i]));
    }
}

/// No other move is made for split children, and each child is moved at most once, in ascending
/// order.
pub proof fn split_children_are_not_moved_otherwise(
    v: PlacementViewModel,
    ready: Set<TabletId>,
    answers: Map<TabletId, Seq<Seq<char>>>,
    i: int,
)
    requires
        v.split_placing.dom().finite(),
        0 <= i < placing_moves(v, ready, answers).len(),
    ensures
        match placing_moves(v, ready, answers)[i] {
            MoveModel::Cas { tablet, expected_epoch, replicas } => is_driven(v, tablet)
                && expected_epoch == v.tablets[tablet].epoch && replicas
                == v.split_placing[tablet].target->0,
            MoveModel::Retarget { tablet, expected_epoch, target } => is_retargeted(
                v,
                ready,
                answers,
                tablet,
            ) && expected_epoch == v.tablets[tablet].epoch && target == Some(answers[tablet]),
        },
        forall|j: int|
            i < j < placing_moves(v, ready, answers).len() ==> crate::placement_laws::moved_tablet(
                placing_moves(v, ready, answers)[i],
            ).0 < crate::placement_laws::moved_tablet(
                #[trigger] placing_moves(v, ready, answers)[j],
            ).0,
{
    let set = v.split_placing.dom().filter(moved(v, ready, answers));
    v.split_placing.dom().lemma_len_filter(moved(v, ready, answers));
    listing_exists::<TabletId>(set);
    let ids = listing::<TabletId>(set);
    let xs = placing_moves(v, ready, answers);
    assert(ids.contains(ids[i]));
    assert(placing_move(v, ready, answers, ids[i]) is Some);
    one_move(v, ready, answers, ids[i]);
    assert forall|j: int| i < j < xs.len() implies crate::placement_laws::moved_tablet(xs[i]).0
        < crate::placement_laws::moved_tablet(#[trigger] xs[j]).0 by {
        assert(ids.contains(ids[j]));
        assert(placing_move(v, ready, answers, ids[j]) is Some);
        one_move(v, ready, answers, ids[j]);
        assert(TabletId::before(ids[i], ids[j]));
    }
}

} // verus!
