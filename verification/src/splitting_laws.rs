//! What the commands of a split do, field by field.
use crate::advice::AdviceModel;
use crate::apply::step;
use crate::command::{ApplyOutcome, MetaCommand};
use crate::ids::TabletId;
use crate::meta::MetadataModel;
use crate::rows::SplitPlacingModel;
use crate::segment_laws::the_last_epoch_is_the_highest;
use crate::split_laws::{ids_unique, in_range, promised};
use crate::tablet::{
    bytes_deep_view, left_of, right_of, strictly_inside, whole_range, KeyRangeModel,
    SplitChildModel, TabletModel, TabletState,
};
use crate::tablet_laws::{canonical_replicas_are_those_given, in_order_of};
use crate::value::bytes_lt;
use vstd::prelude::*;

verus! {

/// Whether `id` was never handed out: it is above zero, above every tablet of the map and not below
/// the allocator's floor.
pub open spec fn never_used(m: MetadataModel, id: TabletId) -> bool {
    &&& id.0 >= 1
    &&& id.0 >= m.next_tablet_id
    &&& forall|t: TabletId| #[trigger] m.tablets.contains_key(t) ==> t.0 < id.0
}

/// Whether `key` lies behind the start of the range and before its end.
pub open spec fn divides(key: Seq<u8>, r: KeyRangeModel) -> bool {
    bytes_lt(r.start, key) && (r.end is Some ==> bytes_lt(key, r.end->0))
}

/// A split begins exactly if both children's ids are fresh and differ, the parent serves at the
/// expected epoch, and the key divides the parent's range, at a token where the table has a
/// stream.
pub proof fn a_split_begins_where_it_can(m: MetadataModel, c: MetaCommand, a: AdviceModel)
    requires
        c is BeginSplitInPlace,
    ensures
        step(m, c, a).1 == ApplyOutcome::Applied <==> {
            let p = c->BeginSplitInPlace_parent;
            let left = c->BeginSplitInPlace_children[0].0;
            let right = c->BeginSplitInPlace_children[1].0;
            let key = c->BeginSplitInPlace_split_key@;
            &&& left != right
            &&& never_used(m, left)
            &&& never_used(m, right)
            &&& m.tablets.contains_key(p)
            &&& m.tablets[p].epoch == c->BeginSplitInPlace_expected_epoch
            &&& m.tablets[p].state == TabletState::Active
            &&& divides(key, m.tablets[p].range)
            &&& (m.tablets[p].table is Some && m.schemas.contains_key(m.tablets[p].table->0)
                && m.schemas[m.tablets[p].table->0].stream is Some) ==> key.len() == 8
        },
        step(m, c, a).1 != ApplyOutcome::NoOp,
{
    bytes_deep_view(c->BeginSplitInPlace_split_key);
}

/// A tablet that begins to split goes on serving its range from the same nodes, one epoch on. The
/// split is recorded on it as it was asked for: the key, and each child's id and nodes. Both ids
/// are handed out; nothing else changes.
pub proof fn a_split_is_recorded_as_asked(m: MetadataModel, c: MetaCommand, a: AdviceModel)
    requires
        c is BeginSplitInPlace,
        c->BeginSplitInPlace_expected_epoch.0 < u64::MAX,
        c->BeginSplitInPlace_children[0].0.0 < u64::MAX,
        c->BeginSplitInPlace_children[1].0.0 < u64::MAX,
        step(m, c, a).1 == ApplyOutcome::Applied,
    ensures
        ({
            let n = step(m, c, a).0;
            let p = c->BeginSplitInPlace_parent;
            let (left, left_nodes) = c->BeginSplitInPlace_children[0];
            let (right, right_nodes) = c->BeginSplitInPlace_children[1];
            let split = n.tablets[p].inplace_split;
            &&& n.tablets.contains_key(p)
            &&& n.tablets[p].id == m.tablets[p].id
            &&& n.tablets[p].table == m.tablets[p].table
            &&& n.tablets[p].range == m.tablets[p].range
            &&& n.tablets[p].replicas == m.tablets[p].replicas
            &&& n.tablets[p].epoch.0 == m.tablets[p].epoch.0 + 1
            &&& n.tablets[p].state == TabletState::Splitting
            &&& split is Some
            &&& split->0.split_key == c->BeginSplitInPlace_split_key@
            &&& split->0.left.id == left
            &&& split->0.left.replicas == left_nodes.deep_view()
            &&& split->0.right.id == right
            &&& split->0.right.replicas == right_nodes.deep_view()
            &&& n.next_tablet_id == if left.0 < right.0 {
                right.0 + 1
            } else {
                left.0 + 1
            }
            &&& n.tablets.remove(p) == m.tablets.remove(p)
            &&& n == MetadataModel {
                tablets: n.tablets,
                next_tablet_id: n.next_tablet_id,
                ..m
            }
        }),
{
    let n = step(m, c, a).0;
    let p = c->BeginSplitInPlace_parent;
    bytes_deep_view(c->BeginSplitInPlace_split_key);
    assert(n.tablets.remove(p) =~= m.tablets.remove(p));
}

/// A cutover takes place exactly if the parent is splitting at the expected epoch and its recorded
/// key divides its range.
pub proof fn a_cutover_takes_place_where_it_can(m: MetadataModel, c: MetaCommand, a: AdviceModel)
    requires
        c is CutoverSplit,
    ensures
        step(m, c, a).1 == ApplyOutcome::Applied <==> {
            let p = c->CutoverSplit_parent;
            &&& m.tablets.contains_key(p)
            &&& m.tablets[p].epoch == c->CutoverSplit_expected_epoch
            &&& m.tablets[p].state == TabletState::Splitting
            &&& m.tablets[p].inplace_split is Some
            &&& divides(m.tablets[p].inplace_split->0.split_key, m.tablets[p].range)
        },
        step(m, c, a).1 != ApplyOutcome::NoOp,
{
}

/// Whether `t` is the tablet of a split child with the given range: it serves, at the first epoch
/// past the initial one, the parent's table from the nodes that the split named.
pub open spec fn is_child(
    t: TabletModel,
    child: SplitChildModel,
    parent: TabletModel,
    range: KeyRangeModel,
) -> bool {
    &&& t.id == child.id
    &&& t.table == parent.table
    &&& t.range == range
    &&& in_order_of(t.replicas, child.replicas)
    &&& t.epoch.0 == 1
    &&& t.state == TabletState::Active
    &&& t.inplace_split is None
}

/// At a cutover the parent leaves the map, and its two children enter it, the left one below the
/// key and the right one from it on; no other tablet changes.
pub proof fn a_cutover_replaces_the_parent(m: MetadataModel, c: MetaCommand, a: AdviceModel)
    requires
        ids_unique(m),
        c is CutoverSplit,
        step(m, c, a).1 == ApplyOutcome::Applied,
    ensures
        ({
            let n = step(m, c, a).0;
            let p = c->CutoverSplit_parent;
            let parent = m.tablets[p];
            let split = parent.inplace_split->0;
            let (left, right) = (split.left.id, split.right.id);
            &&& !n.tablets.contains_key(p)
            &&& n.tablets.contains_key(left)
            &&& is_child(
                n.tablets[left],
                split.left,
                parent,
                (KeyRangeModel { start: parent.range.start, end: Some(split.split_key) }),
            )
            &&& n.tablets.contains_key(right)
            &&& is_child(
                n.tablets[right],
                split.right,
                parent,
                (KeyRangeModel { start: split.split_key, end: parent.range.end }),
            )
            &&& n.tablets.remove(left).remove(right) == m.tablets.remove(p)
            &&& n == MetadataModel {
                tablets: n.tablets,
                policies: n.policies,
                split_lineage: n.split_lineage,
                split_placing: n.split_placing,
                ..m
            }
        }),
{
    let n = step(m, c, a).0;
    let p = c->CutoverSplit_parent;
    let split = m.tablets[p].inplace_split->0;
    let (left, right) = (split.left.id, split.right.id);
    assert(promised(m, p, left) && promised(m, p, right));
    canonical_replicas_are_those_given(split.left.replicas);
    canonical_replicas_are_those_given(split.right.replicas);
    assert(n.tablets.remove(left).remove(right) =~= m.tablets.remove(p));
}

/// At a cutover both children inherit the parent's policy, if it has one, and the parent's own goes
/// with it; every other tablet keeps its own.
pub proof fn a_cutover_hands_the_policy_on(
    m: MetadataModel,
    c: MetaCommand,
    a: AdviceModel,
    t: TabletId,
)
    requires
        ids_unique(m),
        c is CutoverSplit,
        step(m, c, a).1 == ApplyOutcome::Applied,
    ensures
        ({
            let n = step(m, c, a).0;
            let p = c->CutoverSplit_parent;
            let split = m.tablets[p].inplace_split->0;
            let child = t == split.left.id || t == split.right.id;
            &&& !n.policies.contains_key(p)
            &&& child && m.policies.contains_key(p) ==> n.policies.contains_key(t)
                && n.policies[t] == m.policies[p]
            &&& t != p && !(child && m.policies.contains_key(p)) ==> (n.policies.contains_key(t)
                <==> m.policies.contains_key(t)) && (m.policies.contains_key(t) ==> n.policies[t]
                == m.policies[t])
        }),
{
    let p = c->CutoverSplit_parent;
    let split = m.tablets[p].inplace_split->0;
    assert(promised(m, p, split.left.id) && promised(m, p, split.right.id));
}

/// At a cutover the lineage of both children is recorded: their parent, the moment, and the last
/// epoch that the parent sealed, if it sealed any. No other lineage changes.
pub proof fn a_cutover_records_the_lineage(
    m: MetadataModel,
    c: MetaCommand,
    a: AdviceModel,
    t: TabletId,
)
    requires
        c is CutoverSplit,
        step(m, c, a).1 == ApplyOutcome::Applied,
    ensures
        ({
            let n = step(m, c, a).0;
            let p = c->CutoverSplit_parent;
            let split = m.tablets[p].inplace_split->0;
            let child = t == split.left.id || t == split.right.id;
            let row = n.split_lineage[t];
            &&& child ==> {
                &&& n.split_lineage.contains_key(t)
                &&& row.parent == p
                &&& row.cutover_wall_ms == c->CutoverSplit_cutover_wall_ms
                &&& match row.parents_final_epoch {
                    Some(last) => m.stream_shards.contains_key((p, last))
                        && forall|e: u64| #[trigger]
                        m.stream_shards.contains_key((p, e)) ==> e <= last,
                    None => forall|e: u64| !(#[trigger] m.stream_shards.contains_key((p, e))),
                }
            }
            &&& !child ==> (n.split_lineage.contains_key(t) <==> m.split_lineage.contains_key(t))
                && (m.split_lineage.contains_key(t) ==> row == m.split_lineage[t])
        }),
{
    the_last_epoch_is_the_highest(m.stream_shards, c->CutoverSplit_parent);
}

/// At a cutover a child with a policy is obliged to move to the nodes that the planner selected,
/// unless it stands there already, and to keep asking where the planner found none. A child
/// without a policy has no obligation, and no other tablet's changes.
pub proof fn a_cutover_obliges_the_children(
    m: MetadataModel,
    c: MetaCommand,
    a: AdviceModel,
    t: TabletId,
)
    requires
        ids_unique(m),
        c is CutoverSplit,
        step(m, c, a).1 == ApplyOutcome::Applied,
    ensures
        ({
            let n = step(m, c, a).0;
            let p = c->CutoverSplit_parent;
            let split = m.tablets[p].inplace_split->0;
            let child = t == split.left.id || t == split.right.id;
            let obliged = child && m.policies.contains_key(p) && a.selection != Some(
                n.tablets[t].replicas,
            );
            &&& obliged ==> n.split_placing.contains_key(t) && n.split_placing[t] == (
            SplitPlacingModel { target: a.selection, done: false })
            &&& !obliged ==> (n.split_placing.contains_key(t) <==> m.split_placing.contains_key(t))
                && (m.split_placing.contains_key(t) ==> n.split_placing[t] == m.split_placing[t])
        }),
{
    let p = c->CutoverSplit_parent;
    let split = m.tablets[p].inplace_split->0;
    assert(promised(m, p, split.left.id) && promised(m, p, split.right.id));
}

/// An obligation is done exactly if it was open and its tablet is there at the expected epoch; its
/// target stays. An obligation that is done stays done.
pub proof fn an_obligation_is_marked_done(m: MetadataModel, c: MetaCommand, a: AdviceModel)
    requires
        c is MarkSplitPlacingDone,
    ensures
        ({
            let (n, outcome) = step(m, c, a);
            let t = c->MarkSplitPlacingDone_tablet;
            let current = m.tablets.contains_key(t) && m.tablets[t].epoch
                == c->MarkSplitPlacingDone_expected_epoch && m.split_placing.contains_key(t);
            &&& outcome is Rejected <==> !current
            &&& outcome == ApplyOutcome::Applied <==> current && !m.split_placing[t].done
            &&& outcome !is Rejected ==> n.split_placing.contains_key(t) && n.split_placing[t].done
                && n.split_placing[t].target == m.split_placing[t].target
            &&& n.split_placing.remove(t) == m.split_placing.remove(t)
            &&& n == MetadataModel { split_placing: n.split_placing, ..m }
        }),
{
    let n = step(m, c, a).0;
    let t = c->MarkSplitPlacingDone_tablet;
    assert(n.split_placing.remove(t) =~= m.split_placing.remove(t));
}

/// An open obligation of a tablet that is there at the expected epoch has the given target from
/// then on; one that is done keeps its own.
pub proof fn an_obligation_is_retargeted(m: MetadataModel, c: MetaCommand, a: AdviceModel)
    requires
        c is RetargetSplitPlacing,
    ensures
        ({
            let (n, outcome) = step(m, c, a);
            let t = c->RetargetSplitPlacing_tablet;
            let target = c->RetargetSplitPlacing_target.deep_view();
            let current = m.tablets.contains_key(t) && m.tablets[t].epoch
                == c->RetargetSplitPlacing_expected_epoch && m.split_placing.contains_key(t);
            &&& outcome is Rejected <==> !current
            &&& outcome == ApplyOutcome::Applied <==> current && !m.split_placing[t].done
                && m.split_placing[t].target != target
            &&& current && !m.split_placing[t].done ==> n.split_placing.contains_key(t)
                && n.split_placing[t].target == target && !n.split_placing[t].done
            &&& n.split_placing.remove(t) == m.split_placing.remove(t)
            &&& n == MetadataModel { split_placing: n.split_placing, ..m }
        }),
{
    let n = step(m, c, a).0;
    let t = c->RetargetSplitPlacing_tablet;
    assert(n.split_placing.remove(t) =~= m.split_placing.remove(t));
}

/// The whole range holds every key.
pub proof fn the_whole_range_holds_every_key(key: Seq<u8>)
    ensures
        in_range(whole_range(), key),
        whole_range().start.len() == 0,
        whole_range().end is None,
{
}

/// A range is divided at a key exactly if the key lies behind its start and before its end; the
/// left part then ends, and the right part begins, at the key.
pub proof fn a_range_is_divided_at_the_key(r: KeyRangeModel, key: Seq<u8>)
    ensures
        strictly_inside(r, key) <==> divides(key, r),
        left_of(r, key).start == r.start,
        left_of(r, key).end == Some(key),
        right_of(r, key).start == key,
        right_of(r, key).end == r.end,
{
}

} // verus!
