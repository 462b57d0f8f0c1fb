//! Splits over a tablet's life: ranges, ids, lineage and epochs.
use crate::advice::AdviceModel;
use crate::apply::{can_apply, step};
use crate::command::{ApplyOutcome, MetaCommand};
use crate::guard::{lineage_rises, mirrorable};
use crate::history_laws::the_id_floor_never_falls;
use crate::ids::TabletId;
use crate::lineage::{acyclic, children, climb};
use crate::meta::{empty_metadata, MetadataModel};
use crate::mirror::can_mirror;
use crate::rows::SplitLineage;
use crate::tablet::{left_of, right_of, strictly_inside, KeyRangeModel};
use crate::tablet_map::{below_floor, is_next_free};
use crate::value::{bytes_lt, bytes_lt_irreflexive, bytes_lt_total, bytes_lt_transitive};
use vstd::prelude::*;

verus! {

/// Whether `key` lies in the range.
pub open spec fn in_range(r: KeyRangeModel, key: Seq<u8>) -> bool {
    !bytes_lt(key, r.start) && (r.end matches Some(e) ==> bytes_lt(key, e))
}

/// A split loses no key and shares none: every key of the range lies in exactly one half, and no
/// half is empty.
pub proof fn a_split_divides_the_range(r: KeyRangeModel, at: Seq<u8>, key: Seq<u8>)
    requires
        strictly_inside(r, at),
    ensures
        in_range(r, key) <==> in_range(left_of(r, at), key) || in_range(right_of(r, at), key),
        !(in_range(left_of(r, at), key) && in_range(right_of(r, at), key)),
        in_range(left_of(r, at), r.start),
        in_range(right_of(r, at), at),
{
    bytes_lt_irreflexive(r.start);
    bytes_lt_irreflexive(at);
    bytes_lt_total(key, at);
    if bytes_lt(key, at) {
        if r.end is Some {
            bytes_lt_transitive(key, at, r.end->0);
        }
    } else if bytes_lt(key, r.start) {
        bytes_lt_transitive(key, r.start, at);
    }
}

/// Whether `x` is an id that the split of `t` under way has handed out.
pub open spec fn promised(m: MetadataModel, t: TabletId, x: TabletId) -> bool {
    m.tablets.contains_key(t) && (m.tablets[t].inplace_split matches Some(i) && (x == i.left.id || x
        == i.right.id))
}

/// No id was ever used twice: every tablet lies below the allocator floor; a split child above its
/// parent, which has left the map; and an id that a split has handed out is nowhere else.
pub open spec fn ids_unique(m: MetadataModel) -> bool {
    &&& forall|t: TabletId| #[trigger] m.tablets.contains_key(t) ==> t.0 < m.next_tablet_id
    &&& forall|c: TabletId| #[trigger]
        m.split_lineage.contains_key(c) ==> m.split_lineage[c].parent.0 < c.0 < m.next_tablet_id
            && !m.tablets.contains_key(m.split_lineage[c].parent)
    &&& forall|t: TabletId, x: TabletId| #[trigger]
        promised(m, t, x) ==> t.0 < x.0 < m.next_tablet_id && !m.tablets.contains_key(x)
            && !m.split_lineage.contains_key(x)
    &&& forall|t: TabletId, x: TabletId, c: TabletId| #[trigger]
        promised(m, t, x) && #[trigger] m.split_lineage.contains_key(c)
            ==> m.split_lineage[c].parent != x
    &&& forall|t: TabletId, u: TabletId, x: TabletId| #[trigger]
        promised(m, t, x) && #[trigger] promised(m, u, x) ==> t == u
    &&& forall|t: TabletId| #[trigger]
        m.tablets.contains_key(t) && m.tablets[t].inplace_split is Some
            ==> m.tablets[t].inplace_split->0.left.id != m.tablets[t].inplace_split->0.right.id
}

/// A fresh cluster has used no id twice.
pub proof fn ids_begin_unique()
    ensures
        ids_unique(empty_metadata()),
{
}

/// No id is ever used twice.
pub proof fn ids_stay_unique(m: MetadataModel, c: MetaCommand, a: AdviceModel)
    requires
        ids_unique(m),
        can_apply(m, c),
    ensures
        ids_unique(step(m, c, a).0),
{
    match c {
        MetaCommand::CreateTablet { .. } | MetaCommand::BeginRestore { .. } => {
            minting_keeps_ids_unique(m, c, a);
        },
        MetaCommand::CasTabletReplicas { .. } | MetaCommand::CompleteRestore { .. } => {
            moving_keeps_ids_unique(m, c, a);
        },
        MetaCommand::DropTableTablets { .. } => {
            dropping_keeps_ids_unique(m, c, a);
        },
        MetaCommand::BeginSplitInPlace { .. } => {
            splitting_keeps_ids_unique(m, c, a);
        },
        MetaCommand::CutoverSplit { .. } => {
            cutover_keeps_ids_unique(m, c, a);
        },
        _ => {
            quiet_commands_leave_tablets_alone(m, c, a);
            quiet_keeps_ids_unique(m, step(m, c, a).0);
        },
    }
}

/// The next free id lies above every tablet that there is or was split, and above every child of a
/// split under way.
pub proof fn the_next_free_id_is_fresh(m: MetadataModel, id: TabletId)
    requires
        ids_unique(m),
        is_next_free(m, id),
    ensures
        m.next_tablet_id <= id.0,
        forall|t: TabletId| #[trigger] m.tablets.contains_key(t) ==> t.0 < id.0,
        forall|c: TabletId| #[trigger]
            m.split_lineage.contains_key(c) ==> m.split_lineage[c].parent.0 < c.0 < id.0,
        forall|t: TabletId, x: TabletId| #[trigger] promised(m, t, x) ==> x.0 < id.0,
{
    assert(!below_floor(m, id));
}

/// The next free id never falls.
pub proof fn the_next_free_id_never_falls(
    m: MetadataModel,
    c: MetaCommand,
    a: AdviceModel,
    before: TabletId,
    after: TabletId,
)
    requires
        ids_unique(m),
        can_apply(m, c),
        is_next_free(m, before),
        is_next_free(step(m, c, a).0, after),
    ensures
        before.0 <= after.0,
{
    the_id_floor_never_falls(m, c, a);
    assert(!below_floor(step(m, c, a).0, after));
    if after.0 < before.0 {
        assert(below_floor(m, after));
    }
}

/// The commands that touch neither the tablet map nor the lineage nor the floor.
spec fn quiet(c: MetaCommand) -> bool {
    ||| c is UpsertMember || c is RegisterCpAddr || c is RegisterNodeAddrs || c is RemoveMember
        || c is RegisterNode
    ||| c is CreateTableSchema || c is DropTableSchema || c is ReplaceTableSchema
        || c is CreateTableIndex || c is DropTableIndex || c is SetIndexStatus
        || c is MarkIndexBackfilled
    ||| c is SetTableStream || c is SetTableTtl || c is SetTableThroughput || c is TagResource
        || c is UntagResource || c is UpdateContinuousBackups
    ||| c is SealStreamShard || c is ExpireStreamShards || c is SealPitrSegment
        || c is ExpirePitrSegments
    ||| c is BeginBackup || c is RecordBackupTabletComplete || c is CompleteBackup
        || c is FailBackup || c is DeleteBackup || c is MarkBackupDeleted
    ||| c is NoOp || c is MarkSplitPlacingDone || c is RetargetSplitPlacing || c is SetTabletPolicy
        || c is FailRestore
}

proof fn quiet_commands_leave_tablets_alone(m: MetadataModel, c: MetaCommand, a: AdviceModel)
    requires
        quiet(c),
    ensures
        ({
            let n = step(m, c, a).0;
            n.tablets == m.tablets && n.split_lineage == m.split_lineage && n.next_tablet_id
                == m.next_tablet_id
        }),
{
}

proof fn quiet_keeps_ids_unique(m: MetadataModel, n: MetadataModel)
    requires
        ids_unique(m),
        n.tablets == m.tablets,
        n.split_lineage == m.split_lineage,
        n.next_tablet_id == m.next_tablet_id,
    ensures
        ids_unique(n),
{
    assert forall|t: TabletId, x: TabletId| #[trigger] promised(n, t, x) == promised(m, t, x) by {}
}

proof fn minting_keeps_ids_unique(m: MetadataModel, c: MetaCommand, a: AdviceModel)
    requires
        c is CreateTablet || c is BeginRestore,
        ids_unique(m),
        can_apply(m, c),
    ensures
        ids_unique(step(m, c, a).0),
{
    let n = step(m, c, a).0;
    assert forall|t: TabletId, x: TabletId| #[trigger] promised(n, t, x) == promised(m, t, x) by {}
}

proof fn moving_keeps_ids_unique(m: MetadataModel, c: MetaCommand, a: AdviceModel)
    requires
        c is CasTabletReplicas || c is CompleteRestore,
        ids_unique(m),
    ensures
        ids_unique(step(m, c, a).0),
{
    let n = step(m, c, a).0;
    assert forall|t: TabletId, x: TabletId| #[trigger] promised(n, t, x) == promised(m, t, x) by {}
}

proof fn dropping_keeps_ids_unique(m: MetadataModel, c: MetaCommand, a: AdviceModel)
    requires
        c is DropTableTablets,
        ids_unique(m),
    ensures
        ids_unique(step(m, c, a).0),
{
    let n = step(m, c, a).0;
    assert forall|t: TabletId, x: TabletId| #[trigger] promised(n, t, x) implies promised(
        m,
        t,
        x,
    ) by {}
}

proof fn splitting_keeps_ids_unique(m: MetadataModel, c: MetaCommand, a: AdviceModel)
    requires
        c is BeginSplitInPlace,
        ids_unique(m),
        can_apply(m, c),
    ensures
        ids_unique(step(m, c, a).0),
{
    let n = step(m, c, a).0;
    let p = c->BeginSplitInPlace_parent;
    if step(m, c, a).1 == ApplyOutcome::Applied {
        let i = n.tablets[p].inplace_split->0;
        assert forall|t: TabletId, x: TabletId| #[trigger] promised(n, t, x) implies if t == p {
            x == i.left.id || x == i.right.id
        } else {
            promised(m, t, x)
        } by {}
        assert(m.next_tablet_id <= i.left.id.0 && m.next_tablet_id <= i.right.id.0);
    }
}

proof fn cutover_keeps_ids_unique(m: MetadataModel, c: MetaCommand, a: AdviceModel)
    requires
        c is CutoverSplit,
        ids_unique(m),
    ensures
        ids_unique(step(m, c, a).0),
{
    let n = step(m, c, a).0;
    let p = c->CutoverSplit_parent;
    if step(m, c, a).1 == ApplyOutcome::Applied {
        let i = m.tablets[p].inplace_split->0;
        assert(promised(m, p, i.left.id) && promised(m, p, i.right.id));
        assert forall|t: TabletId, x: TabletId| #[trigger] promised(n, t, x) implies promised(
            m,
            t,
            x,
        ) && t != p by {}
    }
}

/// A lineage in which every child has a higher id than its parent has no cycle.
pub proof fn rising_lineage_is_acyclic(lineage: Map<TabletId, SplitLineage>)
    requires
        forall|c: TabletId| #[trigger]
            lineage.contains_key(c) ==> lineage[c].parent.0 < c.0,
    ensures
        acyclic(lineage),
{
    assert forall|t: TabletId, n: nat| n > 0 implies #[trigger] climb(lineage, t, n) != Some(t) by {
        climbing_descends(lineage, t, n);
    }
}

proof fn climbing_descends(lineage: Map<TabletId, SplitLineage>, t: TabletId, n: nat)
    requires
        forall|c: TabletId| #[trigger]
            lineage.contains_key(c) ==> lineage[c].parent.0 < c.0,
        n > 0,
    ensures
        climb(lineage, t, n) matches Some(x) ==> x.0 < t.0,
    decreases n,
{
    if n > 1 {
        climbing_descends(lineage, t, (n - 1) as nat);
    } else {
        assert(climb(lineage, t, 0) == Some(t));
    }
}

/// Where no id was used twice, the split lineage rises and so has no cycle, and every cutover can
/// be mirrored: no test of a reachable state fails on either account.
pub proof fn unique_ids_bound_the_lineage(m: MetadataModel, c: MetaCommand, a: AdviceModel)
    requires
        ids_unique(m),
    ensures
        lineage_rises(m),
        acyclic(m.split_lineage),
        mirrorable(m, c),
        can_mirror(m, step(m, c, a).0, c),
{
    rising_lineage_is_acyclic(m.split_lineage);
    match c {
        MetaCommand::CutoverSplit { parent, .. } => {
            let n = step(m, c, a).0;
            if m.tablets.contains_key(parent) && m.tablets[parent].inplace_split is Some {
                let i = m.tablets[parent].inplace_split->0;
                assert(promised(m, parent, i.left.id) && promised(m, parent, i.right.id));
                assert(children(m.split_lineage, parent) =~= Set::empty());
            }
            if step(m, c, a).1 == ApplyOutcome::Applied {
                let i = m.tablets[parent].inplace_split->0;
                assert(promised(m, parent, i.left.id) && promised(m, parent, i.right.id));
                assert forall|t: TabletId| children(n.split_lineage, parent).contains(t) implies
                    n.tablets.dom().contains(t) by {
                    if t != i.left.id && t != i.right.id {
                        assert(m.split_lineage.contains_key(t));
                    }
                }
            }
        },
        _ => {},
    }
}

/// A tablet keeps its range and its table for life, and nothing else of it changes but under a
/// higher epoch.
pub proof fn a_tablet_changes_only_under_a_higher_epoch(
    m: MetadataModel,
    c: MetaCommand,
    a: AdviceModel,
    t: TabletId,
)
    requires
        ids_unique(m),
        can_apply(m, c),
        m.tablets.contains_key(t),
        step(m, c, a).0.tablets.contains_key(t),
    ensures
        ({
            let before = m.tablets[t];
            let after = step(m, c, a).0.tablets[t];
            &&& after.range == before.range
            &&& after.table == before.table
            &&& after == before || before.epoch.0 < after.epoch.0
        }),
{
    if quiet(c) {
        quiet_commands_leave_tablets_alone(m, c, a);
    } else if c is CutoverSplit && step(m, c, a).1 == ApplyOutcome::Applied {
        let p = c->CutoverSplit_parent;
        let i = m.tablets[p].inplace_split->0;
        assert(promised(m, p, i.left.id) && promised(m, p, i.right.id));
    }
}

/// Cutting a split over hands every key of the parent to exactly one of its two children, which
/// serve the parent's table, and takes the parent out of the map.
pub proof fn a_cutover_hands_over_every_key(
    m: MetadataModel,
    c: MetaCommand,
    a: AdviceModel,
    key: Seq<u8>,
)
    requires
        ids_unique(m),
        c is CutoverSplit,
        step(m, c, a).1 == ApplyOutcome::Applied,
    ensures
        ({
            let p = c->CutoverSplit_parent;
            let i = m.tablets[p].inplace_split->0;
            let n = step(m, c, a).0;
            &&& !n.tablets.contains_key(p)
            &&& n.tablets.contains_key(i.left.id) && n.tablets.contains_key(i.right.id)
            &&& n.tablets[i.left.id].table == m.tablets[p].table
            &&& n.tablets[i.right.id].table == m.tablets[p].table
            &&& in_range(m.tablets[p].range, key) <==> in_range(n.tablets[i.left.id].range, key)
                || in_range(n.tablets[i.right.id].range, key)
            &&& !(in_range(n.tablets[i.left.id].range, key) && in_range(
                n.tablets[i.right.id].range,
                key,
            ))
        }),
{
    let p = c->CutoverSplit_parent;
    let i = m.tablets[p].inplace_split->0;
    assert(promised(m, p, i.left.id) && promised(m, p, i.right.id));
    a_split_divides_the_range(m.tablets[p].range, i.split_key, key);
}

} // verus!
