//! What the commands on tablets do, field by field.
use crate::advice::AdviceModel;
use crate::apply::step;
use crate::command::{ApplyOutcome, MetaCommand};
use crate::ids::{NodeId, TabletId};
use crate::meta::{finite, MetadataModel};
use crate::sorted_map::{listing, listing_exists};
use crate::tablet::{normal_replicas, TabletState};
use crate::tablet_map::{below_floor, has_tablet_of, is_next_free, scoped, tablet_rows, tablets_of};
use crate::value::Key;
use vstd::prelude::*;

verus! {

/// Whether `set` holds exactly the nodes that `given` names, each once and in ascending order.
pub open spec fn in_order_of(set: Seq<Seq<char>>, given: Seq<Seq<char>>) -> bool {
    &&& forall|n: Seq<char>| #[trigger] set.contains(n) <==> given.contains(n)
    &&& forall|i: int, j: int|
        0 <= i < j < set.len() ==> NodeId::before(#[trigger] set[i], #[trigger] set[j])
}

/// A replica set in canonical form names the nodes that were given, each once and in order.
pub proof fn canonical_replicas_are_those_given(given: Seq<Seq<char>>)
    ensures
        in_order_of(normal_replicas(given), given),
        normal_replicas(normal_replicas(given)) == normal_replicas(given),
{
    vstd::seq_lib::seq_to_set_is_finite(given);
    listing_exists::<NodeId>(given.to_set());
    let s = normal_replicas(given);
    assert forall|n: Seq<char>| #[trigger] s.contains(n) <==> given.contains(n) by {
        assert(given.to_set().contains(n) <==> given.contains(n));
    }
    assert(s.to_set() =~= given.to_set());
}

/// A tablet is created exactly if its id is new, lies above every id that was ever handed out, and
/// its table, if it has one, has no tablet yet. It is then active at the first epoch, with the
/// given table, range and nodes, and nothing else changes but that its id is handed out.
pub proof fn a_created_tablet_is_as_asked(m: MetadataModel, c: MetaCommand, a: AdviceModel)
    requires
        c is CreateTablet,
        c->CreateTablet_tablet.0 < u64::MAX,
    ensures
        ({
            let (n, outcome) = step(m, c, a);
            let id = c->CreateTablet_tablet;
            let table = c->CreateTablet_table.deep_view();
            &&& outcome == ApplyOutcome::Applied <==> {
                &&& id.0 >= 1
                &&& id.0 >= m.next_tablet_id
                &&& forall|t: TabletId| #[trigger] m.tablets.contains_key(t) ==> t.0 < id.0
                &&& table is Some ==> forall|t: TabletId| #[trigger]
                    m.tablets.contains_key(t) ==> m.tablets[t].table != table
            }
            &&& outcome != ApplyOutcome::NoOp
            &&& outcome == ApplyOutcome::Applied ==> {
                &&& n.tablets.contains_key(id)
                &&& n.tablets[id].id == id
                &&& n.tablets[id].table == table
                &&& n.tablets[id].range == c->CreateTablet_range.deep_view()
                &&& in_order_of(n.tablets[id].replicas, c->CreateTablet_replicas.deep_view())
                &&& n.tablets[id].epoch.0 == 0
                &&& n.tablets[id].state == TabletState::Active
                &&& n.tablets[id].inplace_split is None
                &&& n.next_tablet_id == id.0 + 1
            }
            &&& n.tablets.remove(id) == m.tablets.remove(id)
            &&& n == MetadataModel {
                tablets: n.tablets,
                next_tablet_id: n.next_tablet_id,
                ..m
            }
        }),
{
    let (n, outcome) = step(m, c, a);
    let id = c->CreateTablet_tablet;
    let table = c->CreateTablet_table.deep_view();
    canonical_replicas_are_those_given(c->CreateTablet_replicas.deep_view());
    assert(n.tablets.remove(id) =~= m.tablets.remove(id));
    if table is Some {
        a_table_has_the_tablets_scoped_to_it(m, table->0);
        if has_tablet_of(m, table->0) {
            let t = choose|t: TabletId| tablets_of(m, table->0).contains(t);
            assert(m.tablets.contains_key(t) && m.tablets[t].table == table);
        }
    }
}

/// The tablets of a table are those of the map that are scoped to it.
pub proof fn a_table_has_the_tablets_scoped_to_it(m: MetadataModel, table: Seq<char>)
    ensures
        forall|t: TabletId| #[trigger]
            tablets_of(m, table).contains(t) <==> m.tablets.contains_key(t)
                && m.tablets[t].table == Some(table),
        has_tablet_of(m, table) <==> exists|t: TabletId| #[trigger]
            m.tablets.contains_key(t) && m.tablets[t].table == Some(table),
{
    if exists|t: TabletId| #[trigger]
        m.tablets.contains_key(t) && m.tablets[t].table == Some(table) {
        let t = choose|t: TabletId| #[trigger]
            m.tablets.contains_key(t) && m.tablets[t].table == Some(table);
        assert(tablets_of(m, table).contains(t));
    }
    if has_tablet_of(m, table) {
        let t = choose|t: TabletId| tablets_of(m, table).contains(t);
        assert(m.tablets.contains_key(t) && m.tablets[t].table == Some(table));
    }
}

/// Listing the tablets of a table gives each of them once, in ascending order, as the map has it.
pub proof fn the_tablets_of_a_table_are_listed_as_they_are(m: MetadataModel, table: Seq<char>)
    requires
        m.tablets.dom().finite(),
    ensures
        ({
            let rows = tablet_rows(m, listing::<TabletId>(tablets_of(m, table)));
            &&& forall|i: int|
                0 <= i < rows.len() ==> {
                    let (t, row) = #[trigger] rows[i];
                    m.tablets.contains_key(t) && row == m.tablets[t] && row.table == Some(table)
                }
            &&& forall|i: int, j: int|
                0 <= i < j < rows.len() ==> (#[trigger] rows[i]).0.0 < (#[trigger] rows[j]).0.0
            &&& forall|t: TabletId| #[trigger]
                m.tablets.contains_key(t) && m.tablets[t].table == Some(table) ==> exists|i: int|
                    0 <= i < rows.len() && (#[trigger] rows[i]).0 == t
        }),
{
    let set = tablets_of(m, table);
    m.tablets.dom().lemma_len_filter(scoped(m, table));
    listing_exists::<TabletId>(set);
    let ids = listing::<TabletId>(set);
    let rows = tablet_rows(m, ids);
    assert forall|i: int| 0 <= i < rows.len() implies ({
        let (t, row) = #[trigger] rows[i];
        m.tablets.contains_key(t) && row == m.tablets[t] && row.table == Some(table)
    }) by {
        assert(ids.contains(ids[i]));
    }
    assert forall|i: int, j: int| 0 <= i < j < rows.len() implies (#[trigger] rows[i]).0.0 < (
    #[trigger] rows[j]).0.0 by {
        assert(TabletId::before(ids[i], ids[j]));
    }
    assert forall|t: TabletId| #[trigger]
        m.tablets.contains_key(t) && m.tablets[t].table == Some(table) implies exists|i: int|
        0 <= i < rows.len() && (#[trigger] rows[i]).0 == t by {
        assert(set.contains(t));
        assert(ids.contains(t));
        let i = choose|i: int| 0 <= i < ids.len() && ids[i] == t;
        assert(rows[i].0 == t);
    }
}

/// A replica set is replaced exactly if the tablet is there at the expected epoch. It is then held
/// by the given nodes, one epoch on; the rest of it and every other tablet stay.
pub proof fn a_replaced_replica_set_is_as_asked(m: MetadataModel, c: MetaCommand, a: AdviceModel)
    requires
        c is CasTabletReplicas,
        c->CasTabletReplicas_expected_epoch.0 < u64::MAX,
    ensures
        ({
            let (n, outcome) = step(m, c, a);
            let t = c->CasTabletReplicas_tablet;
            &&& outcome == ApplyOutcome::Applied <==> m.tablets.contains_key(t)
                && m.tablets[t].epoch == c->CasTabletReplicas_expected_epoch
            &&& outcome != ApplyOutcome::NoOp
            &&& outcome == ApplyOutcome::Applied ==> {
                &&& n.tablets.contains_key(t)
                &&& in_order_of(
                    n.tablets[t].replicas,
                    c->CasTabletReplicas_replicas.deep_view(),
                )
                &&& n.tablets[t].epoch.0 == m.tablets[t].epoch.0 + 1
                &&& n.tablets[t].id == m.tablets[t].id
                &&& n.tablets[t].table == m.tablets[t].table
                &&& n.tablets[t].range == m.tablets[t].range
                &&& n.tablets[t].state == m.tablets[t].state
                &&& n.tablets[t].inplace_split == m.tablets[t].inplace_split
            }
            &&& n.tablets.remove(t) == m.tablets.remove(t)
            &&& n == MetadataModel { tablets: n.tablets, ..m }
        }),
{
    let n = step(m, c, a).0;
    let t = c->CasTabletReplicas_tablet;
    canonical_replicas_are_those_given(c->CasTabletReplicas_replicas.deep_view());
    assert(n.tablets.remove(t) =~= m.tablets.remove(t));
}

/// A tablet that is there has the policy that was set last, or none if it was cleared.
pub proof fn a_policy_is_set_as_asked(m: MetadataModel, c: MetaCommand, a: AdviceModel)
    requires
        c is SetTabletPolicy,
    ensures
        ({
            let (n, outcome) = step(m, c, a);
            let t = c->SetTabletPolicy_tablet;
            let policy = c->SetTabletPolicy_policy.deep_view();
            &&& outcome == ApplyOutcome::Applied <==> m.tablets.contains_key(t)
            &&& outcome != ApplyOutcome::NoOp
            &&& outcome == ApplyOutcome::Applied ==> {
                &&& n.policies.contains_key(t) <==> policy is Some
                &&& policy is Some ==> n.policies[t] == policy->0
            }
            &&& n.policies.remove(t) == m.policies.remove(t)
            &&& n == MetadataModel { policies: n.policies, ..m }
        }),
{
    let n = step(m, c, a).0;
    let t = c->SetTabletPolicy_tablet;
    assert(n.policies.remove(t) =~= m.policies.remove(t));
}

/// Whether `t` is a tablet of the map that is scoped to `table`.
pub open spec fn is_tablet_of(m: MetadataModel, table: Seq<char>, t: TabletId) -> bool {
    m.tablets.contains_key(t) && m.tablets[t].table == Some(table)
}

/// Dropping a table's tablets takes away those tablets and what hangs on them, and nothing more:
/// every other tablet keeps its policy, its backfill records, its placement obligation and the
/// addresses of its group members.
pub proof fn dropping_takes_what_hangs_on_the_tablets(
    m: MetadataModel,
    c: MetaCommand,
    a: AdviceModel,
)
    requires
        c is DropTableTablets,
    ensures
        ({
            let (n, outcome) = step(m, c, a);
            let table = c->DropTableTablets_table@;
            let some = exists|t: TabletId| is_tablet_of(m, table, t);
            &&& outcome == ApplyOutcome::Applied <==> some
            &&& outcome == ApplyOutcome::NoOp <==> !some
            &&& forall|t: TabletId| #[trigger]
                n.tablets.contains_key(t) <==> m.tablets.contains_key(t) && !is_tablet_of(
                    m,
                    table,
                    t,
                )
            &&& forall|t: TabletId| #[trigger]
                n.tablets.contains_key(t) ==> n.tablets[t] == m.tablets[t]
            &&& forall|t: TabletId| #[trigger]
                n.policies.contains_key(t) <==> m.policies.contains_key(t) && !is_tablet_of(
                    m,
                    table,
                    t,
                )
            &&& forall|t: TabletId| #[trigger]
                n.policies.contains_key(t) ==> n.policies[t] == m.policies[t]
            &&& forall|k: (TabletId, Seq<char>)| #[trigger]
                n.index_backfill.contains_key(k) <==> m.index_backfill.contains_key(k)
                    && !is_tablet_of(
                    m,
                    table,
                    k.0,
                )
            &&& forall|t: TabletId| #[trigger]
                n.split_placing.contains_key(t) <==> m.split_placing.contains_key(t)
                    && !is_tablet_of(
                    m,
                    table,
                    t,
                )
            &&& forall|t: TabletId| #[trigger]
                n.split_placing.contains_key(t) ==> n.split_placing[t] == m.split_placing[t]
            &&& n == MetadataModel {
                tablets: n.tablets,
                policies: n.policies,
                index_backfill: n.index_backfill,
                split_placing: n.split_placing,
                cp_member_addrs: n.cp_member_addrs,
                cp_member_tablets: n.cp_member_tablets,
                ..m
            }
        }),
{
    let table = c->DropTableTablets_table@;
    a_table_has_the_tablets_scoped_to_it(m, table);
    let set = tablets_of(m, table);
    if exists|t: TabletId| is_tablet_of(m, table, t) {
        let t = choose|t: TabletId| is_tablet_of(m, table, t);
        assert(set.contains(t));
    }
    if !(set =~= Set::empty()) {
        let t = choose|t: TabletId| set.contains(t);
        assert(is_tablet_of(m, table, t));
    }
}

/// When tablets are dropped, a group member goes exactly if it served a tablet that is no longer
/// there; every other keeps its address and its tablet.
pub proof fn dropping_takes_the_members_of_the_tablets(
    m: MetadataModel,
    c: MetaCommand,
    a: AdviceModel,
    node: Seq<char>,
)
    requires
        c is DropTableTablets,
        step(m, c, a).1 == ApplyOutcome::Applied,
    ensures
        ({
            let n = step(m, c, a).0;
            let goes = m.cp_member_tablets.contains_key(node) && !n.tablets.contains_key(
                m.cp_member_tablets[node],
            );
            &&& n.cp_member_addrs.contains_key(node) <==> m.cp_member_addrs.contains_key(node)
                && !goes
            &&& n.cp_member_addrs.contains_key(node) ==> n.cp_member_addrs[node]
                == m.cp_member_addrs[node]
            &&& n.cp_member_tablets.contains_key(node) <==> m.cp_member_tablets.contains_key(node)
                && !goes
            &&& n.cp_member_tablets.contains_key(node) ==> n.cp_member_tablets[node]
                == m.cp_member_tablets[node]
        }),
{
}

/// The next free id is the lowest that may be: one, the allocator's floor, or one above a tablet of
/// the map, and not below any of these.
pub proof fn the_next_free_id_is_the_lowest(m: MetadataModel, id: TabletId)
    requires
        is_next_free(m, id),
    ensures
        id.0 >= 1,
        id.0 >= m.next_tablet_id,
        forall|t: TabletId| #[trigger] m.tablets.contains_key(t) ==> t.0 < id.0,
        id.0 == 1 || id.0 == m.next_tablet_id || exists|t: TabletId| #[trigger]
            m.tablets.contains_key(t) && t.0 + 1 == id.0,
{
    assert(!below_floor(m, id));
    if id.0 > 1 {
        let x = TabletId((id.0 - 1) as u64);
        assert(below_floor(m, x));
        if x.0 >= m.next_tablet_id {
            let t = choose|t: TabletId| #[trigger] m.tablets.contains_key(t) && x.0 <= t.0;
            assert(t.0 + 1 == id.0);
        }
    }
}

} // verus!
