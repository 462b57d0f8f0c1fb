//! What the membership commands do, field by field.
use crate::advice::AdviceModel;
use crate::apply::step;
use crate::command::{ApplyOutcome, MetaCommand};
use crate::ids::TabletId;
use crate::membership::{is_claimed, is_orphan, referencing};
use crate::meta::{finite, MetadataModel};
use crate::rows::{MemberModel, NodeStatus};
use vstd::prelude::*;

verus! {

/// A member is recorded as it was given, and stays known to have been active once it was; nothing
/// and nobody else is touched.
pub proof fn a_member_is_recorded_as_given(m: MetadataModel, c: MetaCommand, a: AdviceModel)
    requires
        c is UpsertMember,
    ensures
        ({
            let (n, outcome) = step(m, c, a);
            let node = c->UpsertMember_node.0@;
            &&& outcome == ApplyOutcome::Applied
            &&& n.members.contains_key(node)
            &&& n.members[node].labels == c->UpsertMember_labels@
            &&& n.members[node].status == c->UpsertMember_status
            &&& n.members[node].has_activated <==> c->UpsertMember_status == NodeStatus::Active || (
            m.members.contains_key(node) && m.members[node].has_activated)
            &&& n.members.remove(node) == m.members.remove(node)
            &&& n == MetadataModel { members: n.members, ..m }
        }),
{
    let n = step(m, c, a).0;
    let node = c->UpsertMember_node.0@;
    assert(n.members.remove(node) =~= m.members.remove(node));
}

/// A registered group member has the address and the tablet of the registration, and no tablet if
/// it named none; a registration that names a tablet which is not there is refused, and one that
/// says nothing new changes nothing.
pub proof fn a_group_address_is_recorded_as_given(m: MetadataModel, c: MetaCommand, a: AdviceModel)
    requires
        c is RegisterCpAddr,
    ensures
        ({
            let (n, outcome) = step(m, c, a);
            let id = c->RegisterCpAddr_id.0@;
            let addr = c->RegisterCpAddr_addr@;
            let tablet = c->RegisterCpAddr_tablet;
            &&& outcome is Rejected <==> (tablet is Some && !m.tablets.contains_key(tablet->0))
            &&& outcome !is Rejected ==> {
                &&& n.cp_member_addrs.contains_key(id)
                &&& n.cp_member_addrs[id] == addr
                &&& n.cp_member_tablets.contains_key(id) <==> tablet is Some
                &&& tablet is Some ==> n.cp_member_tablets[id] == tablet->0
            }
            &&& outcome == ApplyOutcome::Applied ==> n != m
            &&& n.cp_member_addrs.remove(id) == m.cp_member_addrs.remove(id)
            &&& n.cp_member_tablets.remove(id) == m.cp_member_tablets.remove(id)
            &&& n == MetadataModel {
                cp_member_addrs: n.cp_member_addrs,
                cp_member_tablets: n.cp_member_tablets,
                ..m
            }
        }),
{
    let n = step(m, c, a).0;
    let id = c->RegisterCpAddr_id.0@;
    assert(n.cp_member_addrs.remove(id) =~= m.cp_member_addrs.remove(id));
    assert(n.cp_member_tablets.remove(id) =~= m.cp_member_tablets.remove(id));
    if step(m, c, a).1 == ApplyOutcome::Applied {
        assert(n.cp_member_addrs.contains_key(id) && n.cp_member_addrs[id]
            == c->RegisterCpAddr_addr@);
    }
}

/// An address book is replaced for a known node only, by the one that is given.
pub proof fn a_known_node_can_change_its_addresses(m: MetadataModel, c: MetaCommand, a: AdviceModel)
    requires
        c is RegisterNodeAddrs,
    ensures
        ({
            let (n, outcome) = step(m, c, a);
            let node = c->RegisterNodeAddrs_node.0@;
            let addrs = c->RegisterNodeAddrs_addrs.deep_view();
            &&& outcome is Rejected <==> !(m.members.contains_key(node)
                || m.node_addrs.contains_key(node))
            &&& outcome == ApplyOutcome::NoOp <==> m.node_addrs.contains_key(node)
                && m.node_addrs[node] == addrs
            &&& outcome !is Rejected ==> n.node_addrs.contains_key(node) && n.node_addrs[node]
                == addrs
            &&& n.node_addrs.remove(node) == m.node_addrs.remove(node)
            &&& n == MetadataModel { node_addrs: n.node_addrs, ..m }
        }),
{
    let n = step(m, c, a).0;
    let node = c->RegisterNodeAddrs_node.0@;
    assert(n.node_addrs.remove(node) =~= m.node_addrs.remove(node));
}

/// A node goes exactly if it is a member that is draining or down and that no replica set names, or
/// if it is in the address book without being a member. With it go its membership, its addresses
/// and its tablet; every other node keeps all of that.
pub proof fn only_a_drained_member_goes(m: MetadataModel, c: MetaCommand, a: AdviceModel)
    requires
        c is RemoveMember,
        finite(m),
    ensures
        ({
            let (n, outcome) = step(m, c, a);
            let node = c->RemoveMember_node.0@;
            let drained = m.members[node].status == NodeStatus::Leaving || m.members[node].status
                == NodeStatus::Down;
            let named = exists|t: TabletId| #[trigger]
                m.tablets.contains_key(t) && m.tablets[t].replicas.contains(node);
            &&& outcome == ApplyOutcome::Applied <==> if m.members.contains_key(node) {
                drained && !named
            } else {
                m.node_addrs.contains_key(node)
            }
            &&& outcome == ApplyOutcome::NoOp <==> !m.members.contains_key(node)
                && !m.node_addrs.contains_key(node)
            &&& outcome == ApplyOutcome::Applied ==> {
                &&& n.members == m.members.remove(node)
                &&& n.node_addrs == m.node_addrs.remove(node)
                &&& n.cp_member_addrs == m.cp_member_addrs.remove(node)
                &&& n.cp_member_tablets == m.cp_member_tablets.remove(node)
                &&& n == MetadataModel {
                    members: n.members,
                    node_addrs: n.node_addrs,
                    cp_member_addrs: n.cp_member_addrs,
                    cp_member_tablets: n.cp_member_tablets,
                    ..m
                }
            }
        }),
{
    let node = c->RemoveMember_node.0@;
    let n = step(m, c, a).0;
    reveal(finite);
    referencing_counts_the_naming_tablets(m, node);
    if !m.members.contains_key(node) {
        assert(m.members.remove(node) =~= m.members);
    }
}

/// The tablets that reference a node are those whose replica set names it; there are none exactly
/// if no replica set names it.
pub proof fn referencing_counts_the_naming_tablets(m: MetadataModel, node: Seq<char>)
    requires
        m.tablets.dom().finite(),
    ensures
        forall|t: TabletId| #[trigger]
            referencing(m, node).contains(t) <==> m.tablets.contains_key(t)
                && m.tablets[t].replicas.contains(node),
        referencing(m, node).finite(),
        referencing(m, node).len() > 0 <==> exists|t: TabletId| #[trigger]
            m.tablets.contains_key(t) && m.tablets[t].replicas.contains(node),
{
    let set = referencing(m, node);
    m.tablets.dom().lemma_len_filter(crate::membership::names_node(m, node));
    if set.len() > 0 {
        assert(set.contains(set.choose()));
        assert(m.tablets.contains_key(set.choose()));
    }
    if exists|t: TabletId| #[trigger]
        m.tablets.contains_key(t) && m.tablets[t].replicas.contains(node) {
        let t = choose|t: TabletId| #[trigger]
            m.tablets.contains_key(t) && m.tablets[t].replicas.contains(node);
        assert(set.contains(t));
        if set.len() == 0 {
            assert(set =~= Set::empty());
        }
    }
}

/// A registration claims its id unless another address book holds it. A node that can hold data
/// becomes a member that is down, was never active and has the given labels, unless it is a member
/// already; a control node never becomes one.
pub proof fn a_registration_claims_its_id(m: MetadataModel, c: MetaCommand, a: AdviceModel)
    requires
        c is RegisterNode,
    ensures
        ({
            let (n, outcome) = step(m, c, a);
            let node = c->RegisterNode_node.0@;
            let addrs = c->RegisterNode_addrs.deep_view();
            let joins = addrs.role != "control"@ && !m.members.contains_key(node);
            &&& outcome is Rejected <==> m.node_addrs.contains_key(node) && m.node_addrs[node]
                != addrs
            &&& outcome == ApplyOutcome::NoOp <==> m.node_addrs.contains_key(node)
                && m.node_addrs[node] == addrs && !joins
            &&& outcome !is Rejected ==> n.node_addrs.contains_key(node) && n.node_addrs[node]
                == addrs && (joins ==> n.members.contains_key(node) && n.members[node] == (
            MemberModel {
                labels: c->RegisterNode_labels@,
                status: NodeStatus::Down,
                has_activated: false,
            })) && (!joins ==> n.members == m.members)
            &&& n.node_addrs.remove(node) == m.node_addrs.remove(node)
            &&& n.members.remove(node) == m.members.remove(node)
            &&& n == MetadataModel { members: n.members, node_addrs: n.node_addrs, ..m }
        }),
{
    let n = step(m, c, a).0;
    let node = c->RegisterNode_node.0@;
    assert(n.node_addrs.remove(node) =~= m.node_addrs.remove(node));
    assert(n.members.remove(node) =~= m.members.remove(node));
}

/// What is swept never lived: an id that is claimed in the address book alone, or a member that is
/// down, was never active and is named by no replica set. Everything of that kind is swept.
pub proof fn what_is_swept_never_lived(m: MetadataModel, node: Seq<char>)
    requires
        m.tablets.dom().finite(),
    ensures
        is_claimed(m, node) && is_orphan(m, node) <==> if m.members.contains_key(node) {
            &&& m.members[node].status == NodeStatus::Down
            &&& !m.members[node].has_activated
            &&& forall|t: TabletId| #[trigger]
                m.tablets.contains_key(t) ==> !m.tablets[t].replicas.contains(node)
        } else {
            m.node_addrs.contains_key(node)
        },
{
    referencing_counts_the_naming_tablets(m, node);
}

} // verus!
