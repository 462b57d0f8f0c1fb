//! Membership and the address books.
use crate::command::ApplyOutcome;
use crate::ids::{NodeId, TabletId};
use crate::meta::{Metadata, MetadataModel};
use crate::rows::{Member, MemberModel, NodeAddrs, NodeAddrsModel, NodeStatus};
use crate::sorted_map::{ascending, in_order, lookup, take_grows, SortedMap, SortedSet};
use crate::tablet::Tablet;
use crate::tablet_map::reject;
use crate::value::{Key, Value};
use vstd::prelude::*;

verus! {

/// What inserting or updating a member does: once a member was active, it stays recorded as such.
pub open spec fn upsert_member(
    m: MetadataModel,
    node: Seq<char>,
    labels: Map<Seq<char>, Seq<char>>,
    status: NodeStatus,
) -> (MetadataModel, ApplyOutcome) {
    let activated = status == NodeStatus::Active || (m.members.contains_key(node)
        && m.members[node].has_activated);
    (
        MetadataModel {
            members: m.members.insert(
                node,
                MemberModel { labels, status, has_activated: activated },
            ),
            ..m
        },
        ApplyOutcome::Applied,
    )
}

/// What registering a consensus-group member's address does: a tablet that it names must be in the
/// map.
pub open spec fn register_cp_addr(
    m: MetadataModel,
    id: Seq<char>,
    addr: Seq<char>,
    tablet: Option<TabletId>,
) -> (MetadataModel, ApplyOutcome) {
    if tablet is Some && !m.tablets.contains_key(tablet->0) {
        reject(m, "no such tablet for cp addr")
    } else if lookup(m.cp_member_addrs, id) == Some(addr) && lookup(m.cp_member_tablets, id)
        == tablet {
        (m, ApplyOutcome::NoOp)
    } else {
        (
            MetadataModel {
                cp_member_addrs: m.cp_member_addrs.insert(id, addr),
                cp_member_tablets: match tablet {
                    Some(t) => m.cp_member_tablets.insert(id, t),
                    None => m.cp_member_tablets.remove(id),
                },
                ..m
            },
            ApplyOutcome::Applied,
        )
    }
}

/// What updating a node's address book does: it never claims an id that is not known yet.
pub open spec fn register_node_addrs(
    m: MetadataModel,
    node: Seq<char>,
    addrs: NodeAddrsModel,
) -> (MetadataModel, ApplyOutcome) {
    if !m.members.contains_key(node) && !m.node_addrs.contains_key(node) {
        reject(
            m,
            "node id not yet a registered member — register it via MetaCommand::RegisterNode first",
        )
    } else if lookup(m.node_addrs, node) == Some(addrs) {
        (m, ApplyOutcome::NoOp)
    } else {
        (
            MetadataModel { node_addrs: m.node_addrs.insert(node, addrs), ..m },
            ApplyOutcome::Applied,
        )
    }
}

/// Whether a tablet's replica set names `node`.
pub open spec fn names_node(m: MetadataModel, node: Seq<char>) -> spec_fn(TabletId) -> bool {
    |t: TabletId| m.tablets[t].replicas.contains(node)
}

/// The tablets whose replica set names `node`.
pub open spec fn referencing(m: MetadataModel, node: Seq<char>) -> Set<TabletId> {
    m.tablets.dom().filter(names_node(m, node))
}

/// The state without any trace of `node` in membership and address books.
pub open spec fn without_node(m: MetadataModel, node: Seq<char>) -> MetadataModel {
    MetadataModel {
        members: m.members.remove(node),
        node_addrs: m.node_addrs.remove(node),
        cp_member_addrs: m.cp_member_addrs.remove(node),
        cp_member_tablets: m.cp_member_tablets.remove(node),
        ..m
    }
}

/// What removing a member does: only one that is drained and that no replica set names goes. A
/// claimed address book without a member goes too.
pub open spec fn remove_member(m: MetadataModel, node: Seq<char>) -> (
    MetadataModel,
    ApplyOutcome,
) {
    if !m.members.contains_key(node) {
        if m.node_addrs.contains_key(node) {
            (without_node(m, node), ApplyOutcome::Applied)
        } else {
            (m, ApplyOutcome::NoOp)
        }
    } else if m.members[node].status == NodeStatus::Active || m.members[node].status
        == NodeStatus::Joining {
        reject(m, "not drained: member is Active or Joining")
    } else if referencing(m, node).len() > 0 {
        reject(m, "still referenced by a tablet's replica set")
    } else {
        (without_node(m, node), ApplyOutcome::Applied)
    }
}

/// The membership after a node has registered: a data-capable node that is no member yet becomes
/// one that is down and was never active.
pub open spec fn with_claimed_member(
    m: MetadataModel,
    node: Seq<char>,
    addrs: NodeAddrsModel,
    labels: Map<Seq<char>, Seq<char>>,
) -> Map<Seq<char>, MemberModel> {
    if addrs.role != "control"@ && !m.members.contains_key(node) {
        m.members.insert(
            node,
            MemberModel { labels, status: NodeStatus::Down, has_activated: false },
        )
    } else {
        m.members
    }
}

/// What registering a node does: the first address book that is registered for an id holds it.
pub open spec fn register_node(
    m: MetadataModel,
    node: Seq<char>,
    addrs: NodeAddrsModel,
    labels: Map<Seq<char>, Seq<char>>,
) -> (MetadataModel, ApplyOutcome) {
    let members = with_claimed_member(m, node, addrs, labels);
    match lookup(m.node_addrs, node) {
        Some(existing) => if existing == addrs {
            if addrs.role != "control"@ && !m.members.contains_key(node) {
                (MetadataModel { members, ..m }, ApplyOutcome::Applied)
            } else {
                (m, ApplyOutcome::NoOp)
            }
        } else {
            reject(m, "node id already claimed by a different registration")
        },
        None => (
            MetadataModel { members, node_addrs: m.node_addrs.insert(node, addrs), ..m },
            ApplyOutcome::Applied,
        ),
    }
}

/// Whether a claimed identity never came to life: a member that is down, was never active and that
/// no replica set names, or an address book without a member.
pub open spec fn is_orphan(m: MetadataModel, node: Seq<char>) -> bool {
    match lookup(m.members, node) {
        None => true,
        Some(member) => member.status == NodeStatus::Down && !member.has_activated && referencing(
            m,
            node,
        ).len() == 0,
    }
}

/// Whether `node` is claimed, as a member or in the address book.
pub open spec fn is_claimed(m: MetadataModel, node: Seq<char>) -> bool {
    m.members.contains_key(node) || m.node_addrs.contains_key(node)
}

/// Whether `node` is among `nodes`.
pub fn node_in(nodes: &Vec<NodeId>, node: &NodeId) -> (b: bool)
    ensures
        b == nodes.deep_view().contains(node.deep_view()),
{
    let mut i: usize = 0;
    while i < nodes.len()
        invariant
            i <= nodes@.len(),
            forall|j: int| 0 <= j < i ==> #[trigger] nodes@[j].deep_view() != node.deep_view(),
        decreases nodes@.len() - i,
    {
        if nodes[i].same(node) {
            assert(nodes.deep_view()[i as int] == node.deep_view());
            return true;
        }
        i = i + 1;
    }
    proof {
        if nodes.deep_view().contains(node.deep_view()) {
            let j = choose|j: int|
                0 <= j < nodes.deep_view().len() && nodes.deep_view()[j] == node.deep_view();
            assert(nodes@[j].deep_view() == node.deep_view());
        }
    }
    false
}

impl Metadata {
    /// How many tablets still name `node` in their replica set.
    pub fn tablets_referencing(&self, node: &NodeId) -> (r: usize)
        ensures
            r == referencing(self@, node.deep_view()).len(),
    {
        let n: usize = self.tablets.len();
        let ghost keys = self.tablets.keys();
        let ghost p = names_node(self@, node.deep_view());
        let ghost mut found: Set<TabletId> = Set::empty();
        let mut count: usize = 0;
        let mut i: usize = 0;
        while i < n
            invariant
                i <= n,
                n == keys.len(),
                keys == self.tablets.keys(),
                in_order(self.tablets),
                p == names_node(self@, node.deep_view()),
                count <= i,
                found.finite(),
                count == found.len(),
                forall|t: TabletId| #[trigger]
                    found.contains(t) <==> keys.take(i as int).contains(t) && p(t),
            decreases n - i,
        {
            let t: &Tablet = self.tablets.value_at(i);
            proof {
                let k = keys[i as int];
                assert(self@.tablets[k] == t.deep_view());
                take_grows(keys, i as int);
                assert(!keys.take(i as int).contains(k)) by {
                    if keys.take(i as int).contains(k) {
                        let j = choose|j: int| 0 <= j < i && keys.take(i as int)[j] == k;
                        assert(keys[j] == k);
                        assert(ascending::<TabletId>(keys));
                        assert(TabletId::before(keys[j], keys[i as int]));
                    }
                }
            }
            if node_in(&t.replicas, node) {
                count = count + 1;
                proof {
                    found = found.insert(keys[i as int]);
                }
            }
            i = i + 1;
        }
        proof {
            assert(keys.take(n as int) =~= keys);
            assert forall|t: TabletId| found.contains(t) <==> referencing(
                self@,
                node.deep_view(),
            ).contains(t) by {
                assert(keys.contains(t) <==> self@.tablets.dom().contains(t));
            }
            assert(found =~= referencing(self@, node.deep_view()));
        }
        count
    }

    /// The claimed identities that never came to life: candidates for removal, once they have
    /// stayed so for long enough and are no control voters.
    pub fn orphan_sweep_candidates(&self) -> (r: SortedSet<NodeId>)
        ensures
            forall|n: Seq<char>| #[trigger]
                r@.contains(n) <==> is_claimed(self@, n) && is_orphan(self@, n),
    {
        let mut out: SortedSet<NodeId> = SortedSet::new();
        let n: usize = self.members.len();
        let ghost keys = self.members.keys();
        let mut i: usize = 0;
        while i < n
            invariant
                i <= n,
                n == keys.len(),
                keys == self.members.keys(),
                in_order(self.members),
                forall|x: Seq<char>| #[trigger]
                    out@.contains(x) <==> is_orphan(self@, x) && keys.take(i as int).contains(x),
            decreases n - i,
        {
            let node: &NodeId = self.members.key_at(i);
            proof {
                take_grows(keys, i as int);
            }
            if self.is_orphan_sweep_candidate(node) {
                out.insert(node.dup());
            }
            i = i + 1;
        }
        assert(keys.take(n as int) =~= keys);
        assert(forall|x: Seq<char>| #[trigger]
            out@.contains(x) <==> is_orphan(self@, x) && keys.contains(x));
        assert(forall|x: Seq<char>| #[trigger]
            keys.contains(x) <==> self@.members.contains_key(x));
        let n2: usize = self.node_addrs.len();
        let ghost keys2 = self.node_addrs.keys();
        let mut j: usize = 0;
        while j < n2
            invariant
                j <= n2,
                n2 == keys2.len(),
                keys2 == self.node_addrs.keys(),
                in_order(self.node_addrs),
                forall|x: Seq<char>| #[trigger]
                    out@.contains(x) <==> is_orphan(self@, x) && (self@.members.contains_key(x)
                        || keys2.take(j as int).contains(x)),
            decreases n2 - j,
        {
            let node: &NodeId = self.node_addrs.key_at(j);
            proof {
                take_grows(keys2, j as int);
            }
            if self.is_orphan_sweep_candidate(node) {
                out.insert(node.dup());
            }
            j = j + 1;
        }
        assert(keys2.take(n2 as int) =~= keys2);
        assert(forall|x: Seq<char>| #[trigger]
            keys2.contains(x) <==> self@.node_addrs.contains_key(x));
        out
    }

    fn is_orphan_sweep_candidate(&self, node: &NodeId) -> (b: bool)
        ensures
            b == is_orphan(self@, node.deep_view()),
    {
        match self.members.get(node) {
            None => true,
            Some(m) => m.status == NodeStatus::Down && !m.has_activated && self.tablets_referencing(
                node,
            ) == 0,
        }
    }

    pub(crate) fn apply_upsert_member(
        &mut self,
        node: &NodeId,
        labels: &SortedMap<String, String>,
        status: NodeStatus,
    ) -> (out: ApplyOutcome)
        ensures
            (final(self)@, out) == upsert_member(old(self)@, node.deep_view(), labels@, status),
    {
        let was: bool = match self.members.get(node) {
            Some(m) => m.has_activated,
            None => false,
        };
        let has_activated: bool = was || status == NodeStatus::Active;
        self.members.insert(node.dup(), Member { labels: labels.dup(), status, has_activated });
        ApplyOutcome::Applied
    }

    pub(crate) fn apply_register_cp_addr(
        &mut self,
        id: &NodeId,
        addr: &String,
        tablet: &Option<TabletId>,
    ) -> (out: ApplyOutcome)
        ensures
            (final(self)@, out) == register_cp_addr(old(self)@, id.deep_view(), addr@, *tablet),
    {
        if let Some(t) = tablet {
            if !self.tablets.contains_key(t) {
                return ApplyOutcome::Rejected("no such tablet for cp addr");
            }
        }
        let same_addr: bool = match self.cp_member_addrs.get(id) {
            Some(a) => a.same(addr),
            None => false,
        };
        let same_tablet: bool = match (self.cp_member_tablets.get(id), tablet) {
            (Some(a), Some(b)) => *a == *b,
            (None, None) => true,
            _ => false,
        };
        if same_addr && same_tablet {
            return ApplyOutcome::NoOp;
        }
        self.cp_member_addrs.insert(id.dup(), addr.dup());
        match tablet {
            Some(t) => {
                self.cp_member_tablets.insert(id.dup(), *t);
            },
            None => {
                self.cp_member_tablets.remove(id);
            },
        }
        ApplyOutcome::Applied
    }

    pub(crate) fn apply_register_node_addrs(
        &mut self,
        node: &NodeId,
        addrs: &NodeAddrs,
    ) -> (out: ApplyOutcome)
        ensures
            (final(self)@, out) == register_node_addrs(
                old(self)@,
                node.deep_view(),
                addrs.deep_view(),
            ),
    {
        if !self.members.contains_key(node) && !self.node_addrs.contains_key(node) {
            return ApplyOutcome::Rejected(
                "node id not yet a registered member — register it via MetaCommand::RegisterNode first",
            );
        }
        let unchanged: bool = match self.node_addrs.get(node) {
            Some(existing) => existing.same(addrs),
            None => false,
        };
        if unchanged {
            return ApplyOutcome::NoOp;
        }
        self.node_addrs.insert(node.dup(), addrs.dup());
        ApplyOutcome::Applied
    }

    /// Takes `node` out of membership and address books.
    fn forget_node(&mut self, node: &NodeId)
        ensures
            final(self)@ == without_node(old(self)@, node.deep_view()),
    {
        self.members.remove(node);
        self.node_addrs.remove(node);
        self.cp_member_addrs.remove(node);
        self.cp_member_tablets.remove(node);
    }

    pub(crate) fn apply_remove_member(&mut self, node: &NodeId) -> (out: ApplyOutcome)
        ensures
            (final(self)@, out) == remove_member(old(self)@, node.deep_view()),
    {
        match self.members.get(node) {
            None => {
                if self.node_addrs.contains_key(node) {
                    self.forget_node(node);
                    return ApplyOutcome::Applied;
                }
                return ApplyOutcome::NoOp;
            },
            Some(member) => {
                if member.status == NodeStatus::Active || member.status == NodeStatus::Joining {
                    return ApplyOutcome::Rejected("not drained: member is Active or Joining");
                }
            },
        }
        if self.tablets_referencing(node) > 0 {
            return ApplyOutcome::Rejected("still referenced by a tablet's replica set");
        }
        self.forget_node(node);
        ApplyOutcome::Applied
    }

    pub(crate) fn apply_register_node(
        &mut self,
        node: &NodeId,
        addrs: &NodeAddrs,
        labels: &SortedMap<String, String>,
    ) -> (out: ApplyOutcome)
        ensures
            (final(self)@, out) == register_node(
                old(self)@,
                node.deep_view(),
                addrs.deep_view(),
                labels@,
            ),
    {
        let control: bool = addrs.role.same(&"control".to_owned());
        let claims: bool = !control && !self.members.contains_key(node);
        let unclaimed: bool = match self.node_addrs.get(node) {
            Some(existing) => {
                if !existing.same(addrs) {
                    return ApplyOutcome::Rejected(
                        "node id already claimed by a different registration",
                    );
                }
                false
            },
            None => true,
        };
        if unclaimed {
            self.node_addrs.insert(node.dup(), addrs.dup());
        } else if !claims {
            return ApplyOutcome::NoOp;
        }
        if claims {
            self.members.insert(
                node.dup(),
                Member { labels: labels.dup(), status: NodeStatus::Down, has_activated: false },
            );
        }
        ApplyOutcome::Applied
    }
}

} // verus!
