//! Split lineage: from a tablet up to the tablets it was split from, and down again.
use crate::ids::TabletId;
use crate::meta::{Metadata, MetadataModel};
use crate::rows::SplitLineage;
use crate::sorted_map::{in_order, listing, lists, select_done, select_none, select_step, selected};
use vstd::prelude::*;

verus! {

/// The tablet that `n` steps up the lineage lead to from `t`, if the chain is that long.
pub open spec fn climb(lineage: Map<TabletId, SplitLineage>, t: TabletId, n: nat) -> Option<
    TabletId,
>
    decreases n,
{
    if n == 0 {
        Some(t)
    } else {
        match climb(lineage, t, (n - 1) as nat) {
            Some(x) => if lineage.contains_key(x) {
                Some(lineage[x].parent)
            } else {
                None
            },
            None => None,
        }
    }
}

/// No tablet is its own ancestor.
pub open spec fn acyclic(lineage: Map<TabletId, SplitLineage>) -> bool {
    forall|t: TabletId, n: nat| n > 0 ==> #[trigger] climb(lineage, t, n) != Some(t)
}

/// Whether `c` was split, in one or more generations, from `a`.
pub open spec fn descends(lineage: Map<TabletId, SplitLineage>, c: TabletId, a: TabletId) -> bool {
    exists|n: nat| n > 0 && #[trigger] climb(lineage, c, n) == Some(a)
}

/// Every tablet that was split, in one or more generations, from `a`.
pub open spec fn below(lineage: Map<TabletId, SplitLineage>, a: TabletId) -> Set<TabletId> {
    lineage.dom().filter(|c: TabletId| descends(lineage, c, a))
}

/// Whether a split child's parent is `a`.
pub open spec fn split_from(lineage: Map<TabletId, SplitLineage>, a: TabletId) -> spec_fn(
    TabletId,
) -> bool {
    |c: TabletId| lineage[c].parent == a
}

/// The tablets that `a` was split into.
pub open spec fn children(lineage: Map<TabletId, SplitLineage>, a: TabletId) -> Set<TabletId> {
    lineage.dom().filter(split_from(lineage, a))
}

/// Steps up the lineage add up.
pub proof fn climb_adds(lineage: Map<TabletId, SplitLineage>, t: TabletId, n: nat, k: nat)
    requires
        climb(lineage, t, n) is Some,
    ensures
        climb(lineage, t, n + k) == climb(lineage, climb(lineage, t, n)->0, k),
    decreases k,
{
    if k > 0 {
        climb_adds(lineage, t, n, (k - 1) as nat);
        assert((n + k - 1) as nat == n + (k - 1) as nat);
    }
}

/// A chain that is long enough for `n` steps is long enough for fewer.
pub proof fn climb_prefix(lineage: Map<TabletId, SplitLineage>, t: TabletId, n: nat, k: nat)
    requires
        climb(lineage, t, n) is Some,
        k <= n,
    ensures
        climb(lineage, t, k) is Some,
    decreases n,
{
    if k < n {
        climb_prefix(lineage, t, (n - 1) as nat, k);
    }
}

/// On an acyclic lineage a child has fewer descendants than its parent.
pub proof fn below_shrinks(lineage: Map<TabletId, SplitLineage>, a: TabletId, c: TabletId)
    requires
        acyclic(lineage),
        lineage.dom().finite(),
        children(lineage, a).contains(c),
    ensures
        below(lineage, c).subset_of(below(lineage, a)),
        below(lineage, c).len() < below(lineage, a).len(),
        below(lineage, a).finite(),
{
    let up = below(lineage, a);
    let down = below(lineage, c);
    lineage.dom().lemma_len_filter(|x: TabletId| descends(lineage, x, a));
    lineage.dom().lemma_len_filter(|x: TabletId| descends(lineage, x, c));
    assert(climb(lineage, c, 0) == Some(c));
    assert(climb(lineage, c, 1) == Some(a));
    assert(descends(lineage, c, a));
    assert(up.contains(c));
    assert forall|x: TabletId| down.contains(x) implies up.contains(x) by {
        let n = choose|n: nat| n > 0 && #[trigger] climb(lineage, x, n) == Some(c);
        assert(climb(lineage, x, n + 1) == Some(a));
    }
    assert(!down.contains(c)) by {
        if descends(lineage, c, c) {
            let n = choose|n: nat| n > 0 && #[trigger] climb(lineage, c, n) == Some(c);
            assert(climb(lineage, c, n) != Some(c));
        }
    }
    vstd::set_lib::lemma_len_subset(down, up.remove(c));
}

/// The live tablets that hold the keys of `ancestor` today: itself while it is live, else those of
/// each tablet that it was split into, in ascending order.
pub open spec fn live_descendants(m: MetadataModel, ancestor: TabletId) -> Seq<TabletId>
    decreases
            below(m.split_lineage, ancestor).len(),
            listing::<TabletId>(children(m.split_lineage, ancestor)).len() + 1,
    when acyclic(m.split_lineage) && m.split_lineage.dom().finite()
{
    if m.tablets.contains_key(ancestor) {
        seq![ancestor]
    } else {
        live_of_children(m, ancestor, listing::<TabletId>(children(m.split_lineage, ancestor)))
    }
}

/// The live tablets below each of `cs`, which are children of `ancestor`.
pub open spec fn live_of_children(
    m: MetadataModel,
    ancestor: TabletId,
    cs: Seq<TabletId>,
) -> Seq<TabletId>
    decreases below(m.split_lineage, ancestor).len(), cs.len(),
    when acyclic(m.split_lineage) && m.split_lineage.dom().finite()
    via live_of_children_shrinks
{
    if cs.len() == 0 || !children(m.split_lineage, ancestor).contains(cs.last()) {
        Seq::empty()
    } else {
        live_of_children(m, ancestor, cs.drop_last()) + live_descendants(m, cs.last())
    }
}

#[via_fn]
proof fn live_of_children_shrinks(m: MetadataModel, ancestor: TabletId, cs: Seq<TabletId>) {
    if cs.len() > 0 && children(m.split_lineage, ancestor).contains(cs.last()) {
        below_shrinks(m.split_lineage, ancestor, cs.last());
    }
}

impl Metadata {
    /// The live tablets that hold the keys of `ancestor` today: itself while it is live, else the
    /// live tablets that it was split into, over as many generations as there were. Empty if it is
    /// neither live nor ever was split.
    pub fn live_split_descendants(&self, ancestor: TabletId) -> (r: Vec<TabletId>)
        requires
            acyclic(self@.split_lineage),
        ensures
            r.deep_view() == live_descendants(self@, ancestor),
        decreases below(self@.split_lineage, ancestor).len(),
    {
        let n: usize = self.split_lineage.len();
        let mut out: Vec<TabletId> = Vec::new();
        if self.tablets.contains_key(&ancestor) {
            out.push(ancestor);
            assert(out.deep_view() =~= seq![ancestor]);
            return out;
        }
        let ghost lineage = self@.split_lineage;
        let ghost keys = self.split_lineage.keys();
        let ghost p = split_from(lineage, ancestor);
        let ghost mut ids: Seq<TabletId> = Seq::empty();
        let mut i: usize = 0;
        proof {
            select_none::<TabletId>(keys, p);
            assert(out.deep_view() =~= live_of_children(self@, ancestor, ids));
        }
        while i < n
            invariant
                i <= n,
                n == keys.len(),
                keys == self.split_lineage.keys(),
                lineage == self@.split_lineage,
                in_order(self.split_lineage),
                acyclic(lineage),
                p == split_from(lineage, ancestor),
                lists::<TabletId>(ids, selected::<TabletId>(keys, i as int, p)),
                out.deep_view() == live_of_children(self@, ancestor, ids),
            decreases n - i,
        {
            let child: TabletId = *self.split_lineage.key_at(i);
            let row: &SplitLineage = self.split_lineage.value_at(i);
            proof {
                select_step::<TabletId>(keys, i as int, p, ids);
                assert(lineage[keys[i as int]] == self.split_lineage.values()[i as int]);
            }
            if row.parent == ancestor {
                proof {
                    assert(children(lineage, ancestor).contains(child));
                    below_shrinks(lineage, ancestor, child);
                }
                let mut more: Vec<TabletId> = self.live_split_descendants(child);
                let ghost before = out.deep_view();
                let ghost extra = more.deep_view();
                out.append(&mut more);
                proof {
                    assert(out.deep_view() =~= before + extra);
                    let next = ids.push(child);
                    assert(next.drop_last() =~= ids);
                    ids = next;
                }
            }
            i = i + 1;
        }
        proof {
            select_done::<TabletId>(keys, lineage.dom(), p, ids);
        }
        out
    }
}

/// Whether the tablet `t`, or a tablet that it was split from, is one of `pinned`, within as many
/// steps up as the lineage has rows.
pub open spec fn traces_to(
    lineage: Map<TabletId, SplitLineage>,
    pinned: Set<TabletId>,
    t: TabletId,
) -> bool {
    exists|n: nat| n <= lineage.dom().len() && traced(lineage, pinned, t, n)
}

/// Whether `n` steps up from `t` lead to one of `pinned`.
pub open spec fn traced(
    lineage: Map<TabletId, SplitLineage>,
    pinned: Set<TabletId>,
    t: TabletId,
    n: nat,
) -> bool {
    climb(lineage, t, n) matches Some(x) && pinned.contains(x)
}

} // verus!
