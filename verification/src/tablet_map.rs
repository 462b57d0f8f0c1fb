//! The tablet map: creating, moving and dropping tablets.
use crate::command::ApplyOutcome;
use crate::ids::{next_epoch, Epoch, NodeId, TableName, TabletId};
use crate::meta::{Metadata, MetadataModel};
use crate::policy::{PlacementPolicy, PlacementPolicyModel};
use crate::sorted_map::{
    in_order, listing, lists, select_done, select_none, select_step, selected, sorted_unique,
    SortedMap,
};
use crate::tablet::{new_tablet, normal_replicas, KeyRange, KeyRangeModel, Tablet, TabletModel};
use crate::value::{Key, Value};
use vstd::prelude::*;

verus! {

/// The command is refused for the reason `why`, and the state stays as it is.
pub open spec fn reject(m: MetadataModel, why: &'static str) -> (MetadataModel, ApplyOutcome) {
    (m, ApplyOutcome::Rejected(why))
}

/// Whether a tablet of the map is scoped to `table`.
pub open spec fn scoped(m: MetadataModel, table: Seq<char>) -> spec_fn(TabletId) -> bool {
    |t: TabletId| m.tablets[t].table == Some(table)
}

/// The tablets that are scoped to `table`.
pub open spec fn tablets_of(m: MetadataModel, table: Seq<char>) -> Set<TabletId> {
    m.tablets.dom().filter(scoped(m, table))
}

/// Whether a tablet is scoped to `table`.
pub open spec fn has_tablet_of(m: MetadataModel, table: Seq<char>) -> bool {
    exists|t: TabletId| tablets_of(m, table).contains(t)
}

/// The named tablets beside what the map holds of them.
pub open spec fn tablet_rows(m: MetadataModel, ids: Seq<TabletId>) -> Seq<(TabletId, TabletModel)> {
    Seq::new(ids.len(), |i: int| (ids[i], m.tablets[ids[i]]))
}

/// Whether `id` lies below the allocator floor: reserved, handed out before, or not above every
/// tablet of the map.
pub open spec fn below_floor(m: MetadataModel, id: TabletId) -> bool {
    id.0 < 1 || id.0 < m.next_tablet_id || exists|t: TabletId| #[trigger]
        m.tablets.contains_key(t) && id.0 <= t.0
}

/// Whether `id` is the lowest that does not lie below the allocator floor.
pub open spec fn is_next_free(m: MetadataModel, id: TabletId) -> bool {
    !below_floor(m, id) && forall|x: TabletId| x.0 < id.0 ==> #[trigger] below_floor(m, x)
}

/// No tablet of the map has the highest id there is.
pub open spec fn ids_bounded(m: MetadataModel) -> bool {
    forall|t: TabletId| #[trigger] m.tablets.contains_key(t) ==> t.0 < u64::MAX
}

/// The allocator floor once `id` has been handed out.
pub open spec fn floor_past(floor: u64, id: TabletId) -> u64 {
    if floor <= id.0 {
        (id.0 + 1) as u64
    } else {
        floor
    }
}

/// Why a tablet may not be created, if it may not.
pub open spec fn create_tablet_refusal(
    m: MetadataModel,
    tablet: TabletId,
    table: Option<Seq<char>>,
) -> Option<&'static str> {
    if m.tablets.contains_key(tablet) {
        Some("tablet already exists")
    } else if table is Some && has_tablet_of(m, table->0) {
        Some("table already has a tablet")
    } else if below_floor(m, tablet) {
        Some("tablet id below the monotonic allocator")
    } else {
        None
    }
}

/// What creating a tablet does: the first tablet of its table enters the map under an id that was
/// never handed out, active at the initial epoch.
pub open spec fn create_tablet(
    m: MetadataModel,
    tablet: TabletId,
    table: Option<Seq<char>>,
    range: KeyRangeModel,
    replicas: Seq<Seq<char>>,
) -> (MetadataModel, ApplyOutcome) {
    match create_tablet_refusal(m, tablet, table) {
        Some(why) => reject(m, why),
        None => (
            MetadataModel {
                tablets: m.tablets.insert(tablet, new_tablet(tablet, table, range, replicas)),
                next_tablet_id: floor_past(m.next_tablet_id, tablet),
                ..m
            },
            ApplyOutcome::Applied,
        ),
    }
}

/// What replacing a replica set does: it takes effect only at the expected epoch, and raises it.
pub open spec fn cas_tablet_replicas(
    m: MetadataModel,
    tablet: TabletId,
    expected_epoch: Epoch,
    replicas: Seq<Seq<char>>,
) -> (MetadataModel, ApplyOutcome) {
    if !m.tablets.contains_key(tablet) {
        reject(m, "no such tablet")
    } else if m.tablets[tablet].epoch != expected_epoch {
        reject(m, "epoch mismatch")
    } else {
        (
            MetadataModel {
                tablets: m.tablets.insert(
                    tablet,
                    TabletModel {
                        replicas: normal_replicas(replicas),
                        epoch: next_epoch(expected_epoch),
                        ..m.tablets[tablet]
                    },
                ),
                ..m
            },
            ApplyOutcome::Applied,
        )
    }
}

/// What setting a policy does.
pub open spec fn set_tablet_policy(
    m: MetadataModel,
    tablet: TabletId,
    policy: Option<PlacementPolicyModel>,
) -> (MetadataModel, ApplyOutcome) {
    if !m.tablets.contains_key(tablet) {
        reject(m, "no such tablet")
    } else {
        (
            MetadataModel {
                policies: match policy {
                    Some(p) => m.policies.insert(tablet, p),
                    None => m.policies.remove(tablet),
                },
                ..m
            },
            ApplyOutcome::Applied,
        )
    }
}

/// The consensus-group members whose tablet is not in the map.
pub open spec fn dead_members(
    cp_member_tablets: Map<Seq<char>, TabletId>,
    tablets: Map<TabletId, TabletModel>,
) -> Set<Seq<char>> {
    cp_member_tablets.dom().filter(dead_member(cp_member_tablets, tablets))
}

/// Whether a member's tablet is not in the map.
pub open spec fn dead_member(
    cp_member_tablets: Map<Seq<char>, TabletId>,
    tablets: Map<TabletId, TabletModel>,
) -> spec_fn(Seq<char>) -> bool {
    |n: Seq<char>| !tablets.contains_key(cp_member_tablets[n])
}

/// The state without the addresses of the members whose tablet is not in the map.
pub open spec fn prune_cp_member_addrs(m: MetadataModel) -> MetadataModel {
    let dead = dead_members(m.cp_member_tablets, m.tablets);
    MetadataModel {
        cp_member_addrs: m.cp_member_addrs.remove_keys(dead),
        cp_member_tablets: m.cp_member_tablets.remove_keys(dead),
        ..m
    }
}

/// The backfill records of the tablets in `ids`.
pub open spec fn backfill_of(m: MetadataModel, ids: Set<TabletId>) -> Set<(TabletId, Seq<char>)> {
    m.index_backfill.dom().filter(backfills(ids, None))
}

/// Whether a backfill record is that of a tablet in `ids`, and of the index if one is named.
pub open spec fn backfills(ids: Set<TabletId>, index: Option<Seq<char>>) -> spec_fn(
    (TabletId, Seq<char>),
) -> bool {
    |k: (TabletId, Seq<char>)| ids.contains(k.0) && (index is Some ==> index == Some(k.1))
}

/// The state without the tablets in `ids` and what hangs on them: policies, backfill records,
/// placement obligations, member addresses.
pub open spec fn without_tablets(m: MetadataModel, ids: Set<TabletId>) -> MetadataModel {
    prune_cp_member_addrs(
        MetadataModel {
            tablets: m.tablets.remove_keys(ids),
            policies: m.policies.remove_keys(ids),
            index_backfill: m.index_backfill.remove_keys(backfill_of(m, ids)),
            split_placing: m.split_placing.remove_keys(ids),
            ..m
        },
    )
}

/// What dropping a table's tablets does.
pub open spec fn drop_table_tablets(m: MetadataModel, table: Seq<char>) -> (
    MetadataModel,
    ApplyOutcome,
) {
    let dropped = tablets_of(m, table);
    if dropped =~= Set::empty() {
        (m, ApplyOutcome::NoOp)
    } else {
        (without_tablets(m, dropped), ApplyOutcome::Applied)
    }
}

impl Metadata {
    /// The tablets that are scoped to `table`, in ascending id order. A tablet that serves every
    /// table is not scoped to any.
    pub fn tablets_for_table(&self, table: &str) -> (r: Vec<(TabletId, &Tablet)>)
        ensures
            r.deep_view() == tablet_rows(self@, listing::<TabletId>(tablets_of(self@, table@))),
            lists::<TabletId>(
                listing::<TabletId>(tablets_of(self@, table@)),
                tablets_of(self@, table@),
            ),
    {
        let name: String = table.to_owned();
        let n: usize = self.tablets.len();
        let ghost keys = self.tablets.keys();
        let ghost mut ids: Seq<TabletId> = Seq::empty();
        let mut out: Vec<(TabletId, &Tablet)> = Vec::new();
        let mut i: usize = 0;
        proof {
            select_none::<TabletId>(keys, scoped(self@, table@));
        }
        while i < n
            invariant
                i <= n,
                n == keys.len(),
                keys == self.tablets.keys(),
                in_order(self.tablets),
                name@ == table@,
                lists::<TabletId>(ids, selected::<TabletId>(keys, i as int, scoped(self@, table@))),
                out.deep_view() == tablet_rows(self@, ids),
            decreases n - i,
        {
            let t: &Tablet = self.tablets.value_at(i);
            let ghost before = out.deep_view();
            proof {
                select_step::<TabletId>(keys, i as int, scoped(self@, table@), ids);
                assert(self@.tablets[keys[i as int]] == t.deep_view());
            }
            let mine: bool = match &t.table {
                Some(owner) => owner.same(&name),
                None => false,
            };
            if mine {
                let id: TabletId = *self.tablets.key_at(i);
                out.push((id, t));
                proof {
                    ids = ids.push(id);
                    assert(out.deep_view() =~= before.push((id, t.deep_view())));
                    assert(out.deep_view() =~= tablet_rows(self@, ids));
                }
            }
            i = i + 1;
        }
        proof {
            select_done::<TabletId>(keys, self@.tablets.dom(), scoped(self@, table@), ids);
        }
        out
    }

    /// The ids of the tablets that are scoped to `table`, in ascending order.
    pub(crate) fn tablet_ids_for_table(&self, table: &String) -> (r: Vec<TabletId>)
        ensures
            r.deep_view() == listing::<TabletId>(tablets_of(self@, table@)),
            lists::<TabletId>(r.deep_view(), tablets_of(self@, table@)),
    {
        let rows: Vec<(TabletId, &Tablet)> = self.tablets_for_table(table.as_str());
        let ghost ids = listing::<TabletId>(tablets_of(self@, table@));
        let mut out: Vec<TabletId> = Vec::new();
        let mut i: usize = 0;
        assert(rows.deep_view().len() == ids.len());
        while i < rows.len()
            invariant
                i <= rows@.len(),
                rows@.len() == ids.len(),
                rows.deep_view() == tablet_rows(self@, ids),
                out.deep_view() == ids.take(i as int),
            decreases rows@.len() - i,
        {
            assert(rows.deep_view()[i as int] == (ids[i as int], self@.tablets[ids[i as int]]));
            let ghost before = out.deep_view();
            out.push(rows[i].0);
            assert(out.deep_view() =~= before.push(ids[i as int]));
            assert(ids.take(i + 1) =~= ids.take(i as int).push(ids[i as int]));
            i = i + 1;
        }
        assert(ids.take(i as int) =~= ids);
        out
    }

    /// Whether a tablet is scoped to `table`.
    pub fn has_table_tablet(&self, table: &str) -> (b: bool)
        ensures
            b == has_tablet_of(self@, table@),
    {
        let rows: Vec<(TabletId, &Tablet)> = self.tablets_for_table(table);
        let ghost set = tablets_of(self@, table@);
        let ghost ids = listing::<TabletId>(set);
        proof {
            assert(rows.deep_view().len() == ids.len());
            if ids.len() > 0 {
                assert(ids.contains(ids[0]));
            } else if exists|t: TabletId| set.contains(t) {
                let t = choose|t: TabletId| set.contains(t);
                assert(ids.contains(t));
            }
        }
        rows.len() > 0
    }

    /// The highest tablet id of the map, if it has a tablet.
    fn highest_tablet_id(&self) -> (r: Option<TabletId>)
        ensures
            match r {
                Some(last) => self@.tablets.contains_key(last) && forall|t: TabletId| #[trigger]
                    self@.tablets.contains_key(t) ==> t.0 <= last.0,
                None => forall|t: TabletId| !(#[trigger] self@.tablets.contains_key(t)),
            },
    {
        let n: usize = self.tablets.len();
        let ghost keys = self.tablets.keys();
        if n == 0 {
            proof {
                assert forall|t: TabletId| !(#[trigger] self@.tablets.contains_key(t)) by {
                    if self@.tablets.contains_key(t) {
                        assert(keys.contains(t));
                    }
                }
            }
            return None;
        }
        let last: TabletId = *self.tablets.key_at(n - 1);
        proof {
            assert(self@.tablets.contains_key(keys[n - 1]));
            assert forall|t: TabletId| #[trigger] self@.tablets.contains_key(t) implies t.0
                <= last.0 by {
                assert(keys.contains(t));
                let j = choose|j: int| 0 <= j < keys.len() && keys[j] == t;
                if j < n - 1 {
                    assert(TabletId::before(keys[j], keys[n - 1]));
                }
            }
        }
        Some(last)
    }

    /// Whether `id` lies below the allocator floor.
    pub(crate) fn is_below_floor(&self, id: TabletId) -> (b: bool)
        ensures
            b == below_floor(self@, id),
    {
        if id.0 < 1 || id.0 < self.next_tablet_id {
            return true;
        }
        match self.highest_tablet_id() {
            Some(last) => id.0 <= last.0,
            None => false,
        }
    }

    /// The lowest tablet id that a proposer may request: above every tablet of the map, at or above
    /// the allocator floor, and never zero.
    pub fn next_free_tablet_id(&self) -> (r: TabletId)
        requires
            ids_bounded(self@),
        ensures
            is_next_free(self@, r),
    {
        let mut r: u64 = 1;
        if self.next_tablet_id > r {
            r = self.next_tablet_id;
        }
        if let Some(last) = self.highest_tablet_id() {
            if last.0 + 1 > r {
                r = last.0 + 1;
            }
        }
        TabletId(r)
    }

    pub(crate) fn apply_create_tablet(
        &mut self,
        tablet: TabletId,
        table: &Option<TableName>,
        range: &KeyRange,
        replicas: &Vec<NodeId>,
    ) -> (out: ApplyOutcome)
        requires
            create_tablet_refusal(old(self)@, tablet, table.deep_view()) is None ==> tablet.0
                < u64::MAX,
        ensures
            (final(self)@, out) == create_tablet(
                old(self)@,
                tablet,
                table.deep_view(),
                range.deep_view(),
                replicas.deep_view(),
            ),
    {
        if self.tablets.contains_key(&tablet) {
            return ApplyOutcome::Rejected("tablet already exists");
        }
        let taken: bool = match table {
            Some(t) => self.has_table_tablet(t.as_str()),
            None => false,
        };
        if taken {
            return ApplyOutcome::Rejected("table already has a tablet");
        }
        if self.is_below_floor(tablet) {
            return ApplyOutcome::Rejected("tablet id below the monotonic allocator");
        }
        self.tablets.insert(
            tablet,
            Tablet::with_table(tablet, table.dup(), range.dup(), replicas.dup()),
        );
        self.raise_floor(tablet);
        ApplyOutcome::Applied
    }

    /// Raises the allocator floor past `id`.
    pub(crate) fn raise_floor(&mut self, id: TabletId)
        requires
            id.0 < u64::MAX,
        ensures
            final(self)@ == (MetadataModel {
                next_tablet_id: floor_past(old(self)@.next_tablet_id, id),
                ..old(self)@
            }),
    {
        if self.next_tablet_id <= id.0 {
            self.next_tablet_id = id.0 + 1;
        }
    }

    pub(crate) fn apply_cas_tablet_replicas(
        &mut self,
        tablet: TabletId,
        expected_epoch: Epoch,
        replicas: &Vec<NodeId>,
    ) -> (out: ApplyOutcome)
        requires
            old(self)@.tablets.contains_key(tablet) && old(self)@.tablets[tablet].epoch
                == expected_epoch ==> expected_epoch.0 < u64::MAX,
        ensures
            (final(self)@, out) == cas_tablet_replicas(
                old(self)@,
                tablet,
                expected_epoch,
                replicas.deep_view(),
            ),
    {
        let mut t: Tablet = match self.tablets.get(&tablet) {
            None => {
                return ApplyOutcome::Rejected("no such tablet");
            },
            Some(t) => {
                if t.epoch != expected_epoch {
                    return ApplyOutcome::Rejected("epoch mismatch");
                }
                t.dup()
            },
        };
        t.replicas = sorted_unique(replicas);
        t.epoch = expected_epoch.next();
        self.tablets.insert(tablet, t);
        ApplyOutcome::Applied
    }

    pub(crate) fn apply_set_tablet_policy(
        &mut self,
        tablet: TabletId,
        policy: &Option<PlacementPolicy>,
    ) -> (out: ApplyOutcome)
        ensures
            (final(self)@, out) == set_tablet_policy(old(self)@, tablet, policy.deep_view()),
    {
        if !self.tablets.contains_key(&tablet) {
            return ApplyOutcome::Rejected("no such tablet");
        }
        match policy {
            Some(p) => {
                self.policies.insert(tablet, p.dup());
            },
            None => {
                self.policies.remove(&tablet);
            },
        }
        ApplyOutcome::Applied
    }

    /// Takes out the addresses of the members whose tablet is not in the map.
    pub(crate) fn prune_cp_member_addrs(&mut self)
        ensures
            final(self)@ == prune_cp_member_addrs(old(self)@),
    {
        let dead: Vec<NodeId> = dead_cp_member_ids(&self.cp_member_tablets, self);
        proof {
            let set = dead_members(self@.cp_member_tablets, self@.tablets);
            assert(dead.deep_view().to_set() =~= set);
        }
        self.cp_member_tablets.remove_all(&dead);
        self.cp_member_addrs.remove_all(&dead);
    }

    /// The backfill records of the tablets in `ids`, or those of one index on them, in ascending
    /// order.
    pub(crate) fn backfill_keys_of(
        &self,
        ids: &Vec<TabletId>,
        index: Option<&String>,
    ) -> (r: Vec<(TabletId, String)>)
        ensures
            lists::<(TabletId, String)>(
                r.deep_view(),
                self@.index_backfill.dom().filter(
                    backfills(ids.deep_view().to_set(), index.deep_view()),
                ),
            ),
            r.deep_view() == listing::<(TabletId, String)>(
                self@.index_backfill.dom().filter(
                    backfills(ids.deep_view().to_set(), index.deep_view()),
                ),
            ),
    {
        let ghost p = backfills(ids.deep_view().to_set(), index.deep_view());
        let ghost keys = self.index_backfill.keys();
        let n: usize = self.index_backfill.len();
        let mut out: Vec<(TabletId, String)> = Vec::new();
        let mut i: usize = 0;
        proof {
            select_none::<(TabletId, String)>(keys, p);
            assert(out.deep_view() =~= Seq::empty());
        }
        while i < n
            invariant
                i <= n,
                n == keys.len(),
                keys == self.index_backfill.keys(),
                in_order(self.index_backfill),
                p == backfills(ids.deep_view().to_set(), index.deep_view()),
                lists::<(TabletId, String)>(
                    out.deep_view(),
                    selected::<(TabletId, String)>(keys, i as int, p),
                ),
            decreases n - i,
        {
            let k: &(TabletId, String) = self.index_backfill.key_at(i);
            proof {
                select_step::<(TabletId, String)>(keys, i as int, p, out.deep_view());
            }
            let named: bool = match index {
                Some(name) => k.1.same(name),
                None => true,
            };
            if named && id_in(ids, k.0) {
                let ghost before = out.deep_view();
                out.push(k.dup());
                assert(out.deep_view() =~= before.push(keys[i as int]));
            }
            i = i + 1;
        }
        proof {
            select_done::<(TabletId, String)>(
                keys,
                self@.index_backfill.dom(),
                p,
                out.deep_view(),
            );
        }
        out
    }

    pub(crate) fn apply_drop_table_tablets(&mut self, table: &TableName) -> (out: ApplyOutcome)
        ensures
            (final(self)@, out) == drop_table_tablets(old(self)@, table@),
    {
        let dropped: Vec<TabletId> = self.tablet_ids_for_table(table);
        let ghost set = tablets_of(self@, table@);
        if dropped.len() == 0 {
            proof {
                assert forall|t: TabletId| !set.contains(t) by {
                    if set.contains(t) {
                        assert(dropped.deep_view().contains(t));
                    }
                }
                assert(set =~= Set::empty());
            }
            return ApplyOutcome::NoOp;
        }
        proof {
            assert(dropped.deep_view().contains(dropped.deep_view()[0]));
            assert(set.contains(dropped.deep_view()[0]));
            assert(dropped.deep_view().to_set() =~= set);
        }
        let backfills: Vec<(TabletId, String)> = self.backfill_keys_of(&dropped, None);
        assert(backfills.deep_view().to_set() =~= backfill_of(self@, set));
        self.tablets.remove_all(&dropped);
        self.policies.remove_all(&dropped);
        self.index_backfill.remove_all(&backfills);
        self.split_placing.remove_all(&dropped);
        self.prune_cp_member_addrs();
        ApplyOutcome::Applied
    }
}

/// The members of `pre` whose tablet is not in the map of `meta`, in ascending order.
pub(crate) fn dead_cp_member_ids(pre: &SortedMap<NodeId, TabletId>, meta: &Metadata) -> (r: Vec<
    NodeId,
>)
    ensures
        lists::<NodeId>(r.deep_view(), dead_members(pre@, meta@.tablets)),
        r.deep_view() == listing::<NodeId>(dead_members(pre@, meta@.tablets)),
{
    let ghost p = dead_member(pre@, meta@.tablets);
    let ghost keys = pre.keys();
    let n: usize = pre.len();
    let mut out: Vec<NodeId> = Vec::new();
    let mut i: usize = 0;
    proof {
        select_none::<NodeId>(keys, p);
        assert(out.deep_view() =~= Seq::empty());
    }
    while i < n
        invariant
            i <= n,
            n == keys.len(),
            keys == pre.keys(),
            in_order(*pre),
            p == dead_member(pre@, meta@.tablets),
            lists::<NodeId>(out.deep_view(), selected::<NodeId>(keys, i as int, p)),
        decreases n - i,
    {
        let t: TabletId = *pre.value_at(i);
        proof {
            select_step::<NodeId>(keys, i as int, p, out.deep_view());
            assert(pre@[keys[i as int]] == t);
        }
        if !meta.tablets.contains_key(&t) {
            let ghost before = out.deep_view();
            out.push(pre.key_at(i).dup());
            assert(out.deep_view() =~= before.push(keys[i as int]));
        }
        i = i + 1;
    }
    proof {
        select_done::<NodeId>(keys, pre@.dom(), p, out.deep_view());
    }
    out
}

/// Whether `id` is among `ids`.
pub fn id_in(ids: &Vec<TabletId>, id: TabletId) -> (b: bool)
    ensures
        b == ids.deep_view().contains(id),
{
    let mut i: usize = 0;
    while i < ids.len()
        invariant
            i <= ids@.len(),
            forall|j: int| 0 <= j < i ==> ids@[j] != id,
        decreases ids@.len() - i,
    {
        if ids[i] == id {
            assert(ids.deep_view()[i as int] == id);
            return true;
        }
        i = i + 1;
    }
    proof {
        if ids.deep_view().contains(id) {
            let j = choose|j: int| 0 <= j < ids.deep_view().len() && ids.deep_view()[j] == id;
            assert(ids@[j] == id);
        }
    }
    false
}

} // verus!
