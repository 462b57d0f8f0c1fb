//! The mirror: the changes to a keyspace of entities that an applied command implies, and the way
//! back from such a keyspace to the metadata.
use crate::advice::Advice;
use crate::apply::{can_apply, step};
use crate::backups::progress_of;
use crate::command::{ApplyOutcome, MetaCommand};
use crate::entity::{
    install, installed, write_at, writes_at, Entity, EntityKey, EntityKeyModel, EntityModel,
    EntityWrite, EntityWriteModel,
};
use crate::ids::{NodeId, TabletId};
use crate::lineage::{children, split_from};
use crate::meta::{empty_metadata, Metadata, MetadataModel};
use crate::rows::{BackupId, SplitLineage};
use crate::sorted_map::{
    in_order, listing, lists, select_done, select_none, select_step, selected, SortedMap,
};
use crate::tables::index_backfill_of;
use crate::tablet_map::{backfill_of, dead_cp_member_ids, dead_members, id_in, tablets_of};
use crate::value::Value;
use vstd::prelude::*;

verus! {

/// The name of the allocator floor among the counters of an encoded keyspace.
pub const NEXT_TABLET_ID_COUNTER: &'static str = "next_tablet_id";

/// One change to a keyspace whose keys and values have been encoded.
#[derive(Debug, PartialEq, Eq)]
pub enum KeyWrite {
    /// The value is put under the key, in place of what stood there.
    Put(Vec<u8>, Vec<u8>),
    /// Nothing stands under the key any more.
    Delete(Vec<u8>),
}

/// The mathematical value of a [`KeyWrite`].
#[verifier::ext_equal]
pub enum KeyWriteModel {
    Put(Seq<u8>, Seq<u8>),
    Delete(Seq<u8>),
}

impl DeepView for KeyWrite {
    type V = KeyWriteModel;

    open spec fn deep_view(&self) -> KeyWriteModel {
        match self {
            KeyWrite::Put(k, v) => KeyWriteModel::Put(k.deep_view(), v.deep_view()),
            KeyWrite::Delete(k) => KeyWriteModel::Delete(k.deep_view()),
        }
    }
}

impl Value for KeyWrite {
    fn dup(&self) -> (r: Self) {
        match self {
            KeyWrite::Put(k, v) => KeyWrite::Put(k.dup(), v.dup()),
            KeyWrite::Delete(k) => KeyWrite::Delete(k.dup()),
        }
    }

    fn same(&self, other: &Self) -> (b: bool) {
        match (self, other) {
            (KeyWrite::Put(k1, v1), KeyWrite::Put(k2, v2)) => k1.same(k2) && v1.same(v2),
            (KeyWrite::Delete(k1), KeyWrite::Delete(k2)) => k1.same(k2),
            _ => false,
        }
    }
}

impl Clone for KeyWrite {
    fn clone(&self) -> (r: Self)
        ensures
            r.deep_view() == self.deep_view(),
    {
        self.dup()
    }
}

/// The keys of the given tablets and of their policies, tablet by tablet.
pub open spec fn tablet_keys(ids: Seq<TabletId>) -> Seq<EntityKeyModel>
    decreases ids.len(),
{
    if ids.len() == 0 {
        Seq::empty()
    } else {
        tablet_keys(ids.drop_last()) + seq![
            EntityKeyModel::Tablet(ids.last()),
            EntityKeyModel::Policy(ids.last()),
        ]
    }
}

/// The keys of the given backfill records.
pub open spec fn backfill_keys(ids: Seq<(TabletId, Seq<char>)>) -> Seq<EntityKeyModel> {
    Seq::new(ids.len(), |i: int| EntityKeyModel::IndexBackfill(ids[i]))
}

/// The keys of the given placement obligations.
pub open spec fn placing_keys(ids: Seq<TabletId>) -> Seq<EntityKeyModel> {
    Seq::new(ids.len(), |i: int| EntityKeyModel::SplitPlacing(ids[i]))
}

/// The keys of the given progress records.
pub open spec fn progress_keys(ids: Seq<(Seq<char>, TabletId)>) -> Seq<EntityKeyModel> {
    Seq::new(ids.len(), |i: int| EntityKeyModel::BackupProgress(ids[i]))
}

/// The keys of the given members' addresses.
pub open spec fn address_keys(ids: Seq<Seq<char>>) -> Seq<EntityKeyModel> {
    Seq::new(ids.len(), |i: int| EntityKeyModel::CpMemberAddr(ids[i]))
}

/// The keys of the given stream segments.
pub open spec fn shard_keys(ids: Seq<(TabletId, u64)>) -> Seq<EntityKeyModel> {
    Seq::new(ids.len(), |i: int| EntityKeyModel::StreamShard(ids[i]))
}

/// The keys of the given recovery segments.
pub open spec fn segment_keys(ids: Seq<(TabletId, u64)>) -> Seq<EntityKeyModel> {
    Seq::new(ids.len(), |i: int| EntityKeyModel::PitrSegment(ids[i]))
}

/// Whether a tablet is among `ids`.
pub open spec fn among(ids: Set<TabletId>) -> spec_fn(TabletId) -> bool {
    |t: TabletId| ids.contains(t)
}

/// The placement obligations of the tablets in `ids`.
pub open spec fn placing_of_tablets(m: MetadataModel, ids: Set<TabletId>) -> Set<TabletId> {
    m.split_placing.dom().filter(among(ids))
}

/// The keys that a split child came with: its tablet and lineage, and its policy and placement
/// obligation if it has them.
pub open spec fn child_key(m: MetadataModel, child: TabletId) -> Seq<EntityKeyModel> {
    seq![EntityKeyModel::Tablet(child), EntityKeyModel::SplitLineage(child)] + if_held(
        m.policies.contains_key(child),
        EntityKeyModel::Policy(child),
    ) + if_held(m.split_placing.contains_key(child), EntityKeyModel::SplitPlacing(child))
}

/// One key, or none.
pub open spec fn if_held(b: bool, k: EntityKeyModel) -> Seq<EntityKeyModel> {
    if b {
        seq![k]
    } else {
        Seq::empty()
    }
}

/// The keys that the given split children came with, child by child.
pub open spec fn child_keys(m: MetadataModel, ids: Seq<TabletId>) -> Seq<EntityKeyModel>
    decreases ids.len(),
{
    if ids.len() == 0 {
        Seq::empty()
    } else {
        child_keys(m, ids.drop_last()) + child_key(m, ids.last())
    }
}

/// The keys that a command names itself or that the state after it leads to.
pub open spec fn named(post: MetadataModel, c: MetaCommand) -> Seq<EntityKeyModel> {
    match c {
        MetaCommand::NoOp => Seq::empty(),
        MetaCommand::UpsertMember { node, .. } => seq![EntityKeyModel::Member(node.deep_view())],
        MetaCommand::CreateTablet { tablet, .. } => seq![
            EntityKeyModel::Tablet(tablet),
            EntityKeyModel::NextTabletId,
        ],
        MetaCommand::CasTabletReplicas { tablet, .. } => seq![EntityKeyModel::Tablet(tablet)],
        MetaCommand::BeginSplitInPlace { parent, .. } => seq![
            EntityKeyModel::Tablet(parent),
            EntityKeyModel::NextTabletId,
        ],
        MetaCommand::CutoverSplit { parent, .. } => seq![
            EntityKeyModel::Tablet(parent),
            EntityKeyModel::Policy(parent),
        ] + child_keys(post, listing::<TabletId>(children(post.split_lineage, parent))),
        MetaCommand::MarkSplitPlacingDone { tablet, .. } => seq![
            EntityKeyModel::SplitPlacing(tablet),
        ],
        MetaCommand::RetargetSplitPlacing { tablet, .. } => seq![
            EntityKeyModel::SplitPlacing(tablet),
        ],
        MetaCommand::SetTabletPolicy { tablet, .. } => seq![EntityKeyModel::Policy(tablet)],
        MetaCommand::CreateTableSchema { table, .. } => seq![EntityKeyModel::Schema(table@)],
        MetaCommand::DropTableSchema { table } => seq![EntityKeyModel::Schema(table@)],
        MetaCommand::ReplaceTableSchema { table, .. } => seq![EntityKeyModel::Schema(table@)],
        MetaCommand::DropTableTablets { .. } => Seq::empty(),
        MetaCommand::CreateTableIndex { table, .. } => seq![EntityKeyModel::Schema(table@)],
        MetaCommand::DropTableIndex { table, .. } => seq![EntityKeyModel::Schema(table@)],
        MetaCommand::SetIndexStatus { table, .. } => seq![EntityKeyModel::Schema(table@)],
        MetaCommand::MarkIndexBackfilled { index, tablet, .. } => seq![
            EntityKeyModel::IndexBackfill((tablet, index@)),
        ],
        MetaCommand::SetTableStream { table, .. } => seq![EntityKeyModel::Schema(table@)],
        MetaCommand::SetTableTtl { table, .. } => seq![EntityKeyModel::Schema(table@)],
        MetaCommand::SetTableThroughput { table, .. } => seq![EntityKeyModel::Schema(table@)],
        MetaCommand::TagResource { table, .. } => seq![EntityKeyModel::Schema(table@)],
        MetaCommand::UntagResource { table, .. } => seq![EntityKeyModel::Schema(table@)],
        MetaCommand::UpdateContinuousBackups { table, .. } => seq![
            EntityKeyModel::Schema(table@),
        ] + if_held(
            post.pitr_generation.contains_key(table@),
            EntityKeyModel::PitrGeneration(table@),
        ),
        MetaCommand::SealStreamShard { tablet, epoch, .. } => seq![
            EntityKeyModel::StreamShard((tablet, epoch)),
        ],
        MetaCommand::ExpireStreamShards { rows, .. } => shard_keys(rows.deep_view()),
        MetaCommand::SealPitrSegment { tablet, epoch, .. } => seq![
            EntityKeyModel::PitrSegment((tablet, epoch)),
        ],
        MetaCommand::ExpirePitrSegments { rows, .. } => segment_keys(rows.deep_view()),
        MetaCommand::RegisterCpAddr { id, .. } => seq![
            EntityKeyModel::CpMemberAddr(id.deep_view()),
        ],
        MetaCommand::RegisterNodeAddrs { node, .. } => seq![
            EntityKeyModel::NodeAddrs(node.deep_view()),
        ],
        MetaCommand::RemoveMember { node } => seq![
            EntityKeyModel::Member(node.deep_view()),
            EntityKeyModel::NodeAddrs(node.deep_view()),
            EntityKeyModel::CpMemberAddr(node.deep_view()),
        ],
        MetaCommand::RegisterNode { node, .. } => if_held(
            post.members.contains_key(node.deep_view()),
            EntityKeyModel::Member(node.deep_view()),
        ) + seq![EntityKeyModel::NodeAddrs(node.deep_view())],
        MetaCommand::BeginBackup { backup_id, pitr_base, .. } => seq![
            EntityKeyModel::Backup(backup_id@),
        ] + if_held(pitr_base, EntityKeyModel::PitrBaseBackup(backup_id@)),
        MetaCommand::RecordBackupTabletComplete { backup_id, tablet, .. } => seq![
            EntityKeyModel::BackupProgress((backup_id@, tablet)),
        ],
        MetaCommand::CompleteBackup { backup_id } => seq![EntityKeyModel::Backup(backup_id@)],
        MetaCommand::FailBackup { backup_id, .. } => seq![EntityKeyModel::Backup(backup_id@)],
        MetaCommand::DeleteBackup { backup_id } => seq![EntityKeyModel::Backup(backup_id@)],
        MetaCommand::MarkBackupDeleted { backup_id } => seq![EntityKeyModel::Backup(backup_id@)],
        MetaCommand::BeginRestore { restore_id, tablet, .. } => seq![
            EntityKeyModel::Tablet(tablet),
            EntityKeyModel::NextTabletId,
            EntityKeyModel::Restore(restore_id@),
        ],
        MetaCommand::CompleteRestore { restore_id } => if_held(
            post.restores.contains_key(restore_id@),
            EntityKeyModel::Tablet(post.restores[restore_id@].tablet),
        ) + seq![EntityKeyModel::Restore(restore_id@)],
        MetaCommand::FailRestore { restore_id, .. } => seq![EntityKeyModel::Restore(restore_id@)],
    }
}

/// The keys under which a command prunes, and which only the state before it can tell.
pub open spec fn doomed(pre: MetadataModel, c: MetaCommand) -> Seq<EntityKeyModel> {
    match c {
        MetaCommand::DropTableTablets { table } => {
            let dropped = tablets_of(pre, table@);
            tablet_keys(listing::<TabletId>(dropped)) + backfill_keys(
                listing::<(TabletId, String)>(backfill_of(pre, dropped)),
            ) + placing_keys(listing::<TabletId>(placing_of_tablets(pre, dropped)))
        },
        MetaCommand::DropTableIndex { table, index } => backfill_keys(
            listing::<(TabletId, String)>(index_backfill_of(pre, table@, index@)),
        ),
        MetaCommand::DeleteBackup { backup_id } => progress_keys(
            listing::<(BackupId, TabletId)>(progress_of(pre, backup_id@)),
        ) + if_held(
            pre.pitr_base_backups.contains(backup_id@),
            EntityKeyModel::PitrBaseBackup(backup_id@),
        ),
        _ => Seq::empty(),
    }
}

/// The keys of the addresses that go with their tablets: those of the members whose tablet was in
/// the map before the command and is not after it.
pub open spec fn orphaned(
    pre: MetadataModel,
    post: MetadataModel,
    c: MetaCommand,
) -> Seq<EntityKeyModel> {
    match c {
        MetaCommand::DropTableTablets { .. } => address_keys(
            listing::<NodeId>(dead_members(pre.cp_member_tablets, post.tablets)),
        ),
        _ => Seq::empty(),
    }
}

/// The keys that a command touches, in the order in which its changes are written.
pub open spec fn touched(
    pre: MetadataModel,
    post: MetadataModel,
    c: MetaCommand,
) -> Seq<EntityKeyModel> {
    named(post, c) + doomed(pre, c) + orphaned(pre, post, c)
}

/// The changes to a keyspace that a command implies: none unless it was applied, else those that
/// bring every touched key to what the state after it holds.
pub open spec fn mirror_writes(
    pre: MetadataModel,
    post: MetadataModel,
    c: MetaCommand,
    outcome: ApplyOutcome,
) -> Seq<EntityWriteModel> {
    if outcome == ApplyOutcome::Applied {
        writes_at(post, touched(pre, post, c))
    } else {
        Seq::empty()
    }
}

/// Every tablet that was ever split from the parent of a cutover is live after it: a parent leaves
/// the map as it is split, and its id is not used again.
pub open spec fn can_mirror(pre: MetadataModel, post: MetadataModel, c: MetaCommand) -> bool {
    c matches MetaCommand::CutoverSplit { parent, .. } ==> post == pre || children(
        post.split_lineage,
        parent,
    ).subset_of(post.tablets.dom())
}

fn one(a: EntityKey) -> (r: Vec<EntityKey>)
    ensures
        r.deep_view() == seq![a.deep_view()],
{
    let mut r: Vec<EntityKey> = Vec::new();
    r.push(a);
    assert(r.deep_view() =~= seq![a.deep_view()]);
    r
}

fn push_key(keys: &mut Vec<EntityKey>, key: EntityKey)
    ensures
        final(keys).deep_view() == old(keys).deep_view().push(key.deep_view()),
{
    let ghost before = keys.deep_view();
    keys.push(key);
    assert(keys.deep_view() =~= before.push(key.deep_view()));
}

fn two(a: EntityKey, b: EntityKey) -> (r: Vec<EntityKey>)
    ensures
        r.deep_view() == seq![a.deep_view(), b.deep_view()],
{
    let mut r: Vec<EntityKey> = one(a);
    push_key(&mut r, b);
    assert(r.deep_view() =~= seq![a.deep_view(), b.deep_view()]);
    r
}

fn three(a: EntityKey, b: EntityKey, c: EntityKey) -> (r: Vec<EntityKey>)
    ensures
        r.deep_view() == seq![a.deep_view(), b.deep_view(), c.deep_view()],
{
    let mut r: Vec<EntityKey> = two(a, b);
    push_key(&mut r, c);
    assert(r.deep_view() =~= seq![a.deep_view(), b.deep_view(), c.deep_view()]);
    r
}

impl Metadata {
    /// The tablets that were split from `parent`, in ascending order.
    pub(crate) fn split_child_ids(&self, parent: TabletId) -> (r: Vec<TabletId>)
        ensures
            lists::<TabletId>(r.deep_view(), children(self@.split_lineage, parent)),
            r.deep_view() == listing::<TabletId>(children(self@.split_lineage, parent)),
    {
        let n: usize = self.split_lineage.len();
        let ghost keys = self.split_lineage.keys();
        let ghost p = split_from(self@.split_lineage, parent);
        let mut out: Vec<TabletId> = Vec::new();
        let mut i: usize = 0;
        proof {
            select_none::<TabletId>(keys, p);
            assert(out.deep_view() =~= Seq::empty());
        }
        while i < n
            invariant
                i <= n,
                n == keys.len(),
                keys == self.split_lineage.keys(),
                in_order(self.split_lineage),
                p == split_from(self@.split_lineage, parent),
                lists::<TabletId>(out.deep_view(), selected::<TabletId>(keys, i as int, p)),
            decreases n - i,
        {
            let row: &SplitLineage = self.split_lineage.value_at(i);
            proof {
                select_step::<TabletId>(keys, i as int, p, out.deep_view());
                assert(self@.split_lineage[keys[i as int]]
                    == self.split_lineage.values()[i as int]);
            }
            if row.parent == parent {
                let ghost before = out.deep_view();
                out.push(*self.split_lineage.key_at(i));
                assert(out.deep_view() =~= before.push(keys[i as int]));
            }
            i = i + 1;
        }
        proof {
            select_done::<TabletId>(keys, self@.split_lineage.dom(), p, out.deep_view());
        }
        out
    }

    /// The placement obligations of the tablets in `ids`, in ascending order.
    fn placing_ids_of(&self, ids: &Vec<TabletId>) -> (r: Vec<TabletId>)
        ensures
            r.deep_view() == listing::<TabletId>(
                placing_of_tablets(self@, ids.deep_view().to_set()),
            ),
    {
        let n: usize = self.split_placing.len();
        let ghost keys = self.split_placing.keys();
        let ghost p = among(ids.deep_view().to_set());
        let mut out: Vec<TabletId> = Vec::new();
        let mut i: usize = 0;
        proof {
            select_none::<TabletId>(keys, p);
            assert(out.deep_view() =~= Seq::empty());
        }
        while i < n
            invariant
                i <= n,
                n == keys.len(),
                keys == self.split_placing.keys(),
                in_order(self.split_placing),
                p == among(ids.deep_view().to_set()),
                lists::<TabletId>(out.deep_view(), selected::<TabletId>(keys, i as int, p)),
            decreases n - i,
        {
            let t: TabletId = *self.split_placing.key_at(i);
            proof {
                select_step::<TabletId>(keys, i as int, p, out.deep_view());
            }
            if id_in(ids, t) {
                let ghost before = out.deep_view();
                out.push(t);
                assert(out.deep_view() =~= before.push(keys[i as int]));
            }
            i = i + 1;
        }
        proof {
            select_done::<TabletId>(keys, self@.split_placing.dom(), p, out.deep_view());
        }
        out
    }

    /// The keys that a cutover touches: those of the parent, and those that its children came with.
    fn cutover_keys(&self, parent: TabletId) -> (r: Vec<EntityKey>)
        ensures
            r.deep_view() == seq![
                EntityKeyModel::Tablet(parent),
                EntityKeyModel::Policy(parent),
            ] + child_keys(self@, listing::<TabletId>(children(self@.split_lineage, parent))),
    {
        let ids: Vec<TabletId> = self.split_child_ids(parent);
        let ghost all = ids.deep_view();
        let ghost head = seq![EntityKeyModel::Tablet(parent), EntityKeyModel::Policy(parent)];
        let mut out: Vec<EntityKey> = two(EntityKey::Tablet(parent), EntityKey::Policy(parent));
        let mut i: usize = 0;
        assert(out.deep_view() =~= head + child_keys(self@, all.take(0)));
        while i < ids.len()
            invariant
                i <= ids@.len(),
                all == ids.deep_view(),
                all.len() == ids@.len(),
                head == seq![EntityKeyModel::Tablet(parent), EntityKeyModel::Policy(parent)],
                out.deep_view() == head + child_keys(self@, all.take(i as int)),
            decreases ids@.len() - i,
        {
            let child: TabletId = ids[i];
            let ghost before = out.deep_view();
            push_key(&mut out, EntityKey::Tablet(child));
            push_key(&mut out, EntityKey::SplitLineage(child));
            if self.policies.contains_key(&child) {
                push_key(&mut out, EntityKey::Policy(child));
            }
            if self.split_placing.contains_key(&child) {
                push_key(&mut out, EntityKey::SplitPlacing(child));
            }
            proof {
                let next = all.take(i + 1);
                assert(next.drop_last() =~= all.take(i as int));
                assert(next.last() == child);
                assert(out.deep_view() =~= before + child_key(self@, child));
                assert(out.deep_view() =~= head + child_keys(self@, next));
            }
            i = i + 1;
        }
        assert(all.take(i as int) =~= all);
        out
    }

    /// The keys that a command names itself or that this state leads to.
    fn named_keys(&self, command: &MetaCommand) -> (r: Vec<EntityKey>)
        ensures
            r.deep_view() == named(self@, *command),
    {
        match command {
            MetaCommand::NoOp => {
                let r: Vec<EntityKey> = Vec::new();
                assert(r.deep_view() =~= Seq::empty());
                r
            },
            MetaCommand::UpsertMember { node, .. } => one(EntityKey::Member(node.dup())),
            MetaCommand::CreateTablet { tablet, .. } => two(
                EntityKey::Tablet(*tablet),
                EntityKey::NextTabletId,
            ),
            MetaCommand::CasTabletReplicas { tablet, .. } => one(EntityKey::Tablet(*tablet)),
            MetaCommand::BeginSplitInPlace { parent, .. } => two(
                EntityKey::Tablet(*parent),
                EntityKey::NextTabletId,
            ),
            MetaCommand::CutoverSplit { parent, .. } => self.cutover_keys(*parent),
            MetaCommand::MarkSplitPlacingDone { tablet, .. } => one(
                EntityKey::SplitPlacing(*tablet),
            ),
            MetaCommand::RetargetSplitPlacing { tablet, .. } => one(
                EntityKey::SplitPlacing(*tablet),
            ),
            MetaCommand::SetTabletPolicy { tablet, .. } => one(EntityKey::Policy(*tablet)),
            MetaCommand::CreateTableSchema { table, .. } => one(EntityKey::Schema(table.dup())),
            MetaCommand::DropTableSchema { table } => one(EntityKey::Schema(table.dup())),
            MetaCommand::ReplaceTableSchema { table, .. } => one(EntityKey::Schema(table.dup())),
            MetaCommand::DropTableTablets { .. } => {
                let r: Vec<EntityKey> = Vec::new();
                assert(r.deep_view() =~= Seq::empty());
                r
            },
            MetaCommand::CreateTableIndex { table, .. } => one(EntityKey::Schema(table.dup())),
            MetaCommand::DropTableIndex { table, .. } => one(EntityKey::Schema(table.dup())),
            MetaCommand::SetIndexStatus { table, .. } => one(EntityKey::Schema(table.dup())),
            MetaCommand::MarkIndexBackfilled { index, tablet, .. } => one(
                EntityKey::IndexBackfill((*tablet, index.dup())),
            ),
            MetaCommand::SetTableStream { table, .. } => one(EntityKey::Schema(table.dup())),
            MetaCommand::SetTableTtl { table, .. } => one(EntityKey::Schema(table.dup())),
            MetaCommand::SetTableThroughput { table, .. } => one(EntityKey::Schema(table.dup())),
            MetaCommand::TagResource { table, .. } => one(EntityKey::Schema(table.dup())),
            MetaCommand::UntagResource { table, .. } => one(EntityKey::Schema(table.dup())),
            MetaCommand::UpdateContinuousBackups { table, .. } => {
                let mut r: Vec<EntityKey> = one(EntityKey::Schema(table.dup()));
                if self.pitr_generation.contains_key(table) {
                    push_key(&mut r, EntityKey::PitrGeneration(table.dup()));
                }
                assert(r.deep_view() =~= named(self@, *command));
                r
            },
            MetaCommand::SealStreamShard { tablet, epoch, .. } => one(
                EntityKey::StreamShard((*tablet, *epoch)),
            ),
            MetaCommand::ExpireStreamShards { rows, .. } => stream_shard_keys(rows),
            MetaCommand::SealPitrSegment { tablet, epoch, .. } => one(
                EntityKey::PitrSegment((*tablet, *epoch)),
            ),
            MetaCommand::ExpirePitrSegments { rows, .. } => pitr_segment_keys(rows),
            MetaCommand::RegisterCpAddr { id, .. } => one(EntityKey::CpMemberAddr(id.dup())),
            MetaCommand::RegisterNodeAddrs { node, .. } => one(EntityKey::NodeAddrs(node.dup())),
            MetaCommand::RemoveMember { node } => three(
                EntityKey::Member(node.dup()),
                EntityKey::NodeAddrs(node.dup()),
                EntityKey::CpMemberAddr(node.dup()),
            ),
            MetaCommand::RegisterNode { node, .. } => {
                let mut r: Vec<EntityKey> = Vec::new();
                assert(r.deep_view() =~= Seq::empty());
                if self.members.contains_key(node) {
                    push_key(&mut r, EntityKey::Member(node.dup()));
                }
                push_key(&mut r, EntityKey::NodeAddrs(node.dup()));
                assert(r.deep_view() =~= named(self@, *command));
                r
            },
            MetaCommand::BeginBackup { backup_id, pitr_base, .. } => {
                let mut r: Vec<EntityKey> = one(EntityKey::Backup(backup_id.dup()));
                if *pitr_base {
                    push_key(&mut r, EntityKey::PitrBaseBackup(backup_id.dup()));
                }
                assert(r.deep_view() =~= named(self@, *command));
                r
            },
            MetaCommand::RecordBackupTabletComplete { backup_id, tablet, .. } => one(
                EntityKey::BackupProgress((backup_id.dup(), *tablet)),
            ),
            MetaCommand::CompleteBackup { backup_id } => one(EntityKey::Backup(backup_id.dup())),
            MetaCommand::FailBackup { backup_id, .. } => one(EntityKey::Backup(backup_id.dup())),
            MetaCommand::DeleteBackup { backup_id } => one(EntityKey::Backup(backup_id.dup())),
            MetaCommand::MarkBackupDeleted { backup_id } => one(EntityKey::Backup(backup_id.dup())),
            MetaCommand::BeginRestore { restore_id, tablet, .. } => three(
                EntityKey::Tablet(*tablet),
                EntityKey::NextTabletId,
                EntityKey::Restore(restore_id.dup()),
            ),
            MetaCommand::CompleteRestore { restore_id } => {
                let mut r: Vec<EntityKey> = Vec::new();
                assert(r.deep_view() =~= Seq::empty());
                if let Some(row) = self.restores.get(restore_id) {
                    push_key(&mut r, EntityKey::Tablet(row.tablet));
                }
                push_key(&mut r, EntityKey::Restore(restore_id.dup()));
                assert(r.deep_view() =~= named(self@, *command));
                r
            },
            MetaCommand::FailRestore { restore_id, .. } => one(
                EntityKey::Restore(restore_id.dup()),
            ),
        }
    }

    /// The keys under which a command will prune, as only this state, before it, can tell.
    fn doomed_keys(&self, command: &MetaCommand) -> (r: Vec<EntityKey>)
        ensures
            r.deep_view() == doomed(self@, *command),
    {
        match command {
            MetaCommand::DropTableTablets { table } => {
                let ids: Vec<TabletId> = self.tablet_ids_for_table(table);
                assert(ids.deep_view().to_set() =~= tablets_of(self@, table@));
                let mut r: Vec<EntityKey> = tablet_and_policy_keys(&ids);
                let backfills: Vec<(TabletId, String)> = self.backfill_keys_of(&ids, None);
                push_backfill_keys(&mut r, &backfills);
                let placing: Vec<TabletId> = self.placing_ids_of(&ids);
                push_placing_keys(&mut r, &placing);
                r
            },
            MetaCommand::DropTableIndex { table, index } => {
                let mut r: Vec<EntityKey> = Vec::new();
                let backfills: Vec<(TabletId, String)> = self.index_backfill_keys_of(table, index);
                push_backfill_keys(&mut r, &backfills);
                assert(r.deep_view() =~= doomed(self@, *command));
                r
            },
            MetaCommand::DeleteBackup { backup_id } => {
                let ids: Vec<(BackupId, TabletId)> = self.progress_keys_of(backup_id);
                let mut r: Vec<EntityKey> = backup_progress_keys(&ids);
                if self.pitr_base_backups.contains(backup_id) {
                    push_key(&mut r, EntityKey::PitrBaseBackup(backup_id.dup()));
                }
                assert(r.deep_view() =~= doomed(self@, *command));
                r
            },
            _ => {
                let r: Vec<EntityKey> = Vec::new();
                assert(r.deep_view() =~= Seq::empty());
                r
            },
        }
    }
}

/// The keys of the given tablets and of their policies, tablet by tablet.
fn tablet_and_policy_keys(ids: &Vec<TabletId>) -> (r: Vec<EntityKey>)
    ensures
        r.deep_view() == tablet_keys(ids.deep_view()),
{
    let ghost all = ids.deep_view();
    let mut out: Vec<EntityKey> = Vec::new();
    let mut i: usize = 0;
    assert(out.deep_view() =~= tablet_keys(all.take(0)));
    while i < ids.len()
        invariant
            i <= ids@.len(),
            all == ids.deep_view(),
            all.len() == ids@.len(),
            out.deep_view() == tablet_keys(all.take(i as int)),
        decreases ids@.len() - i,
    {
        let id: TabletId = ids[i];
        let ghost before = out.deep_view();
        push_key(&mut out, EntityKey::Tablet(id));
        push_key(&mut out, EntityKey::Policy(id));
        proof {
            let next = all.take(i + 1);
            assert(next.drop_last() =~= all.take(i as int));
            assert(next.last() == id);
            assert(out.deep_view() =~= tablet_keys(next));
        }
        i = i + 1;
    }
    assert(all.take(i as int) =~= all);
    out
}

fn push_backfill_keys(keys: &mut Vec<EntityKey>, ids: &Vec<(TabletId, String)>)
    ensures
        final(keys).deep_view() == old(keys).deep_view() + backfill_keys(ids.deep_view()),
{
    let ghost all = ids.deep_view();
    let ghost before = keys.deep_view();
    let mut i: usize = 0;
    assert(keys.deep_view() =~= before + backfill_keys(all.take(0)));
    while i < ids.len()
        invariant
            i <= ids@.len(),
            all == ids.deep_view(),
            all.len() == ids@.len(),
            keys.deep_view() == before + backfill_keys(all.take(i as int)),
        decreases ids@.len() - i,
    {
        push_key(keys, EntityKey::IndexBackfill(ids[i].dup()));
        assert(keys.deep_view() =~= before + backfill_keys(all.take(i + 1)));
        i = i + 1;
    }
    assert(all.take(i as int) =~= all);
}

fn push_placing_keys(keys: &mut Vec<EntityKey>, ids: &Vec<TabletId>)
    ensures
        final(keys).deep_view() == old(keys).deep_view() + placing_keys(ids.deep_view()),
{
    let ghost all = ids.deep_view();
    let ghost before = keys.deep_view();
    let mut i: usize = 0;
    assert(keys.deep_view() =~= before + placing_keys(all.take(0)));
    while i < ids.len()
        invariant
            i <= ids@.len(),
            all == ids.deep_view(),
            all.len() == ids@.len(),
            keys.deep_view() == before + placing_keys(all.take(i as int)),
        decreases ids@.len() - i,
    {
        push_key(keys, EntityKey::SplitPlacing(ids[i]));
        assert(keys.deep_view() =~= before + placing_keys(all.take(i + 1)));
        i = i + 1;
    }
    assert(all.take(i as int) =~= all);
}

fn push_address_keys(keys: &mut Vec<EntityKey>, ids: &Vec<NodeId>)
    ensures
        final(keys).deep_view() == old(keys).deep_view() + address_keys(ids.deep_view()),
{
    let ghost all = ids.deep_view();
    let ghost before = keys.deep_view();
    let mut i: usize = 0;
    assert(keys.deep_view() =~= before + address_keys(all.take(0)));
    while i < ids.len()
        invariant
            i <= ids@.len(),
            all == ids.deep_view(),
            all.len() == ids@.len(),
            keys.deep_view() == before + address_keys(all.take(i as int)),
        decreases ids@.len() - i,
    {
        push_key(keys, EntityKey::CpMemberAddr(ids[i].dup()));
        assert(keys.deep_view() =~= before + address_keys(all.take(i + 1)));
        i = i + 1;
    }
    assert(all.take(i as int) =~= all);
}

fn backup_progress_keys(ids: &Vec<(BackupId, TabletId)>) -> (r: Vec<EntityKey>)
    ensures
        r.deep_view() == progress_keys(ids.deep_view()),
{
    let ghost all = ids.deep_view();
    let mut out: Vec<EntityKey> = Vec::new();
    let mut i: usize = 0;
    assert(out.deep_view() =~= progress_keys(all.take(0)));
    while i < ids.len()
        invariant
            i <= ids@.len(),
            all == ids.deep_view(),
            all.len() == ids@.len(),
            out.deep_view() == progress_keys(all.take(i as int)),
        decreases ids@.len() - i,
    {
        push_key(&mut out, EntityKey::BackupProgress(ids[i].dup()));
        assert(out.deep_view() =~= progress_keys(all.take(i + 1)));
        i = i + 1;
    }
    assert(all.take(i as int) =~= all);
    out
}

fn stream_shard_keys(ids: &Vec<(TabletId, u64)>) -> (r: Vec<EntityKey>)
    ensures
        r.deep_view() == shard_keys(ids.deep_view()),
{
    let ghost all = ids.deep_view();
    let mut out: Vec<EntityKey> = Vec::new();
    let mut i: usize = 0;
    assert(out.deep_view() =~= shard_keys(all.take(0)));
    while i < ids.len()
        invariant
            i <= ids@.len(),
            all == ids.deep_view(),
            all.len() == ids@.len(),
            out.deep_view() == shard_keys(all.take(i as int)),
        decreases ids@.len() - i,
    {
        push_key(&mut out, EntityKey::StreamShard((ids[i].0, ids[i].1)));
        assert(out.deep_view() =~= shard_keys(all.take(i + 1)));
        i = i + 1;
    }
    assert(all.take(i as int) =~= all);
    out
}

fn pitr_segment_keys(ids: &Vec<(TabletId, u64)>) -> (r: Vec<EntityKey>)
    ensures
        r.deep_view() == segment_keys(ids.deep_view()),
{
    let ghost all = ids.deep_view();
    let mut out: Vec<EntityKey> = Vec::new();
    let mut i: usize = 0;
    assert(out.deep_view() =~= segment_keys(all.take(0)));
    while i < ids.len()
        invariant
            i <= ids@.len(),
            all == ids.deep_view(),
            all.len() == ids@.len(),
            out.deep_view() == segment_keys(all.take(i as int)),
        decreases ids@.len() - i,
    {
        push_key(&mut out, EntityKey::PitrSegment((ids[i].0, ids[i].1)));
        assert(out.deep_view() =~= segment_keys(all.take(i + 1)));
        i = i + 1;
    }
    assert(all.take(i as int) =~= all);
    out
}

/// Applies a command to the metadata and derives the changes to a keyspace that it implies; a
/// command that was not applied implies none.
#[must_use]
pub fn apply_and_derive_mirror(
    meta: &mut Metadata,
    command: &MetaCommand,
    advice: &Advice,
) -> (r: (ApplyOutcome, Vec<EntityWrite>))
    requires
        can_apply(old(meta)@, *command),
        can_mirror(old(meta)@, step(old(meta)@, *command, advice.deep_view()).0, *command),
    ensures
        (final(meta)@, r.0) == step(old(meta)@, *command, advice.deep_view()),
        r.1.deep_view() == mirror_writes(old(meta)@, final(meta)@, *command, r.0),
{
    let ghost pre = meta@;
    let doomed_keys: Vec<EntityKey> = meta.doomed_keys(command);
    let members_before: SortedMap<NodeId, TabletId> = match command {
        MetaCommand::DropTableTablets { .. } => meta.cp_member_tablets.dup(),
        _ => SortedMap::new(),
    };
    let outcome: ApplyOutcome = meta.apply(command, advice);
    let mut writes: Vec<EntityWrite> = Vec::new();
    match outcome {
        ApplyOutcome::Applied => {},
        _ => {
            assert(writes.deep_view() =~= Seq::empty());
            return (outcome, writes);
        },
    }
    let mut keys: Vec<EntityKey> = meta.named_keys(command);
    let mut more: Vec<EntityKey> = doomed_keys;
    let ghost first = keys.deep_view();
    let ghost second = more.deep_view();
    keys.append(&mut more);
    assert(keys.deep_view() =~= first + second);
    match command {
        MetaCommand::DropTableTablets { .. } => {
            let dead: Vec<NodeId> = dead_cp_member_ids(&members_before, meta);
            push_address_keys(&mut keys, &dead);
        },
        _ => {},
    }
    let ghost all = touched(pre, meta@, *command);
    assert(keys.deep_view() =~= all);
    let mut i: usize = 0;
    assert(writes.deep_view() =~= writes_at(meta@, all.take(0)));
    while i < keys.len()
        invariant
            i <= keys@.len(),
            all == keys.deep_view(),
            all.len() == keys@.len(),
            writes.deep_view() == writes_at(meta@, all.take(i as int)),
        decreases keys@.len() - i,
    {
        let ghost before = writes.deep_view();
        let write: EntityWrite = meta.write_at(&keys[i]);
        writes.push(write);
        proof {
            assert(all[i as int] == keys@[i as int].deep_view());
            assert(writes.deep_view() =~= before.push(write_at(meta@, all[i as int])));
            assert(writes.deep_view() =~= writes_at(meta@, all.take(i + 1)));
        }
        i = i + 1;
    }
    assert(all.take(i as int) =~= all);
    (outcome, writes)
}

/// Installs one change of the keyspace on the metadata.
pub fn apply_key_write(meta: &mut Metadata, write: &EntityWrite)
    ensures
        final(meta)@ == install(old(meta)@, write.deep_view()),
{
    match write {
        EntityWrite::Put(entity) => meta.apply_put(entity),
        EntityWrite::Delete(key) => meta.apply_delete(key),
    }
}

/// The changes that put each of the given entities.
pub open spec fn puts(es: Seq<EntityModel>) -> Seq<EntityWriteModel> {
    Seq::new(es.len(), |i: int| EntityWriteModel::Put(es[i]))
}

/// The metadata that the entities of a keyspace make up.
pub fn rebuild_metadata(entities: &Vec<Entity>) -> (r: Metadata)
    ensures
        r@ == installed(empty_metadata(), puts(entities.deep_view())),
{
    let ghost all = entities.deep_view();
    let mut meta: Metadata = Metadata::default();
    let mut i: usize = 0;
    assert(puts(all.take(0)) =~= Seq::empty());
    while i < entities.len()
        invariant
            i <= entities@.len(),
            all == entities.deep_view(),
            all.len() == entities@.len(),
            meta@ == installed(empty_metadata(), puts(all.take(i as int))),
        decreases entities@.len() - i,
    {
        proof {
            let next = puts(all.take(i + 1));
            assert(next.drop_last() =~= puts(all.take(i as int)));
            assert(next.last() == EntityWriteModel::Put(entities@[i as int].deep_view()));
        }
        meta.apply_put(&entities[i]);
        i = i + 1;
    }
    assert(all.take(i as int) =~= all);
    meta
}

} // verus!
