//! The metadata as single entities, each under a key of its own.
use crate::ids::{NodeId, TableName, TabletId};
use crate::meta::{Metadata, MetadataModel};
use crate::policy::{PlacementPolicy, PlacementPolicyModel};
use crate::rows::{
    BackupId, BackupRow, BackupRowModel, BackupTabletProgress, Member, MemberModel, NodeAddrs,
    NodeAddrsModel, PitrSegmentRow, PitrSegmentRowModel, RestoreId, RestoreRow, RestoreRowModel,
    SplitLineage, SplitPlacing, SplitPlacingModel, StreamShardRow, StreamShardRowModel,
};
use crate::schema::{TableSchema, TableSchemaModel};
use crate::sorted_map::lookup;
use crate::tablet::{Tablet, TabletModel};
use crate::value::Value;
use vstd::prelude::*;

verus! {

/// The address of a consensus-group member, and the tablet that it serves, if it names one.
#[derive(Debug, PartialEq, Eq)]
pub struct CpMemberAddrEntry {
    /// Its address.
    pub addr: String,
    /// The tablet that it serves.
    pub tablet: Option<TabletId>,
}

/// The mathematical value of a [`CpMemberAddrEntry`].
#[verifier::ext_equal]
pub struct CpMemberAddrEntryModel {
    pub addr: Seq<char>,
    pub tablet: Option<TabletId>,
}

impl DeepView for CpMemberAddrEntry {
    type V = CpMemberAddrEntryModel;

    open spec fn deep_view(&self) -> CpMemberAddrEntryModel {
        CpMemberAddrEntryModel {
            addr: self.addr.deep_view(),
            tablet: self.tablet.deep_view(),
        }
    }
}

impl Value for CpMemberAddrEntry {
    fn dup(&self) -> (r: Self) {
        CpMemberAddrEntry {
            addr: self.addr.dup(),
            tablet: self.tablet.dup(),
        }
    }

    fn same(&self, other: &Self) -> (b: bool) {
        self.addr.same(&other.addr)
            && self.tablet.same(&other.tablet)
    }
}

impl Clone for CpMemberAddrEntry {
    fn clone(&self) -> (r: Self)
        ensures
            r.deep_view() == self.deep_view(),
    {
        self.dup()
    }
}

/// The key of an entity.
#[derive(Debug, PartialEq, Eq)]
pub enum EntityKey {
    /// A tablet.
    Tablet(TabletId),
    /// A member.
    Member(NodeId),
    /// A table's schema.
    Schema(TableName),
    /// A tablet's placement policy.
    Policy(TabletId),
    /// A node's address book.
    NodeAddrs(NodeId),
    /// The floor of the tablet-id allocator.
    NextTabletId,
    /// The highest recovery generation of a table name.
    PitrGeneration(TableName),
    /// The address of a consensus-group member.
    CpMemberAddr(NodeId),
    /// A sealed stream segment.
    StreamShard((TabletId, u64)),
    /// A finished backfill of an index on a tablet.
    IndexBackfill((TabletId, String)),
    /// Where a split child came from.
    SplitLineage(TabletId),
    /// The placement obligation of a split child.
    SplitPlacing(TabletId),
    /// A backup.
    Backup(BackupId),
    /// What a tablet captured for a backup.
    BackupProgress((BackupId, TabletId)),
    /// A restore.
    Restore(RestoreId),
    /// A sealed recovery segment.
    PitrSegment((TabletId, u64)),
    /// The tag of a base snapshot.
    PitrBaseBackup(BackupId),
}

/// The mathematical value of a [`EntityKey`].
#[verifier::ext_equal]
pub enum EntityKeyModel {
    Tablet(TabletId),
    Member(Seq<char>),
    Schema(Seq<char>),
    Policy(TabletId),
    NodeAddrs(Seq<char>),
    NextTabletId,
    PitrGeneration(Seq<char>),
    CpMemberAddr(Seq<char>),
    StreamShard((TabletId, u64)),
    IndexBackfill((TabletId, Seq<char>)),
    SplitLineage(TabletId),
    SplitPlacing(TabletId),
    Backup(Seq<char>),
    BackupProgress((Seq<char>, TabletId)),
    Restore(Seq<char>),
    PitrSegment((TabletId, u64)),
    PitrBaseBackup(Seq<char>),
}

impl DeepView for EntityKey {
    type V = EntityKeyModel;

    open spec fn deep_view(&self) -> EntityKeyModel {
        match self {
            EntityKey::Tablet(k) => EntityKeyModel::Tablet(*k),
            EntityKey::Member(k) => EntityKeyModel::Member(k.deep_view()),
            EntityKey::Schema(k) => EntityKeyModel::Schema(k.deep_view()),
            EntityKey::Policy(k) => EntityKeyModel::Policy(*k),
            EntityKey::NodeAddrs(k) => EntityKeyModel::NodeAddrs(k.deep_view()),
            EntityKey::NextTabletId => EntityKeyModel::NextTabletId,
            EntityKey::PitrGeneration(k) => EntityKeyModel::PitrGeneration(k.deep_view()),
            EntityKey::CpMemberAddr(k) => EntityKeyModel::CpMemberAddr(k.deep_view()),
            EntityKey::StreamShard(k) => EntityKeyModel::StreamShard(*k),
            EntityKey::IndexBackfill(k) => EntityKeyModel::IndexBackfill(k.deep_view()),
            EntityKey::SplitLineage(k) => EntityKeyModel::SplitLineage(*k),
            EntityKey::SplitPlacing(k) => EntityKeyModel::SplitPlacing(*k),
            EntityKey::Backup(k) => EntityKeyModel::Backup(k.deep_view()),
            EntityKey::BackupProgress(k) => EntityKeyModel::BackupProgress(k.deep_view()),
            EntityKey::Restore(k) => EntityKeyModel::Restore(k.deep_view()),
            EntityKey::PitrSegment(k) => EntityKeyModel::PitrSegment(*k),
            EntityKey::PitrBaseBackup(k) => EntityKeyModel::PitrBaseBackup(k.deep_view()),
        }
    }
}

impl Value for EntityKey {
    fn dup(&self) -> (r: Self) {
        match self {
            EntityKey::Tablet(k) => EntityKey::Tablet(*k),
            EntityKey::Member(k) => EntityKey::Member(k.dup()),
            EntityKey::Schema(k) => EntityKey::Schema(k.dup()),
            EntityKey::Policy(k) => EntityKey::Policy(*k),
            EntityKey::NodeAddrs(k) => EntityKey::NodeAddrs(k.dup()),
            EntityKey::NextTabletId => EntityKey::NextTabletId,
            EntityKey::PitrGeneration(k) => EntityKey::PitrGeneration(k.dup()),
            EntityKey::CpMemberAddr(k) => EntityKey::CpMemberAddr(k.dup()),
            EntityKey::StreamShard(k) => EntityKey::StreamShard(*k),
            EntityKey::IndexBackfill(k) => EntityKey::IndexBackfill(k.dup()),
            EntityKey::SplitLineage(k) => EntityKey::SplitLineage(*k),
            EntityKey::SplitPlacing(k) => EntityKey::SplitPlacing(*k),
            EntityKey::Backup(k) => EntityKey::Backup(k.dup()),
            EntityKey::BackupProgress(k) => EntityKey::BackupProgress(k.dup()),
            EntityKey::Restore(k) => EntityKey::Restore(k.dup()),
            EntityKey::PitrSegment(k) => EntityKey::PitrSegment(*k),
            EntityKey::PitrBaseBackup(k) => EntityKey::PitrBaseBackup(k.dup()),
        }
    }

    fn same(&self, other: &Self) -> (b: bool) {
        match (self, other) {
            (EntityKey::Tablet(k1), EntityKey::Tablet(k2)) => k1.same(k2),
            (EntityKey::Member(k1), EntityKey::Member(k2)) => k1.same(k2),
            (EntityKey::Schema(k1), EntityKey::Schema(k2)) => k1.same(k2),
            (EntityKey::Policy(k1), EntityKey::Policy(k2)) => k1.same(k2),
            (EntityKey::NodeAddrs(k1), EntityKey::NodeAddrs(k2)) => k1.same(k2),
            (EntityKey::NextTabletId, EntityKey::NextTabletId) => true,
            (EntityKey::PitrGeneration(k1), EntityKey::PitrGeneration(k2)) => k1.same(k2),
            (EntityKey::CpMemberAddr(k1), EntityKey::CpMemberAddr(k2)) => k1.same(k2),
            (EntityKey::StreamShard(k1), EntityKey::StreamShard(k2)) => k1.same(k2),
            (EntityKey::IndexBackfill(k1), EntityKey::IndexBackfill(k2)) => k1.same(k2),
            (EntityKey::SplitLineage(k1), EntityKey::SplitLineage(k2)) => k1.same(k2),
            (EntityKey::SplitPlacing(k1), EntityKey::SplitPlacing(k2)) => k1.same(k2),
            (EntityKey::Backup(k1), EntityKey::Backup(k2)) => k1.same(k2),
            (EntityKey::BackupProgress(k1), EntityKey::BackupProgress(k2)) => k1.same(k2),
            (EntityKey::Restore(k1), EntityKey::Restore(k2)) => k1.same(k2),
            (EntityKey::PitrSegment(k1), EntityKey::PitrSegment(k2)) => k1.same(k2),
            (EntityKey::PitrBaseBackup(k1), EntityKey::PitrBaseBackup(k2)) => k1.same(k2),
            _ => false,
        }
    }
}

impl Clone for EntityKey {
    fn clone(&self) -> (r: Self)
        ensures
            r.deep_view() == self.deep_view(),
    {
        self.dup()
    }
}

/// An entity with its key.
#[derive(Debug, PartialEq, Eq)]
pub enum Entity {
    /// A tablet.
    Tablet(TabletId, Tablet),
    /// A member.
    Member(NodeId, Member),
    /// A table's schema.
    Schema(TableName, TableSchema),
    /// A tablet's placement policy.
    Policy(TabletId, PlacementPolicy),
    /// A node's address book.
    NodeAddrs(NodeId, NodeAddrs),
    /// The floor of the tablet-id allocator.
    NextTabletId(u64),
    /// The highest recovery generation of a table name.
    PitrGeneration(TableName, u64),
    /// The address of a consensus-group member.
    CpMemberAddr(NodeId, CpMemberAddrEntry),
    /// A sealed stream segment.
    StreamShard((TabletId, u64), StreamShardRow),
    /// A finished backfill of an index on a tablet.
    IndexBackfill((TabletId, String)),
    /// Where a split child came from.
    SplitLineage(TabletId, SplitLineage),
    /// The placement obligation of a split child.
    SplitPlacing(TabletId, SplitPlacing),
    /// A backup.
    Backup(BackupId, BackupRow),
    /// What a tablet captured for a backup.
    BackupProgress((BackupId, TabletId), BackupTabletProgress),
    /// A restore.
    Restore(RestoreId, RestoreRow),
    /// A sealed recovery segment.
    PitrSegment((TabletId, u64), PitrSegmentRow),
    /// The tag of a base snapshot.
    PitrBaseBackup(BackupId),
}

/// The mathematical value of a [`Entity`].
#[verifier::ext_equal]
pub enum EntityModel {
    Tablet(TabletId, TabletModel),
    Member(Seq<char>, MemberModel),
    Schema(Seq<char>, TableSchemaModel),
    Policy(TabletId, PlacementPolicyModel),
    NodeAddrs(Seq<char>, NodeAddrsModel),
    NextTabletId(u64),
    PitrGeneration(Seq<char>, u64),
    CpMemberAddr(Seq<char>, CpMemberAddrEntryModel),
    StreamShard((TabletId, u64), StreamShardRowModel),
    IndexBackfill((TabletId, Seq<char>)),
    SplitLineage(TabletId, SplitLineage),
    SplitPlacing(TabletId, SplitPlacingModel),
    Backup(Seq<char>, BackupRowModel),
    BackupProgress((Seq<char>, TabletId), BackupTabletProgress),
    Restore(Seq<char>, RestoreRowModel),
    PitrSegment((TabletId, u64), PitrSegmentRowModel),
    PitrBaseBackup(Seq<char>),
}

impl DeepView for Entity {
    type V = EntityModel;

    open spec fn deep_view(&self) -> EntityModel {
        match self {
            Entity::Tablet(k, v) => EntityModel::Tablet(*k, v.deep_view()),
            Entity::Member(k, v) => EntityModel::Member(k.deep_view(), v.deep_view()),
            Entity::Schema(k, v) => EntityModel::Schema(k.deep_view(), v.deep_view()),
            Entity::Policy(k, v) => EntityModel::Policy(*k, v.deep_view()),
            Entity::NodeAddrs(k, v) => EntityModel::NodeAddrs(k.deep_view(), v.deep_view()),
            Entity::NextTabletId(k) => EntityModel::NextTabletId(*k),
            Entity::PitrGeneration(k, v) => EntityModel::PitrGeneration(k.deep_view(), *v),
            Entity::CpMemberAddr(k, v) => EntityModel::CpMemberAddr(k.deep_view(), v.deep_view()),
            Entity::StreamShard(k, v) => EntityModel::StreamShard(*k, v.deep_view()),
            Entity::IndexBackfill(k) => EntityModel::IndexBackfill(k.deep_view()),
            Entity::SplitLineage(k, v) => EntityModel::SplitLineage(*k, *v),
            Entity::SplitPlacing(k, v) => EntityModel::SplitPlacing(*k, v.deep_view()),
            Entity::Backup(k, v) => EntityModel::Backup(k.deep_view(), v.deep_view()),
            Entity::BackupProgress(k, v) => EntityModel::BackupProgress(k.deep_view(), *v),
            Entity::Restore(k, v) => EntityModel::Restore(k.deep_view(), v.deep_view()),
            Entity::PitrSegment(k, v) => EntityModel::PitrSegment(*k, v.deep_view()),
            Entity::PitrBaseBackup(k) => EntityModel::PitrBaseBackup(k.deep_view()),
        }
    }
}

impl Value for Entity {
    fn dup(&self) -> (r: Self) {
        match self {
            Entity::Tablet(k, v) => Entity::Tablet(*k, v.dup()),
            Entity::Member(k, v) => Entity::Member(k.dup(), v.dup()),
            Entity::Schema(k, v) => Entity::Schema(k.dup(), v.dup()),
            Entity::Policy(k, v) => Entity::Policy(*k, v.dup()),
            Entity::NodeAddrs(k, v) => Entity::NodeAddrs(k.dup(), v.dup()),
            Entity::NextTabletId(k) => Entity::NextTabletId(*k),
            Entity::PitrGeneration(k, v) => Entity::PitrGeneration(k.dup(), *v),
            Entity::CpMemberAddr(k, v) => Entity::CpMemberAddr(k.dup(), v.dup()),
            Entity::StreamShard(k, v) => Entity::StreamShard(*k, v.dup()),
            Entity::IndexBackfill(k) => Entity::IndexBackfill(k.dup()),
            Entity::SplitLineage(k, v) => Entity::SplitLineage(*k, *v),
            Entity::SplitPlacing(k, v) => Entity::SplitPlacing(*k, v.dup()),
            Entity::Backup(k, v) => Entity::Backup(k.dup(), v.dup()),
            Entity::BackupProgress(k, v) => Entity::BackupProgress(k.dup(), *v),
            Entity::Restore(k, v) => Entity::Restore(k.dup(), v.dup()),
            Entity::PitrSegment(k, v) => Entity::PitrSegment(*k, v.dup()),
            Entity::PitrBaseBackup(k) => Entity::PitrBaseBackup(k.dup()),
        }
    }

    fn same(&self, other: &Self) -> (b: bool) {
        match (self, other) {
            (Entity::Tablet(k1, v1), Entity::Tablet(k2, v2)) => k1.same(k2) && v1.same(v2),
            (Entity::Member(k1, v1), Entity::Member(k2, v2)) => k1.same(k2) && v1.same(v2),
            (Entity::Schema(k1, v1), Entity::Schema(k2, v2)) => k1.same(k2) && v1.same(v2),
            (Entity::Policy(k1, v1), Entity::Policy(k2, v2)) => k1.same(k2) && v1.same(v2),
            (Entity::NodeAddrs(k1, v1), Entity::NodeAddrs(k2, v2)) => k1.same(k2) && v1.same(v2),
            (Entity::NextTabletId(k1), Entity::NextTabletId(k2)) => k1.same(k2),
            (Entity::PitrGeneration(k1, v1), Entity::PitrGeneration(k2, v2)) => {
                k1.same(k2) && v1.same(v2)
            },
            (Entity::CpMemberAddr(k1, v1), Entity::CpMemberAddr(k2, v2)) => {
                k1.same(k2) && v1.same(v2)
            },
            (Entity::StreamShard(k1, v1), Entity::StreamShard(k2, v2)) => {
                k1.same(k2) && v1.same(v2)
            },
            (Entity::IndexBackfill(k1), Entity::IndexBackfill(k2)) => k1.same(k2),
            (Entity::SplitLineage(k1, v1), Entity::SplitLineage(k2, v2)) => {
                k1.same(k2) && v1.same(v2)
            },
            (Entity::SplitPlacing(k1, v1), Entity::SplitPlacing(k2, v2)) => {
                k1.same(k2) && v1.same(v2)
            },
            (Entity::Backup(k1, v1), Entity::Backup(k2, v2)) => k1.same(k2) && v1.same(v2),
            (Entity::BackupProgress(k1, v1), Entity::BackupProgress(k2, v2)) => {
                k1.same(k2) && v1.same(v2)
            },
            (Entity::Restore(k1, v1), Entity::Restore(k2, v2)) => k1.same(k2) && v1.same(v2),
            (Entity::PitrSegment(k1, v1), Entity::PitrSegment(k2, v2)) => {
                k1.same(k2) && v1.same(v2)
            },
            (Entity::PitrBaseBackup(k1), Entity::PitrBaseBackup(k2)) => k1.same(k2),
            _ => false,
        }
    }
}

impl Clone for Entity {
    fn clone(&self) -> (r: Self)
        ensures
            r.deep_view() == self.deep_view(),
    {
        self.dup()
    }
}

/// One change to the entities.
#[derive(Debug, PartialEq, Eq)]
pub enum EntityWrite {
    /// The entity is put under its key, in place of what stood there.
    Put(Entity),
    /// Nothing stands under the key any more.
    Delete(EntityKey),
}

/// The mathematical value of a [`EntityWrite`].
#[verifier::ext_equal]
pub enum EntityWriteModel {
    Put(EntityModel),
    Delete(EntityKeyModel),
}

impl DeepView for EntityWrite {
    type V = EntityWriteModel;

    open spec fn deep_view(&self) -> EntityWriteModel {
        match self {
            EntityWrite::Put(e) => EntityWriteModel::Put(e.deep_view()),
            EntityWrite::Delete(e) => EntityWriteModel::Delete(e.deep_view()),
        }
    }
}

impl Value for EntityWrite {
    fn dup(&self) -> (r: Self) {
        match self {
            EntityWrite::Put(e) => EntityWrite::Put(e.dup()),
            EntityWrite::Delete(e) => EntityWrite::Delete(e.dup()),
        }
    }

    fn same(&self, other: &Self) -> (b: bool) {
        match (self, other) {
            (EntityWrite::Put(e1), EntityWrite::Put(e2)) => e1.same(e2),
            (EntityWrite::Delete(e1), EntityWrite::Delete(e2)) => e1.same(e2),
            _ => false,
        }
    }
}

impl Clone for EntityWrite {
    fn clone(&self) -> (r: Self)
        ensures
            r.deep_view() == self.deep_view(),
    {
        self.dup()
    }
}

/// The key that an entity stands under.
pub open spec fn key_of(e: EntityModel) -> EntityKeyModel {
    match e {
        EntityModel::Tablet(k, _) => EntityKeyModel::Tablet(k),
        EntityModel::Member(k, _) => EntityKeyModel::Member(k),
        EntityModel::Schema(k, _) => EntityKeyModel::Schema(k),
        EntityModel::Policy(k, _) => EntityKeyModel::Policy(k),
        EntityModel::NodeAddrs(k, _) => EntityKeyModel::NodeAddrs(k),
        EntityModel::NextTabletId(_) => EntityKeyModel::NextTabletId,
        EntityModel::PitrGeneration(k, _) => EntityKeyModel::PitrGeneration(k),
        EntityModel::CpMemberAddr(k, _) => EntityKeyModel::CpMemberAddr(k),
        EntityModel::StreamShard(k, _) => EntityKeyModel::StreamShard(k),
        EntityModel::IndexBackfill(k) => EntityKeyModel::IndexBackfill(k),
        EntityModel::SplitLineage(k, _) => EntityKeyModel::SplitLineage(k),
        EntityModel::SplitPlacing(k, _) => EntityKeyModel::SplitPlacing(k),
        EntityModel::Backup(k, _) => EntityKeyModel::Backup(k),
        EntityModel::BackupProgress(k, _) => EntityKeyModel::BackupProgress(k),
        EntityModel::Restore(k, _) => EntityKeyModel::Restore(k),
        EntityModel::PitrSegment(k, _) => EntityKeyModel::PitrSegment(k),
        EntityModel::PitrBaseBackup(k) => EntityKeyModel::PitrBaseBackup(k),
    }
}

impl Entity {
    /// The key that the entity stands under.
    pub fn key(&self) -> (r: EntityKey)
        ensures
            r.deep_view() == key_of(self.deep_view()),
    {
        match self {
            Entity::Tablet(k, _) => EntityKey::Tablet(*k),
            Entity::Member(k, _) => EntityKey::Member(k.dup()),
            Entity::Schema(k, _) => EntityKey::Schema(k.dup()),
            Entity::Policy(k, _) => EntityKey::Policy(*k),
            Entity::NodeAddrs(k, _) => EntityKey::NodeAddrs(k.dup()),
            Entity::NextTabletId(_) => EntityKey::NextTabletId,
            Entity::PitrGeneration(k, _) => EntityKey::PitrGeneration(k.dup()),
            Entity::CpMemberAddr(k, _) => EntityKey::CpMemberAddr(k.dup()),
            Entity::StreamShard(k, _) => EntityKey::StreamShard(*k),
            Entity::IndexBackfill(k) => EntityKey::IndexBackfill(k.dup()),
            Entity::SplitLineage(k, _) => EntityKey::SplitLineage(*k),
            Entity::SplitPlacing(k, _) => EntityKey::SplitPlacing(*k),
            Entity::Backup(k, _) => EntityKey::Backup(k.dup()),
            Entity::BackupProgress(k, _) => EntityKey::BackupProgress(k.dup()),
            Entity::Restore(k, _) => EntityKey::Restore(k.dup()),
            Entity::PitrSegment(k, _) => EntityKey::PitrSegment(*k),
            Entity::PitrBaseBackup(k) => EntityKey::PitrBaseBackup(k.dup()),
        }
    }
}

/// Whether the metadata holds an entity under `k`. The allocator floor is one as soon as an id has
/// been handed out.
pub open spec fn held(m: MetadataModel, k: EntityKeyModel) -> bool {
    match k {
        EntityKeyModel::Tablet(k) => m.tablets.contains_key(k),
        EntityKeyModel::Member(k) => m.members.contains_key(k),
        EntityKeyModel::Schema(k) => m.schemas.contains_key(k),
        EntityKeyModel::Policy(k) => m.policies.contains_key(k),
        EntityKeyModel::NodeAddrs(k) => m.node_addrs.contains_key(k),
        EntityKeyModel::NextTabletId => m.next_tablet_id > 0,
        EntityKeyModel::PitrGeneration(k) => m.pitr_generation.contains_key(k),
        EntityKeyModel::CpMemberAddr(k) => m.cp_member_addrs.contains_key(k),
        EntityKeyModel::StreamShard(k) => m.stream_shards.contains_key(k),
        EntityKeyModel::IndexBackfill(k) => m.index_backfill.contains_key(k),
        EntityKeyModel::SplitLineage(k) => m.split_lineage.contains_key(k),
        EntityKeyModel::SplitPlacing(k) => m.split_placing.contains_key(k),
        EntityKeyModel::Backup(k) => m.backups.contains_key(k),
        EntityKeyModel::BackupProgress(k) => m.backup_tablet_progress.contains_key(k),
        EntityKeyModel::Restore(k) => m.restores.contains_key(k),
        EntityKeyModel::PitrSegment(k) => m.pitr_segments.contains_key(k),
        EntityKeyModel::PitrBaseBackup(k) => m.pitr_base_backups.contains(k),
    }
}

/// The entity that the metadata holds under `k`.
pub open spec fn entity_at(m: MetadataModel, k: EntityKeyModel) -> EntityModel {
    match k {
        EntityKeyModel::Tablet(k) => EntityModel::Tablet(k, m.tablets[k]),
        EntityKeyModel::Member(k) => EntityModel::Member(k, m.members[k]),
        EntityKeyModel::Schema(k) => EntityModel::Schema(k, m.schemas[k]),
        EntityKeyModel::Policy(k) => EntityModel::Policy(k, m.policies[k]),
        EntityKeyModel::NodeAddrs(k) => EntityModel::NodeAddrs(k, m.node_addrs[k]),
        EntityKeyModel::NextTabletId => EntityModel::NextTabletId(m.next_tablet_id),
        EntityKeyModel::PitrGeneration(k) => EntityModel::PitrGeneration(k, m.pitr_generation[k]),
        EntityKeyModel::CpMemberAddr(k) => EntityModel::CpMemberAddr(
            k,
            CpMemberAddrEntryModel {
                addr: m.cp_member_addrs[k],
                tablet: lookup(m.cp_member_tablets, k),
            },
        ),
        EntityKeyModel::StreamShard(k) => EntityModel::StreamShard(k, m.stream_shards[k]),
        EntityKeyModel::IndexBackfill(k) => EntityModel::IndexBackfill(k),
        EntityKeyModel::SplitLineage(k) => EntityModel::SplitLineage(k, m.split_lineage[k]),
        EntityKeyModel::SplitPlacing(k) => EntityModel::SplitPlacing(k, m.split_placing[k]),
        EntityKeyModel::Backup(k) => EntityModel::Backup(k, m.backups[k]),
        EntityKeyModel::BackupProgress(k) => {
            EntityModel::BackupProgress(k, m.backup_tablet_progress[k])
        },
        EntityKeyModel::Restore(k) => EntityModel::Restore(k, m.restores[k]),
        EntityKeyModel::PitrSegment(k) => EntityModel::PitrSegment(k, m.pitr_segments[k]),
        EntityKeyModel::PitrBaseBackup(k) => EntityModel::PitrBaseBackup(k),
    }
}

/// The metadata as a keyspace: every entity that it holds, under its key.
pub open spec fn image(m: MetadataModel) -> Map<EntityKeyModel, EntityModel> {
    Map::new(|k: EntityKeyModel| held(m, k), |k: EntityKeyModel| entity_at(m, k))
}

/// A tablet is recorded only for a consensus-group member that has an address.
pub open spec fn addressed(m: MetadataModel) -> bool {
    m.cp_member_tablets.dom().subset_of(m.cp_member_addrs.dom())
}

/// What a change does to a keyspace.
pub open spec fn write_to(
    space: Map<EntityKeyModel, EntityModel>,
    w: EntityWriteModel,
) -> Map<EntityKeyModel, EntityModel> {
    match w {
        EntityWriteModel::Put(e) => space.insert(key_of(e), e),
        EntityWriteModel::Delete(k) => space.remove(k),
    }
}

/// What changes do to a keyspace, the first one first.
pub open spec fn written(
    space: Map<EntityKeyModel, EntityModel>,
    ws: Seq<EntityWriteModel>,
) -> Map<EntityKeyModel, EntityModel>
    decreases ws.len(),
{
    if ws.len() == 0 {
        space
    } else {
        write_to(written(space, ws.drop_last()), ws.last())
    }
}

/// What putting an entity does to the metadata: it stands in place of what was under its key. An
/// address without a tablet leaves none recorded for the member.
pub open spec fn put_entity(m: MetadataModel, e: EntityModel) -> MetadataModel {
    match e {
        EntityModel::Tablet(k, v) => MetadataModel { tablets: m.tablets.insert(k, v), ..m },
        EntityModel::Member(k, v) => MetadataModel { members: m.members.insert(k, v), ..m },
        EntityModel::Schema(k, v) => MetadataModel { schemas: m.schemas.insert(k, v), ..m },
        EntityModel::Policy(k, v) => MetadataModel { policies: m.policies.insert(k, v), ..m },
        EntityModel::NodeAddrs(k, v) => {
            MetadataModel { node_addrs: m.node_addrs.insert(k, v), ..m }
        }
        EntityModel::NextTabletId(v) => MetadataModel { next_tablet_id: v, ..m },
        EntityModel::PitrGeneration(k, v) => {
            MetadataModel { pitr_generation: m.pitr_generation.insert(k, v), ..m }
        }
        EntityModel::CpMemberAddr(k, v) => MetadataModel {
            cp_member_addrs: m.cp_member_addrs.insert(k, v.addr),
            cp_member_tablets: match v.tablet {
                Some(t) => m.cp_member_tablets.insert(k, t),
                None => m.cp_member_tablets.remove(k),
            },
            ..m
        },
        EntityModel::StreamShard(k, v) => {
            MetadataModel { stream_shards: m.stream_shards.insert(k, v), ..m }
        }
        EntityModel::IndexBackfill(k) => {
            MetadataModel { index_backfill: m.index_backfill.insert(k, ()), ..m }
        }
        EntityModel::SplitLineage(k, v) => {
            MetadataModel { split_lineage: m.split_lineage.insert(k, v), ..m }
        }
        EntityModel::SplitPlacing(k, v) => {
            MetadataModel { split_placing: m.split_placing.insert(k, v), ..m }
        }
        EntityModel::Backup(k, v) => MetadataModel { backups: m.backups.insert(k, v), ..m },
        EntityModel::BackupProgress(k, v) => {
            MetadataModel { backup_tablet_progress: m.backup_tablet_progress.insert(k, v), ..m }
        }
        EntityModel::Restore(k, v) => MetadataModel { restores: m.restores.insert(k, v), ..m },
        EntityModel::PitrSegment(k, v) => {
            MetadataModel { pitr_segments: m.pitr_segments.insert(k, v), ..m }
        }
        EntityModel::PitrBaseBackup(k) => {
            MetadataModel { pitr_base_backups: m.pitr_base_backups.insert(k), ..m }
        }
    }
}

/// What deleting under a key does to the metadata. The counters are never deleted.
pub open spec fn delete_entity(m: MetadataModel, k: EntityKeyModel) -> MetadataModel {
    match k {
        EntityKeyModel::Tablet(k) => MetadataModel { tablets: m.tablets.remove(k), ..m },
        EntityKeyModel::Member(k) => MetadataModel { members: m.members.remove(k), ..m },
        EntityKeyModel::Schema(k) => MetadataModel { schemas: m.schemas.remove(k), ..m },
        EntityKeyModel::Policy(k) => MetadataModel { policies: m.policies.remove(k), ..m },
        EntityKeyModel::NodeAddrs(k) => MetadataModel { node_addrs: m.node_addrs.remove(k), ..m },
        EntityKeyModel::NextTabletId => m,
        EntityKeyModel::PitrGeneration(_) => m,
        EntityKeyModel::CpMemberAddr(k) => MetadataModel {
            cp_member_addrs: m.cp_member_addrs.remove(k),
            cp_member_tablets: m.cp_member_tablets.remove(k),
            ..m
        },
        EntityKeyModel::StreamShard(k) => {
            MetadataModel { stream_shards: m.stream_shards.remove(k), ..m }
        }
        EntityKeyModel::IndexBackfill(k) => {
            MetadataModel { index_backfill: m.index_backfill.remove(k), ..m }
        }
        EntityKeyModel::SplitLineage(k) => {
            MetadataModel { split_lineage: m.split_lineage.remove(k), ..m }
        }
        EntityKeyModel::SplitPlacing(k) => {
            MetadataModel { split_placing: m.split_placing.remove(k), ..m }
        }
        EntityKeyModel::Backup(k) => MetadataModel { backups: m.backups.remove(k), ..m },
        EntityKeyModel::BackupProgress(k) => {
            MetadataModel { backup_tablet_progress: m.backup_tablet_progress.remove(k), ..m }
        }
        EntityKeyModel::Restore(k) => MetadataModel { restores: m.restores.remove(k), ..m },
        EntityKeyModel::PitrSegment(k) => {
            MetadataModel { pitr_segments: m.pitr_segments.remove(k), ..m }
        }
        EntityKeyModel::PitrBaseBackup(k) => {
            MetadataModel { pitr_base_backups: m.pitr_base_backups.remove(k), ..m }
        }
    }
}

/// What a change does to the metadata.
pub open spec fn install(m: MetadataModel, w: EntityWriteModel) -> MetadataModel {
    match w {
        EntityWriteModel::Put(e) => put_entity(m, e),
        EntityWriteModel::Delete(k) => delete_entity(m, k),
    }
}

/// What changes do to the metadata, the first one first.
pub open spec fn installed(m: MetadataModel, ws: Seq<EntityWriteModel>) -> MetadataModel
    decreases ws.len(),
{
    if ws.len() == 0 {
        m
    } else {
        install(installed(m, ws.drop_last()), ws.last())
    }
}

/// The change that brings a keyspace to what the metadata holds under `k`.
pub open spec fn write_at(m: MetadataModel, k: EntityKeyModel) -> EntityWriteModel {
    if held(m, k) {
        EntityWriteModel::Put(entity_at(m, k))
    } else {
        EntityWriteModel::Delete(k)
    }
}

/// The changes that bring a keyspace to what the metadata holds under `keys`, in that order.
pub open spec fn writes_at(m: MetadataModel, keys: Seq<EntityKeyModel>) -> Seq<EntityWriteModel> {
    Seq::new(keys.len(), |i: int| write_at(m, keys[i]))
}

impl Metadata {
    /// The change that brings a keyspace to what the metadata holds under `key`.
    pub(crate) fn write_at(&self, key: &EntityKey) -> (r: EntityWrite)
        ensures
            r.deep_view() == write_at(self@, key.deep_view()),
    {
        let entity: Option<Entity> = match key {
            EntityKey::Tablet(k) => match self.tablets.get(k) {
                Some(v) => Some(Entity::Tablet(*k, v.dup())),
                None => None,
            },
            EntityKey::Member(k) => match self.members.get(k) {
                Some(v) => Some(Entity::Member(k.dup(), v.dup())),
                None => None,
            },
            EntityKey::Schema(k) => match self.schemas.get(k) {
                Some(v) => Some(Entity::Schema(k.dup(), v.dup())),
                None => None,
            },
            EntityKey::Policy(k) => match self.policies.get(k) {
                Some(v) => Some(Entity::Policy(*k, v.dup())),
                None => None,
            },
            EntityKey::NodeAddrs(k) => match self.node_addrs.get(k) {
                Some(v) => Some(Entity::NodeAddrs(k.dup(), v.dup())),
                None => None,
            },
            EntityKey::NextTabletId => if self.next_tablet_id > 0 {
                Some(Entity::NextTabletId(self.next_tablet_id))
            } else {
                None
            },
            EntityKey::PitrGeneration(k) => match self.pitr_generation.get(k) {
                Some(v) => Some(Entity::PitrGeneration(k.dup(), *v)),
                None => None,
            },
            EntityKey::CpMemberAddr(k) => match self.cp_member_addrs.get(k) {
                Some(addr) => Some(
                    Entity::CpMemberAddr(
                        k.dup(),
                        CpMemberAddrEntry {
                            addr: addr.dup(),
                            tablet: match self.cp_member_tablets.get(k) {
                                Some(t) => Some(*t),
                                None => None,
                            },
                        },
                    ),
                ),
                None => None,
            },
            EntityKey::StreamShard(k) => match self.stream_shards.get(k) {
                Some(v) => Some(Entity::StreamShard(*k, v.dup())),
                None => None,
            },
            EntityKey::IndexBackfill(k) => if self.index_backfill.contains_key(k) {
                Some(Entity::IndexBackfill(k.dup()))
            } else {
                None
            },
            EntityKey::SplitLineage(k) => match self.split_lineage.get(k) {
                Some(v) => Some(Entity::SplitLineage(*k, *v)),
                None => None,
            },
            EntityKey::SplitPlacing(k) => match self.split_placing.get(k) {
                Some(v) => Some(Entity::SplitPlacing(*k, v.dup())),
                None => None,
            },
            EntityKey::Backup(k) => match self.backups.get(k) {
                Some(v) => Some(Entity::Backup(k.dup(), v.dup())),
                None => None,
            },
            EntityKey::BackupProgress(k) => match self.backup_tablet_progress.get(k) {
                Some(v) => Some(Entity::BackupProgress(k.dup(), *v)),
                None => None,
            },
            EntityKey::Restore(k) => match self.restores.get(k) {
                Some(v) => Some(Entity::Restore(k.dup(), v.dup())),
                None => None,
            },
            EntityKey::PitrSegment(k) => match self.pitr_segments.get(k) {
                Some(v) => Some(Entity::PitrSegment(*k, v.dup())),
                None => None,
            },
            EntityKey::PitrBaseBackup(k) => if self.pitr_base_backups.contains(k) {
                Some(Entity::PitrBaseBackup(k.dup()))
            } else {
                None
            },
        };
        match entity {
            Some(e) => EntityWrite::Put(e),
            None => EntityWrite::Delete(key.dup()),
        }
    }

    /// Puts an entity.
    pub(crate) fn apply_put(&mut self, entity: &Entity)
        ensures
            final(self)@ == put_entity(old(self)@, entity.deep_view()),
    {
        match entity {
            Entity::Tablet(k, v) => {
                self.tablets.insert(*k, v.dup());
            },
            Entity::Member(k, v) => {
                self.members.insert(k.dup(), v.dup());
            },
            Entity::Schema(k, v) => {
                self.schemas.insert(k.dup(), v.dup());
            },
            Entity::Policy(k, v) => {
                self.policies.insert(*k, v.dup());
            },
            Entity::NodeAddrs(k, v) => {
                self.node_addrs.insert(k.dup(), v.dup());
            },
            Entity::NextTabletId(v) => {
                self.next_tablet_id = *v;
            },
            Entity::PitrGeneration(k, v) => {
                self.pitr_generation.insert(k.dup(), *v);
            },
            Entity::CpMemberAddr(k, v) => {
                self.cp_member_addrs.insert(k.dup(), v.addr.dup());
                match v.tablet {
                    Some(t) => {
                        self.cp_member_tablets.insert(k.dup(), t);
                    },
                    None => {
                        let _ = self.cp_member_tablets.remove(k);
                    },
                }
            },
            Entity::StreamShard(k, v) => {
                self.stream_shards.insert(*k, v.dup());
            },
            Entity::IndexBackfill(k) => {
                self.index_backfill.insert(k.dup(), ());
            },
            Entity::SplitLineage(k, v) => {
                self.split_lineage.insert(*k, *v);
            },
            Entity::SplitPlacing(k, v) => {
                self.split_placing.insert(*k, v.dup());
            },
            Entity::Backup(k, v) => {
                self.backups.insert(k.dup(), v.dup());
            },
            Entity::BackupProgress(k, v) => {
                self.backup_tablet_progress.insert(k.dup(), *v);
            },
            Entity::Restore(k, v) => {
                self.restores.insert(k.dup(), v.dup());
            },
            Entity::PitrSegment(k, v) => {
                self.pitr_segments.insert(*k, v.dup());
            },
            Entity::PitrBaseBackup(k) => {
                self.pitr_base_backups.insert(k.dup());
            },
        }
    }

    /// Deletes what stands under a key.
    pub(crate) fn apply_delete(&mut self, key: &EntityKey)
        ensures
            final(self)@ == delete_entity(old(self)@, key.deep_view()),
    {
        match key {
            EntityKey::Tablet(k) => {
                self.tablets.remove(k);
            },
            EntityKey::Member(k) => {
                self.members.remove(k);
            },
            EntityKey::Schema(k) => {
                self.schemas.remove(k);
            },
            EntityKey::Policy(k) => {
                self.policies.remove(k);
            },
            EntityKey::NodeAddrs(k) => {
                self.node_addrs.remove(k);
            },
            EntityKey::NextTabletId => {},
            EntityKey::PitrGeneration(_) => {},
            EntityKey::CpMemberAddr(k) => {
                self.cp_member_addrs.remove(k);
                self.cp_member_tablets.remove(k);
            },
            EntityKey::StreamShard(k) => {
                self.stream_shards.remove(k);
            },
            EntityKey::IndexBackfill(k) => {
                self.index_backfill.remove(k);
            },
            EntityKey::SplitLineage(k) => {
                self.split_lineage.remove(k);
            },
            EntityKey::SplitPlacing(k) => {
                self.split_placing.remove(k);
            },
            EntityKey::Backup(k) => {
                self.backups.remove(k);
            },
            EntityKey::BackupProgress(k) => {
                self.backup_tablet_progress.remove(k);
            },
            EntityKey::Restore(k) => {
                self.restores.remove(k);
            },
            EntityKey::PitrSegment(k) => {
                self.pitr_segments.remove(k);
            },
            EntityKey::PitrBaseBackup(k) => {
                self.pitr_base_backups.remove(k);
            },
        }
    }
}

/// Deleting a counter leaves it as it is.
pub proof fn a_counter_is_never_deleted(m: MetadataModel, table: Seq<char>)
    ensures
        delete_entity(m, EntityKeyModel::NextTabletId) == m,
        delete_entity(m, EntityKeyModel::PitrGeneration(table)) == m,
{
}

} // verus!
