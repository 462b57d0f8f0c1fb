//! The replicated metadata: membership, the tablet map and the catalogs beside it.
use crate::ids::{NodeId, TableName, TabletId};
use crate::policy::{PlacementPolicy, PlacementPolicyModel};
use crate::rows::{
    BackupId, BackupRow, BackupRowModel, BackupTabletProgress, Member, MemberModel, NodeAddrs,
    NodeAddrsModel, PitrSegmentRow, PitrSegmentRowModel, RestoreId, RestoreRow, RestoreRowModel,
    SplitLineage, SplitPlacing, SplitPlacingModel, StreamShardRow, StreamShardRowModel,
};
use crate::schema::{SchemaCatalog, TableSchemaModel};
use crate::sorted_map::{SortedMap, SortedSet};
use crate::tablet::{Tablet, TabletModel};
use crate::value::Value;
use vstd::prelude::*;

verus! {

/// The replicated control-plane state.
#[derive(Debug, PartialEq, Eq)]
pub struct Metadata {
    /// Cluster membership.
    pub members: SortedMap<NodeId, Member>,
    /// The tablet map.
    pub tablets: SortedMap<TabletId, Tablet>,
    /// The placement policies of the tablets that have one.
    pub policies: SortedMap<TabletId, PlacementPolicy>,
    /// The table-schema catalog.
    pub schemas: SchemaCatalog,
    /// The addresses of consensus-group members.
    pub cp_member_addrs: SortedMap<NodeId, String>,
    /// The tablets that those members serve; an address goes when its tablet is dropped.
    pub cp_member_tablets: SortedMap<NodeId, TabletId>,
    /// The floor of the tablet-id allocator; it only rises.
    pub next_tablet_id: u64,
    /// The address book of the nodes.
    pub node_addrs: SortedMap<NodeId, NodeAddrs>,
    /// Where each split child came from; never pruned.
    pub split_lineage: SortedMap<TabletId, SplitLineage>,
    /// The placement obligations of split children.
    pub split_placing: SortedMap<TabletId, SplitPlacing>,
    /// The sealed stream segments under tablet and epoch.
    pub stream_shards: SortedMap<(TabletId, u64), StreamShardRow>,
    /// Which tablets have finished backfilling which index.
    pub index_backfill: SortedMap<(TabletId, String), ()>,
    /// The backup catalog; a row outlives its source table.
    pub backups: SortedMap<BackupId, BackupRow>,
    /// The completed tablets of each backup.
    pub backup_tablet_progress: SortedMap<(BackupId, TabletId), BackupTabletProgress>,
    /// The restore catalog.
    pub restores: SortedMap<RestoreId, RestoreRow>,
    /// The sealed recovery segments under tablet and epoch.
    pub pitr_segments: SortedMap<(TabletId, u64), PitrSegmentRow>,
    /// The highest recovery generation that each table name ever had; it only rises.
    pub pitr_generation: SortedMap<TableName, u64>,
    /// The backups that are base snapshots of point-in-time recovery.
    pub pitr_base_backups: SortedSet<BackupId>,
}

/// The mathematical value of a [`Metadata`].
#[verifier::ext_equal]
pub struct MetadataModel {
    pub members: Map<Seq<char>, MemberModel>,
    pub tablets: Map<TabletId, TabletModel>,
    pub policies: Map<TabletId, PlacementPolicyModel>,
    pub schemas: Map<Seq<char>, TableSchemaModel>,
    pub cp_member_addrs: Map<Seq<char>, Seq<char>>,
    pub cp_member_tablets: Map<Seq<char>, TabletId>,
    pub next_tablet_id: u64,
    pub node_addrs: Map<Seq<char>, NodeAddrsModel>,
    pub split_lineage: Map<TabletId, SplitLineage>,
    pub split_placing: Map<TabletId, SplitPlacingModel>,
    pub stream_shards: Map<(TabletId, u64), StreamShardRowModel>,
    pub index_backfill: Map<(TabletId, Seq<char>), ()>,
    pub backups: Map<Seq<char>, BackupRowModel>,
    pub backup_tablet_progress: Map<(Seq<char>, TabletId), BackupTabletProgress>,
    pub restores: Map<Seq<char>, RestoreRowModel>,
    pub pitr_segments: Map<(TabletId, u64), PitrSegmentRowModel>,
    pub pitr_generation: Map<Seq<char>, u64>,
    pub pitr_base_backups: Set<Seq<char>>,
}

impl DeepView for Metadata {
    type V = MetadataModel;

    open spec fn deep_view(&self) -> MetadataModel {
        MetadataModel {
            members: self.members.deep_view(),
            tablets: self.tablets.deep_view(),
            policies: self.policies.deep_view(),
            schemas: self.schemas.deep_view(),
            cp_member_addrs: self.cp_member_addrs.deep_view(),
            cp_member_tablets: self.cp_member_tablets.deep_view(),
            next_tablet_id: self.next_tablet_id,
            node_addrs: self.node_addrs.deep_view(),
            split_lineage: self.split_lineage.deep_view(),
            split_placing: self.split_placing.deep_view(),
            stream_shards: self.stream_shards.deep_view(),
            index_backfill: self.index_backfill.deep_view(),
            backups: self.backups.deep_view(),
            backup_tablet_progress: self.backup_tablet_progress.deep_view(),
            restores: self.restores.deep_view(),
            pitr_segments: self.pitr_segments.deep_view(),
            pitr_generation: self.pitr_generation.deep_view(),
            pitr_base_backups: self.pitr_base_backups.deep_view(),
        }
    }
}

impl Value for Metadata {
    fn dup(&self) -> (r: Self) {
        Metadata {
            members: self.members.dup(),
            tablets: self.tablets.dup(),
            policies: self.policies.dup(),
            schemas: self.schemas.dup(),
            cp_member_addrs: self.cp_member_addrs.dup(),
            cp_member_tablets: self.cp_member_tablets.dup(),
            next_tablet_id: self.next_tablet_id,
            node_addrs: self.node_addrs.dup(),
            split_lineage: self.split_lineage.dup(),
            split_placing: self.split_placing.dup(),
            stream_shards: self.stream_shards.dup(),
            index_backfill: self.index_backfill.dup(),
            backups: self.backups.dup(),
            backup_tablet_progress: self.backup_tablet_progress.dup(),
            restores: self.restores.dup(),
            pitr_segments: self.pitr_segments.dup(),
            pitr_generation: self.pitr_generation.dup(),
            pitr_base_backups: self.pitr_base_backups.dup(),
        }
    }

    fn same(&self, other: &Self) -> (b: bool) {
        self.members.same(&other.members)
            && self.tablets.same(&other.tablets)
            && self.policies.same(&other.policies)
            && self.schemas.same(&other.schemas)
            && self.cp_member_addrs.same(&other.cp_member_addrs)
            && self.cp_member_tablets.same(&other.cp_member_tablets)
            && self.next_tablet_id == other.next_tablet_id
            && self.node_addrs.same(&other.node_addrs)
            && self.split_lineage.same(&other.split_lineage)
            && self.split_placing.same(&other.split_placing)
            && self.stream_shards.same(&other.stream_shards)
            && self.index_backfill.same(&other.index_backfill)
            && self.backups.same(&other.backups)
            && self.backup_tablet_progress.same(&other.backup_tablet_progress)
            && self.restores.same(&other.restores)
            && self.pitr_segments.same(&other.pitr_segments)
            && self.pitr_generation.same(&other.pitr_generation)
            && self.pitr_base_backups.same(&other.pitr_base_backups)
    }
}

impl Clone for Metadata {
    fn clone(&self) -> (r: Self)
        ensures
            r.deep_view() == self.deep_view(),
    {
        self.dup()
    }
}

impl View for Metadata {
    type V = MetadataModel;

    open spec fn view(&self) -> MetadataModel {
        self.deep_view()
    }
}

/// Every catalog has finitely many rows, as that of every [`Metadata`] has.
#[verifier::opaque]
pub open spec fn finite(m: MetadataModel) -> bool {
    &&& m.members.dom().finite()
    &&& m.tablets.dom().finite()
    &&& m.policies.dom().finite()
    &&& m.schemas.dom().finite()
    &&& m.cp_member_addrs.dom().finite()
    &&& m.cp_member_tablets.dom().finite()
    &&& m.node_addrs.dom().finite()
    &&& m.split_lineage.dom().finite()
    &&& m.split_placing.dom().finite()
    &&& m.stream_shards.dom().finite()
    &&& m.index_backfill.dom().finite()
    &&& m.backups.dom().finite()
    &&& m.backup_tablet_progress.dom().finite()
    &&& m.restores.dom().finite()
    &&& m.pitr_segments.dom().finite()
    &&& m.pitr_generation.dom().finite()
    &&& m.pitr_base_backups.finite()
}

/// The state of a fresh cluster.
pub open spec fn empty_metadata() -> MetadataModel {
    MetadataModel {
        members: Map::empty(),
        tablets: Map::empty(),
        policies: Map::empty(),
        schemas: Map::empty(),
        cp_member_addrs: Map::empty(),
        cp_member_tablets: Map::empty(),
        next_tablet_id: 0,
        node_addrs: Map::empty(),
        split_lineage: Map::empty(),
        split_placing: Map::empty(),
        stream_shards: Map::empty(),
        index_backfill: Map::empty(),
        backups: Map::empty(),
        backup_tablet_progress: Map::empty(),
        restores: Map::empty(),
        pitr_segments: Map::empty(),
        pitr_generation: Map::empty(),
        pitr_base_backups: Set::empty(),
    }
}

impl Default for Metadata {
    fn default() -> (r: Self)
        ensures
            r@ == empty_metadata(),
    {
        Metadata {
            members: SortedMap::new(),
            tablets: SortedMap::new(),
            policies: SortedMap::new(),
            schemas: SortedMap::new(),
            cp_member_addrs: SortedMap::new(),
            cp_member_tablets: SortedMap::new(),
            next_tablet_id: 0,
            node_addrs: SortedMap::new(),
            split_lineage: SortedMap::new(),
            split_placing: SortedMap::new(),
            stream_shards: SortedMap::new(),
            index_backfill: SortedMap::new(),
            backups: SortedMap::new(),
            backup_tablet_progress: SortedMap::new(),
            restores: SortedMap::new(),
            pitr_segments: SortedMap::new(),
            pitr_generation: SortedMap::new(),
            pitr_base_backups: SortedSet::new(),
        }
    }
}

} // verus!
