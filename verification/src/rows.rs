//! The rows that the replicated metadata holds.
use crate::ids::{NodeId, TableName, TabletId};
use crate::schema::{IndexDef, IndexDefModel, StreamViewType, TableSchema, TableSchemaModel};
use crate::sorted_map::SortedMap;
use crate::tablet::{KeyRange, KeyRangeModel};
use crate::value::Value;
use vstd::prelude::*;

verus! {

/// A backup's identity: an opaque, freshly minted name, never that of the source table.
pub type BackupId = String;

/// A restore's identity: an opaque, freshly minted name.
pub type RestoreId = String;

/// A member's lifecycle status.
#[derive(Clone, Copy, Debug, PartialEq, Eq, Structural)]
pub enum NodeStatus {
    /// Known, not yet serving.
    Joining,
    /// Alive and a placement candidate.
    Active,
    /// Being drained.
    Leaving,
    /// Silent, or claimed and never seen.
    Down,
}

impl DeepView for NodeStatus {
    type V = NodeStatus;

    open spec fn deep_view(&self) -> NodeStatus {
        *self
    }
}

impl Value for NodeStatus {
    fn dup(&self) -> (r: Self) {
        *self
    }

    fn same(&self, other: &Self) -> (b: bool) {
        *self == *other
    }
}

/// A cluster member: its topology labels and its status.
#[derive(Debug, PartialEq, Eq)]
pub struct Member {
    /// Topology labels, such as a region.
    pub labels: SortedMap<String, String>,
    /// Current lifecycle status.
    pub status: NodeStatus,
    /// Whether the member was ever `Active`; once set it stays set.
    pub has_activated: bool,
}

/// The mathematical value of a [`Member`].
#[verifier::ext_equal]
pub struct MemberModel {
    pub labels: Map<Seq<char>, Seq<char>>,
    pub status: NodeStatus,
    pub has_activated: bool,
}

impl DeepView for Member {
    type V = MemberModel;

    open spec fn deep_view(&self) -> MemberModel {
        MemberModel {
            labels: self.labels.deep_view(),
            status: self.status,
            has_activated: self.has_activated,
        }
    }
}

impl Value for Member {
    fn dup(&self) -> (r: Self) {
        Member {
            labels: self.labels.dup(),
            status: self.status,
            has_activated: self.has_activated,
        }
    }

    fn same(&self, other: &Self) -> (b: bool) {
        self.labels.same(&other.labels)
            && self.status == other.status
            && self.has_activated == other.has_activated
    }
}

impl Clone for Member {
    fn clone(&self) -> (r: Self)
        ensures
            r.deep_view() == self.deep_view(),
    {
        self.dup()
    }
}

/// A node's listen addresses and its deployment role, as opaque strings.
#[derive(Debug, PartialEq, Eq)]
pub struct NodeAddrs {
    /// The consensus transport.
    pub internal: String,
    /// The client protocol.
    pub client: String,
    /// The node-to-node request protocol.
    pub intra: String,
    /// The admin surface.
    pub admin: String,
    /// `control`, `data` or `combined`.
    pub role: String,
}

/// The mathematical value of a [`NodeAddrs`].
#[verifier::ext_equal]
pub struct NodeAddrsModel {
    pub internal: Seq<char>,
    pub client: Seq<char>,
    pub intra: Seq<char>,
    pub admin: Seq<char>,
    pub role: Seq<char>,
}

impl DeepView for NodeAddrs {
    type V = NodeAddrsModel;

    open spec fn deep_view(&self) -> NodeAddrsModel {
        NodeAddrsModel {
            internal: self.internal.deep_view(),
            client: self.client.deep_view(),
            intra: self.intra.deep_view(),
            admin: self.admin.deep_view(),
            role: self.role.deep_view(),
        }
    }
}

impl Value for NodeAddrs {
    fn dup(&self) -> (r: Self) {
        NodeAddrs {
            internal: self.internal.dup(),
            client: self.client.dup(),
            intra: self.intra.dup(),
            admin: self.admin.dup(),
            role: self.role.dup(),
        }
    }

    fn same(&self, other: &Self) -> (b: bool) {
        self.internal.same(&other.internal)
            && self.client.same(&other.client)
            && self.intra.same(&other.intra)
            && self.admin.same(&other.admin)
            && self.role.same(&other.role)
    }
}

impl Clone for NodeAddrs {
    fn clone(&self) -> (r: Self)
        ensures
            r.deep_view() == self.deep_view(),
    {
        self.dup()
    }
}

/// Where a split child came from, recorded when the split was cut over.
#[derive(Clone, Copy, Debug, PartialEq, Eq, Structural)]
pub struct SplitLineage {
    /// The tablet that was split.
    pub parent: TabletId,
    /// The parent's highest sealed stream epoch, if it ever sealed a shard.
    pub parents_final_epoch: Option<u64>,
    /// The proposer's wall clock at the cutover, in milliseconds.
    pub cutover_wall_ms: u64,
}

impl DeepView for SplitLineage {
    type V = SplitLineage;

    open spec fn deep_view(&self) -> SplitLineage {
        *self
    }
}

impl Value for SplitLineage {
    fn dup(&self) -> (r: Self) {
        *self
    }

    fn same(&self, other: &Self) -> (b: bool) {
        *self == *other
    }
}

/// A split child's obligation to move to its policy's placement.
#[derive(Debug, PartialEq, Eq)]
pub struct SplitPlacing {
    /// The replica set to move to; `None` while no placement satisfies the policy.
    pub target: Option<Vec<NodeId>>,
    /// Whether the move is complete.
    pub done: bool,
}

/// The mathematical value of a [`SplitPlacing`].
#[verifier::ext_equal]
pub struct SplitPlacingModel {
    pub target: Option<Seq<Seq<char>>>,
    pub done: bool,
}

impl DeepView for SplitPlacing {
    type V = SplitPlacingModel;

    open spec fn deep_view(&self) -> SplitPlacingModel {
        SplitPlacingModel {
            target: self.target.deep_view(),
            done: self.done,
        }
    }
}

impl Value for SplitPlacing {
    fn dup(&self) -> (r: Self) {
        SplitPlacing {
            target: self.target.dup(),
            done: self.done,
        }
    }

    fn same(&self, other: &Self) -> (b: bool) {
        self.target.same(&other.target)
            && self.done == other.done
    }
}

impl Clone for SplitPlacing {
    fn clone(&self) -> (r: Self)
        ensures
            r.deep_view() == self.deep_view(),
    {
        self.dup()
    }
}

/// A sealed segment of a tablet's change stream.
#[derive(Debug, PartialEq, Eq)]
pub struct StreamShardRow {
    /// The table it belongs to.
    pub table: TableName,
    /// The stream enablement it was sealed under.
    pub label: String,
    /// What its records carry.
    pub view_type: StreamViewType,
    /// The clock range it covers: after the first, up to the second.
    pub hlc_range: (u64, u64),
    /// How many records it holds.
    pub count: u64,
    /// The sealer's wall clock, in milliseconds.
    pub seal_wall_ms: u64,
    /// The nodes that hold the segment object.
    pub replicas: Vec<NodeId>,
    /// The object that this sealing attempt wrote.
    pub object_id: String,
    /// Whether its reclaim has begun.
    pub expired: bool,
}

/// The mathematical value of a [`StreamShardRow`].
#[verifier::ext_equal]
pub struct StreamShardRowModel {
    pub table: Seq<char>,
    pub label: Seq<char>,
    pub view_type: StreamViewType,
    pub hlc_range: (u64, u64),
    pub count: u64,
    pub seal_wall_ms: u64,
    pub replicas: Seq<Seq<char>>,
    pub object_id: Seq<char>,
    pub expired: bool,
}

impl DeepView for StreamShardRow {
    type V = StreamShardRowModel;

    open spec fn deep_view(&self) -> StreamShardRowModel {
        StreamShardRowModel {
            table: self.table.deep_view(),
            label: self.label.deep_view(),
            view_type: self.view_type,
            hlc_range: self.hlc_range.deep_view(),
            count: self.count,
            seal_wall_ms: self.seal_wall_ms,
            replicas: self.replicas.deep_view(),
            object_id: self.object_id.deep_view(),
            expired: self.expired,
        }
    }
}

impl Value for StreamShardRow {
    fn dup(&self) -> (r: Self) {
        StreamShardRow {
            table: self.table.dup(),
            label: self.label.dup(),
            view_type: self.view_type,
            hlc_range: self.hlc_range.dup(),
            count: self.count,
            seal_wall_ms: self.seal_wall_ms,
            replicas: self.replicas.dup(),
            object_id: self.object_id.dup(),
            expired: self.expired,
        }
    }

    fn same(&self, other: &Self) -> (b: bool) {
        self.table.same(&other.table)
            && self.label.same(&other.label)
            && self.view_type == other.view_type
            && self.hlc_range.same(&other.hlc_range)
            && self.count == other.count
            && self.seal_wall_ms == other.seal_wall_ms
            && self.replicas.same(&other.replicas)
            && self.object_id.same(&other.object_id)
            && self.expired == other.expired
    }
}

impl Clone for StreamShardRow {
    fn clone(&self) -> (r: Self)
        ensures
            r.deep_view() == self.deep_view(),
    {
        self.dup()
    }
}

/// A sealed segment of a tablet's recovery log.
#[derive(Debug, PartialEq, Eq)]
pub struct PitrSegmentRow {
    /// The table it belongs to.
    pub table: TableName,
    /// The recovery generation it was sealed under.
    pub generation: u64,
    /// The clock range it covers: after the first, up to the second.
    pub hlc_range: (u64, u64),
    /// How many records it holds.
    pub count: u64,
    /// The sealer's wall clock, in milliseconds.
    pub seal_wall_ms: u64,
    /// The nodes that hold the segment object.
    pub replicas: Vec<NodeId>,
    /// The object that this sealing attempt wrote.
    pub object_id: String,
    /// Whether its reclaim has begun.
    pub expired: bool,
}

/// The mathematical value of a [`PitrSegmentRow`].
#[verifier::ext_equal]
pub struct PitrSegmentRowModel {
    pub table: Seq<char>,
    pub generation: u64,
    pub hlc_range: (u64, u64),
    pub count: u64,
    pub seal_wall_ms: u64,
    pub replicas: Seq<Seq<char>>,
    pub object_id: Seq<char>,
    pub expired: bool,
}

impl DeepView for PitrSegmentRow {
    type V = PitrSegmentRowModel;

    open spec fn deep_view(&self) -> PitrSegmentRowModel {
        PitrSegmentRowModel {
            table: self.table.deep_view(),
            generation: self.generation,
            hlc_range: self.hlc_range.deep_view(),
            count: self.count,
            seal_wall_ms: self.seal_wall_ms,
            replicas: self.replicas.deep_view(),
            object_id: self.object_id.deep_view(),
            expired: self.expired,
        }
    }
}

impl Value for PitrSegmentRow {
    fn dup(&self) -> (r: Self) {
        PitrSegmentRow {
            table: self.table.dup(),
            generation: self.generation,
            hlc_range: self.hlc_range.dup(),
            count: self.count,
            seal_wall_ms: self.seal_wall_ms,
            replicas: self.replicas.dup(),
            object_id: self.object_id.dup(),
            expired: self.expired,
        }
    }

    fn same(&self, other: &Self) -> (b: bool) {
        self.table.same(&other.table)
            && self.generation == other.generation
            && self.hlc_range.same(&other.hlc_range)
            && self.count == other.count
            && self.seal_wall_ms == other.seal_wall_ms
            && self.replicas.same(&other.replicas)
            && self.object_id.same(&other.object_id)
            && self.expired == other.expired
    }
}

impl Clone for PitrSegmentRow {
    fn clone(&self) -> (r: Self)
        ensures
            r.deep_view() == self.deep_view(),
    {
        self.dup()
    }
}

/// A tablet that a backup has to capture.
#[derive(Debug, PartialEq, Eq)]
pub struct BackupPinnedTablet {
    /// The tablet, as it was when the backup began.
    pub tablet: TabletId,
    /// The keys it owned.
    pub range: KeyRange,
}

/// The mathematical value of a [`BackupPinnedTablet`].
#[verifier::ext_equal]
pub struct BackupPinnedTabletModel {
    pub tablet: TabletId,
    pub range: KeyRangeModel,
}

impl DeepView for BackupPinnedTablet {
    type V = BackupPinnedTabletModel;

    open spec fn deep_view(&self) -> BackupPinnedTabletModel {
        BackupPinnedTabletModel {
            tablet: self.tablet,
            range: self.range.deep_view(),
        }
    }
}

impl Value for BackupPinnedTablet {
    fn dup(&self) -> (r: Self) {
        BackupPinnedTablet {
            tablet: self.tablet,
            range: self.range.dup(),
        }
    }

    fn same(&self, other: &Self) -> (b: bool) {
        self.tablet == other.tablet
            && self.range.same(&other.range)
    }
}

impl Clone for BackupPinnedTablet {
    fn clone(&self) -> (r: Self)
        ensures
            r.deep_view() == self.deep_view(),
    {
        self.dup()
    }
}

/// What a backup covers, frozen when it began.
#[derive(Debug, PartialEq, Eq)]
pub struct BackupManifest {
    /// The table's schema.
    pub schema: TableSchema,
    /// The tablets to capture.
    pub pinned_tablets: Vec<BackupPinnedTablet>,
    /// The proposer's wall clock, in milliseconds.
    pub created_wall_ms: u64,
}

/// The mathematical value of a [`BackupManifest`].
#[verifier::ext_equal]
pub struct BackupManifestModel {
    pub schema: TableSchemaModel,
    pub pinned_tablets: Seq<BackupPinnedTabletModel>,
    pub created_wall_ms: u64,
}

impl DeepView for BackupManifest {
    type V = BackupManifestModel;

    open spec fn deep_view(&self) -> BackupManifestModel {
        BackupManifestModel {
            schema: self.schema.deep_view(),
            pinned_tablets: self.pinned_tablets.deep_view(),
            created_wall_ms: self.created_wall_ms,
        }
    }
}

impl Value for BackupManifest {
    fn dup(&self) -> (r: Self) {
        BackupManifest {
            schema: self.schema.dup(),
            pinned_tablets: self.pinned_tablets.dup(),
            created_wall_ms: self.created_wall_ms,
        }
    }

    fn same(&self, other: &Self) -> (b: bool) {
        self.schema.same(&other.schema)
            && self.pinned_tablets.same(&other.pinned_tablets)
            && self.created_wall_ms == other.created_wall_ms
    }
}

impl Clone for BackupManifest {
    fn clone(&self) -> (r: Self)
        ensures
            r.deep_view() == self.deep_view(),
    {
        self.dup()
    }
}

/// One tablet's completed share of a backup.
#[derive(Clone, Copy, Debug, PartialEq, Eq, Structural)]
pub struct BackupTabletProgress {
    /// The clock value that the capture was cut at.
    pub cut_version: u64,
    /// How many bytes the captured objects occupy.
    pub bytes: u64,
}

impl DeepView for BackupTabletProgress {
    type V = BackupTabletProgress;

    open spec fn deep_view(&self) -> BackupTabletProgress {
        *self
    }
}

impl Value for BackupTabletProgress {
    fn dup(&self) -> (r: Self) {
        *self
    }

    fn same(&self, other: &Self) -> (b: bool) {
        *self == *other
    }
}

/// Where a backup stands.
#[derive(Debug, PartialEq, Eq)]
pub enum BackupStatus {
    /// Tablets are being captured.
    Creating,
    /// Complete.
    Available,
    /// Given up.
    Failed {
        /// Why.
        reason: String,
    },
    /// Marked for reclaim.
    Expired,
}

/// The mathematical value of a [`BackupStatus`].
pub enum BackupStatusModel {
    Creating,
    Available,
    Failed { reason: Seq<char> },
    Expired,
}

impl DeepView for BackupStatus {
    type V = BackupStatusModel;

    open spec fn deep_view(&self) -> BackupStatusModel {
        match self {
            BackupStatus::Creating => BackupStatusModel::Creating,
            BackupStatus::Available => BackupStatusModel::Available,
            BackupStatus::Failed { reason } => BackupStatusModel::Failed { reason: reason@ },
            BackupStatus::Expired => BackupStatusModel::Expired,
        }
    }
}

impl Value for BackupStatus {
    fn dup(&self) -> (r: Self) {
        match self {
            BackupStatus::Creating => BackupStatus::Creating,
            BackupStatus::Available => BackupStatus::Available,
            BackupStatus::Failed { reason } => BackupStatus::Failed { reason: reason.dup() },
            BackupStatus::Expired => BackupStatus::Expired,
        }
    }

    fn same(&self, other: &Self) -> (b: bool) {
        match (self, other) {
            (BackupStatus::Creating, BackupStatus::Creating) => true,
            (BackupStatus::Available, BackupStatus::Available) => true,
            (BackupStatus::Failed { reason: a }, BackupStatus::Failed { reason: b }) => a.same(b),
            (BackupStatus::Expired, BackupStatus::Expired) => true,
            _ => false,
        }
    }
}

impl Clone for BackupStatus {
    fn clone(&self) -> (r: Self)
        ensures
            r.deep_view() == self.deep_view(),
    {
        self.dup()
    }
}

/// A backup.
#[derive(Debug, PartialEq, Eq)]
pub struct BackupRow {
    /// The source table's name.
    pub table: TableName,
    /// The name that the client gave it.
    pub backup_name: String,
    /// Where it stands.
    pub status: BackupStatus,
    /// What it covers.
    pub manifest: BackupManifest,
    /// The size that was frozen at completion.
    pub total_bytes: u64,
}

/// The mathematical value of a [`BackupRow`].
#[verifier::ext_equal]
pub struct BackupRowModel {
    pub table: Seq<char>,
    pub backup_name: Seq<char>,
    pub status: BackupStatusModel,
    pub manifest: BackupManifestModel,
    pub total_bytes: u64,
}

impl DeepView for BackupRow {
    type V = BackupRowModel;

    open spec fn deep_view(&self) -> BackupRowModel {
        BackupRowModel {
            table: self.table.deep_view(),
            backup_name: self.backup_name.deep_view(),
            status: self.status.deep_view(),
            manifest: self.manifest.deep_view(),
            total_bytes: self.total_bytes,
        }
    }
}

impl Value for BackupRow {
    fn dup(&self) -> (r: Self) {
        BackupRow {
            table: self.table.dup(),
            backup_name: self.backup_name.dup(),
            status: self.status.dup(),
            manifest: self.manifest.dup(),
            total_bytes: self.total_bytes,
        }
    }

    fn same(&self, other: &Self) -> (b: bool) {
        self.table.same(&other.table)
            && self.backup_name.same(&other.backup_name)
            && self.status.same(&other.status)
            && self.manifest.same(&other.manifest)
            && self.total_bytes == other.total_bytes
    }
}

impl Clone for BackupRow {
    fn clone(&self) -> (r: Self)
        ensures
            r.deep_view() == self.deep_view(),
    {
        self.dup()
    }
}

/// Where a restore stands.
#[derive(Debug, PartialEq, Eq)]
pub enum RestoreStatus {
    /// The destination tablet is being filled.
    Seeding,
    /// Complete.
    Done,
    /// Given up; the destination tablet is left as it is.
    Failed {
        /// Why.
        reason: String,
    },
}

/// The mathematical value of a [`RestoreStatus`].
pub enum RestoreStatusModel {
    Seeding,
    Done,
    Failed { reason: Seq<char> },
}

impl DeepView for RestoreStatus {
    type V = RestoreStatusModel;

    open spec fn deep_view(&self) -> RestoreStatusModel {
        match self {
            RestoreStatus::Seeding => RestoreStatusModel::Seeding,
            RestoreStatus::Done => RestoreStatusModel::Done,
            RestoreStatus::Failed { reason } => RestoreStatusModel::Failed { reason: reason@ },
        }
    }
}

impl Value for RestoreStatus {
    fn dup(&self) -> (r: Self) {
        match self {
            RestoreStatus::Seeding => RestoreStatus::Seeding,
            RestoreStatus::Done => RestoreStatus::Done,
            RestoreStatus::Failed { reason } => RestoreStatus::Failed { reason: reason.dup() },
        }
    }

    fn same(&self, other: &Self) -> (b: bool) {
        match (self, other) {
            (RestoreStatus::Seeding, RestoreStatus::Seeding) => true,
            (RestoreStatus::Done, RestoreStatus::Done) => true,
            (RestoreStatus::Failed { reason: a }, RestoreStatus::Failed { reason: b }) => a.same(b),
            _ => false,
        }
    }
}

impl Clone for RestoreStatus {
    fn clone(&self) -> (r: Self)
        ensures
            r.deep_view() == self.deep_view(),
    {
        self.dup()
    }
}

/// A recovery segment that a point-in-time restore replays.
#[derive(Debug, PartialEq, Eq)]
pub struct PitrReplaySegmentRef {
    /// The tablet that sealed it.
    pub tablet: TabletId,
    /// Its epoch.
    pub epoch: u64,
    /// The object that holds it.
    pub object_id: String,
    /// The clock range to replay: after the first, up to the second.
    pub replay_range: (u64, u64),
}

/// The mathematical value of a [`PitrReplaySegmentRef`].
#[verifier::ext_equal]
pub struct PitrReplaySegmentRefModel {
    pub tablet: TabletId,
    pub epoch: u64,
    pub object_id: Seq<char>,
    pub replay_range: (u64, u64),
}

impl DeepView for PitrReplaySegmentRef {
    type V = PitrReplaySegmentRefModel;

    open spec fn deep_view(&self) -> PitrReplaySegmentRefModel {
        PitrReplaySegmentRefModel {
            tablet: self.tablet,
            epoch: self.epoch,
            object_id: self.object_id.deep_view(),
            replay_range: self.replay_range.deep_view(),
        }
    }
}

impl Value for PitrReplaySegmentRef {
    fn dup(&self) -> (r: Self) {
        PitrReplaySegmentRef {
            tablet: self.tablet,
            epoch: self.epoch,
            object_id: self.object_id.dup(),
            replay_range: self.replay_range.dup(),
        }
    }

    fn same(&self, other: &Self) -> (b: bool) {
        self.tablet == other.tablet
            && self.epoch == other.epoch
            && self.object_id.same(&other.object_id)
            && self.replay_range.same(&other.replay_range)
    }
}

impl Clone for PitrReplaySegmentRef {
    fn clone(&self) -> (r: Self)
        ensures
            r.deep_view() == self.deep_view(),
    {
        self.dup()
    }
}

/// What a point-in-time restore replays on top of its base backup.
#[derive(Debug, PartialEq, Eq)]
pub struct PitrRestorePlan {
    /// The instant that was asked for, in wall-clock milliseconds.
    pub target_wall_ms: u64,
    /// The segments to replay.
    pub segments: Vec<PitrReplaySegmentRef>,
}

/// The mathematical value of a [`PitrRestorePlan`].
#[verifier::ext_equal]
pub struct PitrRestorePlanModel {
    pub target_wall_ms: u64,
    pub segments: Seq<PitrReplaySegmentRefModel>,
}

impl DeepView for PitrRestorePlan {
    type V = PitrRestorePlanModel;

    open spec fn deep_view(&self) -> PitrRestorePlanModel {
        PitrRestorePlanModel {
            target_wall_ms: self.target_wall_ms,
            segments: self.segments.deep_view(),
        }
    }
}

impl Value for PitrRestorePlan {
    fn dup(&self) -> (r: Self) {
        PitrRestorePlan {
            target_wall_ms: self.target_wall_ms,
            segments: self.segments.dup(),
        }
    }

    fn same(&self, other: &Self) -> (b: bool) {
        self.target_wall_ms == other.target_wall_ms
            && self.segments.same(&other.segments)
    }
}

impl Clone for PitrRestorePlan {
    fn clone(&self) -> (r: Self)
        ensures
            r.deep_view() == self.deep_view(),
    {
        self.dup()
    }
}

/// A restore.
#[derive(Debug, PartialEq, Eq)]
pub struct RestoreRow {
    /// The backup restored from.
    pub backup_id: BackupId,
    /// The backup's source table.
    pub source_table: TableName,
    /// The table being filled.
    pub target_table: TableName,
    /// The one destination tablet.
    pub tablet: TabletId,
    /// The indexes to create once the restore is done.
    pub gsi_defs: Vec<IndexDef>,
    /// The replay plan of a point-in-time restore.
    pub pitr: Option<PitrRestorePlan>,
    /// Where it stands.
    pub status: RestoreStatus,
}

/// The mathematical value of a [`RestoreRow`].
#[verifier::ext_equal]
pub struct RestoreRowModel {
    pub backup_id: Seq<char>,
    pub source_table: Seq<char>,
    pub target_table: Seq<char>,
    pub tablet: TabletId,
    pub gsi_defs: Seq<IndexDefModel>,
    pub pitr: Option<PitrRestorePlanModel>,
    pub status: RestoreStatusModel,
}

impl DeepView for RestoreRow {
    type V = RestoreRowModel;

    open spec fn deep_view(&self) -> RestoreRowModel {
        RestoreRowModel {
            backup_id: self.backup_id.deep_view(),
            source_table: self.source_table.deep_view(),
            target_table: self.target_table.deep_view(),
            tablet: self.tablet,
            gsi_defs: self.gsi_defs.deep_view(),
            pitr: self.pitr.deep_view(),
            status: self.status.deep_view(),
        }
    }
}

impl Value for RestoreRow {
    fn dup(&self) -> (r: Self) {
        RestoreRow {
            backup_id: self.backup_id.dup(),
            source_table: self.source_table.dup(),
            target_table: self.target_table.dup(),
            tablet: self.tablet,
            gsi_defs: self.gsi_defs.dup(),
            pitr: self.pitr.dup(),
            status: self.status.dup(),
        }
    }

    fn same(&self, other: &Self) -> (b: bool) {
        self.backup_id.same(&other.backup_id)
            && self.source_table.same(&other.source_table)
            && self.target_table.same(&other.target_table)
            && self.tablet == other.tablet
            && self.gsi_defs.same(&other.gsi_defs)
            && self.pitr.same(&other.pitr)
            && self.status.same(&other.status)
    }
}

impl Clone for RestoreRow {
    fn clone(&self) -> (r: Self)
        ensures
            r.deep_view() == self.deep_view(),
    {
        self.dup()
    }
}

/// The instants that a table's latest recovery generation can be restored to.
#[derive(Clone, Copy, Debug, PartialEq, Eq, Structural)]
pub struct PitrRestoreWindow {
    /// The generation.
    pub generation: u64,
    /// The earliest instant, in wall-clock milliseconds.
    pub earliest_ms: u64,
    /// The latest instant, never before the earliest.
    pub latest_ms: u64,
}

impl DeepView for PitrRestoreWindow {
    type V = PitrRestoreWindow;

    open spec fn deep_view(&self) -> PitrRestoreWindow {
        *self
    }
}

impl Value for PitrRestoreWindow {
    fn dup(&self) -> (r: Self) {
        *self
    }

    fn same(&self, other: &Self) -> (b: bool) {
        *self == *other
    }
}

/// The view type of a row that records none.
pub fn default_stream_view_type() -> (r: StreamViewType)
    ensures
        r == StreamViewType::NewAndOldImages,
{
    StreamViewType::NewAndOldImages
}

/// The role of an address book that records none.
pub fn default_node_role() -> (r: String)
    ensures
        r@ == "combined"@,
{
    "combined".to_owned()
}

} // verus!
