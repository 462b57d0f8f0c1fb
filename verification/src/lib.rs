//! The control plane's replicated metadata: cluster membership, the tablet map and the catalogs of
//! tables, streams, backups and recovery beside it.
//!
//! [`Metadata`] is a state machine. A [`MetaCommand`] takes it from one state to the next, and the
//! answer is an [`ApplyOutcome`]; [`apply::step`] says exactly what each command does. The state
//! can be mirrored, entity by entity, into a keyspace and rebuilt from it ([`mirror`]); [`syskv`]
//! encodes the keys of that keyspace and [`codec`] the changes to it, and the latest changes are
//! kept for readers that lag a little ([`delta_ring`]). Where replicas belong is worked out by a
//! planner outside this crate: [`placement`] says what it is asked and what its answers become.
//! [`detector`] judges which members are alive.
//!
//! Every contract is stated over mathematical values: the deep view of a type, with sequences, sets
//! and maps in place of vectors and ordered collections. What holds of the commands as a whole is
//! proved in the modules whose names end in `laws`.
pub mod advice;
pub mod apply;
pub mod backup_laws;
pub mod backups;
pub mod big_endian;
pub mod catalog_laws;
pub mod codec;
pub mod command;
pub mod decimal;
pub mod delta_ring;
pub mod detector;
pub mod entity;
pub mod guard;
pub mod history_laws;
pub mod ids;
pub mod key_laws;
pub mod laws;
pub mod lineage;
pub mod lineage_laws;
pub mod member_laws;
pub mod membership;
pub mod meta;
pub mod mirror;
pub mod mirror_laws;
pub mod pitr;
pub mod placement;
pub mod placement_laws;
pub mod planner_laws;
pub mod policy;
pub mod reach_laws;
pub mod recovery_laws;
pub mod refusal_laws;
pub mod repeat_laws;
pub mod restores;
pub mod rows;
pub mod schema;
pub mod segment_laws;
pub mod segments;
pub mod sorted_map;
pub mod split_laws;
pub mod splits;
pub mod splitting_laws;
pub mod stream_laws;
pub mod streams;
pub mod syskv;
pub mod table_laws;
pub mod tables;
pub mod tablet;
pub mod tablet_laws;
pub mod tablet_map;
pub mod value;
pub mod view_laws;

pub use advice::Advice;
pub use command::{ApplyOutcome, MetaCommand};
pub use delta_ring::DeltaRing;
pub use detector::{FailureDetector, Liveness, Nanos};
pub use entity::{CpMemberAddrEntry, Entity, EntityKey, EntityWrite};
pub use ids::{Epoch, NodeId, TableName, TabletId};
pub use meta::Metadata;
pub use mirror::{apply_and_derive_mirror, apply_key_write, rebuild_metadata, KeyWrite};
pub use placement::{PlacementEntry, PlacementView, PlacingQuestion};
pub use policy::{Candidate, PlacementPolicy};
pub use rows::{
    BackupId, BackupManifest, BackupPinnedTablet, BackupRow, BackupStatus, BackupTabletProgress,
    Member, NodeAddrs, NodeStatus, PitrReplaySegmentRef, PitrRestorePlan, PitrRestoreWindow,
    PitrSegmentRow, RestoreId, RestoreRow, RestoreStatus, SplitLineage, SplitPlacing,
    StreamShardRow,
};

pub use schema::{
    ColumnDef, ColumnType, IndexDef, IndexKind, IndexProjection, IndexStatus, PitrSpec,
    ProvisionedThroughput, SchemaCatalog, StreamSpec, StreamViewType, TableSchema, TtlSpec,
};

pub use sorted_map::{SortedMap, SortedSet};
pub use tablet::{InPlaceSplitIntent, KeyRange, SplitChild, Tablet, TabletState};
