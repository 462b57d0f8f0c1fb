//! The backup and restore catalogs.
use animus_control::tablet::TOKEN_BYTES;
use animus_control::{
    Advice, ApplyOutcome, BackupPinnedTablet, BackupStatus, BackupTabletProgress, Candidate,
    ColumnType, Epoch, KeyRange, MetaCommand, Metadata, NodeId, PlacementPolicy, RestoreStatus,
    TableSchema, TabletId, TabletState,
};

fn nid(n: u64) -> NodeId {
    NodeId(format!("n{n}"))
}

/// A schema is well formed if it declares its key columns.
fn well_formed(schema: &TableSchema) -> bool {
    let declared = |name: &String| schema.columns.iter().any(|c| c.name == *name);
    declared(&schema.partition_key) && schema.sort_keys.iter().all(declared)
}

/// A planner that takes the first candidates there are.
fn select_replicas(candidates: &[Candidate], policy: &PlacementPolicy) -> Option<Vec<NodeId>> {
    let wanted = policy.replicas as usize;
    if candidates.len() < wanted {
        return None;
    }
    Some(candidates[..wanted].iter().map(|c| c.node.clone()).collect())
}

fn advise(m: &Metadata, c: &MetaCommand) -> Advice {
    Advice {
        schema_valid: m.schema_to_validate(c).map_or(true, |s| well_formed(&s)),
        selection: m
            .placement_question(c)
            .and_then(|(candidates, policy)| select_replicas(&candidates, &policy)),
    }
}

/// Applies commands with the advice that the rest of the system would give.
trait Driver {
    fn run(&mut self, c: &MetaCommand) -> ApplyOutcome;
}

impl Driver for Metadata {
    fn run(&mut self, c: &MetaCommand) -> ApplyOutcome {
        let advice = advise(self, c);
        assert!(self.admits(c));
        self.apply(c, &advice)
    }
}

fn table_with_one_tablet(m: &mut Metadata, table: &str, tablet: TabletId) {
    assert_eq!(
        m.run(&MetaCommand::CreateTableSchema {
            table: table.to_owned(),
            schema: TableSchema::simple("id", ColumnType::String),
        }),
        ApplyOutcome::Applied
    );
    assert_eq!(
        m.run(&MetaCommand::CreateTablet {
            tablet,
            table: Some(table.to_owned()),
            range: KeyRange::whole(),
            replicas: vec![nid(1)],
        }),
        ApplyOutcome::Applied
    );
}

fn table_with_schema(m: &mut Metadata, table: &str) {
    assert_eq!(
        m.run(&MetaCommand::CreateTableSchema {
            table: table.to_owned(),
            schema: TableSchema::simple("pk", ColumnType::String),
        }),
        ApplyOutcome::Applied
    );
}

fn split_tablet(m: &mut Metadata, source: TabletId, split_key: Vec<u8>, new_id: TabletId) {
    let expected_epoch = m.tablets.get(&source).map_or(Epoch::initial(), |t| t.epoch);
    let replicas = m
        .tablets
        .get(&source)
        .map(|t| t.replicas.clone())
        .unwrap_or_default();
    assert_eq!(
        m.run(&MetaCommand::BeginSplitInPlace {
            parent: source,
            expected_epoch,
            split_key,
            children: [
                (new_id, replicas.clone()),
                (TabletId(new_id.0 + 1), replicas)
            ],
        }),
        ApplyOutcome::Applied,
        "test setup: begin-split-in-place must apply"
    );
    let bumped = m.tablets.get(&source).map_or(Epoch::initial(), |t| t.epoch);
    assert_eq!(
        m.run(&MetaCommand::CutoverSplit {
            parent: source,
            expected_epoch: bumped,
            cutover_wall_ms: 1_000,
        }),
        ApplyOutcome::Applied,
        "test setup: cutover must apply"
    );
}

#[test]
fn begin_backup_apply_arm() {
    let mut m = Metadata::default();

    assert_eq!(
        m.run(&MetaCommand::BeginBackup {
            backup_id: "backup-1".to_owned(),
            table: "ghost".to_owned(),
            created_wall_ms: 1000,
            backup_name: "backup".to_string(),
            pitr_base: false,
        }),
        ApplyOutcome::Rejected("no such table schema")
    );

    table_with_one_tablet(&mut m, "users", TabletId(1));
    assert_eq!(
        m.run(&MetaCommand::BeginBackup {
            backup_id: "backup-1".to_owned(),
            table: "users".to_owned(),
            created_wall_ms: 1000,
            backup_name: "backup".to_string(),
            pitr_base: false,
        }),
        ApplyOutcome::Applied
    );
    let row = m.backup("backup-1").expect("row present");
    assert_eq!(row.table, "users");
    assert_eq!(row.status, BackupStatus::Creating);
    assert_eq!(row.manifest.created_wall_ms, 1000);
    assert_eq!(row.manifest.schema, *m.table_schema("users").unwrap());
    assert_eq!(
        row.manifest.pinned_tablets,
        vec![BackupPinnedTablet {
            tablet: TabletId(1),
            range: KeyRange::whole(),
        }]
    );

    table_with_one_tablet(&mut m, "orders", TabletId(2));
    assert_eq!(
        m.run(&MetaCommand::BeginBackup {
            backup_id: "backup-1".to_owned(),
            table: "orders".to_owned(),
            created_wall_ms: 2000,
            backup_name: "backup".to_string(),
            pitr_base: false,
        }),
        ApplyOutcome::Rejected("backup id already exists")
    );

    assert_eq!(m.backup("backup-1").unwrap().table, "users");
}

#[test]
fn record_backup_tablet_complete_apply_arm() {
    let mut m = Metadata::default();
    table_with_one_tablet(&mut m, "users", TabletId(1));
    assert_eq!(
        m.run(&MetaCommand::BeginBackup {
            backup_id: "backup-1".to_owned(),
            table: "users".to_owned(),
            created_wall_ms: 1000,
            backup_name: "backup".to_string(),
            pitr_base: false,
        }),
        ApplyOutcome::Applied
    );

    assert_eq!(
        m.run(&MetaCommand::RecordBackupTabletComplete {
            backup_id: "ghost".to_owned(),
            tablet: TabletId(1),
            cut_version: 10,
            bytes: 100,
        }),
        ApplyOutcome::Rejected("no such backup")
    );

    assert_eq!(
        m.run(&MetaCommand::RecordBackupTabletComplete {
            backup_id: "backup-1".to_owned(),
            tablet: TabletId(2),
            cut_version: 10,
            bytes: 100,
        }),
        ApplyOutcome::Rejected("tablet is not pinned in this backup")
    );

    assert_eq!(
        m.run(&MetaCommand::RecordBackupTabletComplete {
            backup_id: "backup-1".to_owned(),
            tablet: TabletId(1),
            cut_version: 10,
            bytes: 100,
        }),
        ApplyOutcome::Applied
    );
    assert_eq!(
        m.backup_tablet_progress
            .get(&("backup-1".to_owned(), TabletId(1))),
        Some(&BackupTabletProgress {
            cut_version: 10,
            bytes: 100,
        })
    );

    assert_eq!(
        m.run(&MetaCommand::RecordBackupTabletComplete {
            backup_id: "backup-1".to_owned(),
            tablet: TabletId(1),
            cut_version: 10,
            bytes: 100,
        }),
        ApplyOutcome::NoOp
    );

    assert_eq!(
        m.run(&MetaCommand::RecordBackupTabletComplete {
            backup_id: "backup-1".to_owned(),
            tablet: TabletId(1),
            cut_version: 11,
            bytes: 100,
        }),
        ApplyOutcome::Rejected("tablet already reported a different completion")
    );

    assert_eq!(
        m.run(&MetaCommand::CompleteBackup {
            backup_id: "backup-1".to_owned(),
        }),
        ApplyOutcome::Applied
    );
    assert_eq!(
        m.run(&MetaCommand::RecordBackupTabletComplete {
            backup_id: "backup-1".to_owned(),
            tablet: TabletId(1),
            cut_version: 10,
            bytes: 100,
        }),
        ApplyOutcome::Rejected("backup is not Creating")
    );
}

#[test]
fn complete_backup_apply_arm() {
    let mut m = Metadata::default();
    table_with_one_tablet(&mut m, "users", TabletId(1));
    assert_eq!(
        m.run(&MetaCommand::BeginBackup {
            backup_id: "backup-1".to_owned(),
            table: "users".to_owned(),
            created_wall_ms: 1000,
            backup_name: "backup".to_string(),
            pitr_base: false,
        }),
        ApplyOutcome::Applied
    );

    assert_eq!(
        m.run(&MetaCommand::CompleteBackup {
            backup_id: "ghost".to_owned(),
        }),
        ApplyOutcome::Rejected("no such backup")
    );

    assert_eq!(
        m.run(&MetaCommand::CompleteBackup {
            backup_id: "backup-1".to_owned(),
        }),
        ApplyOutcome::Rejected("not every pinned tablet has reported completion")
    );

    assert_eq!(
        m.run(&MetaCommand::RecordBackupTabletComplete {
            backup_id: "backup-1".to_owned(),
            tablet: TabletId(1),
            cut_version: 10,
            bytes: 100,
        }),
        ApplyOutcome::Applied
    );
    assert_eq!(
        m.run(&MetaCommand::CompleteBackup {
            backup_id: "backup-1".to_owned(),
        }),
        ApplyOutcome::Applied
    );
    assert_eq!(
        m.backup("backup-1").unwrap().status,
        BackupStatus::Available
    );
    assert_eq!(
        m.backup("backup-1").unwrap().total_bytes,
        100,
        "CompleteBackup freezes the final byte total onto the row"
    );

    assert_eq!(
        m.run(&MetaCommand::CompleteBackup {
            backup_id: "backup-1".to_owned(),
        }),
        ApplyOutcome::Rejected("backup is not Creating")
    );
}

#[test]
fn complete_backup_requires_every_pinned_tablet() {
    let mut m = Metadata::default();
    assert_eq!(
        m.run(&MetaCommand::CreateTableSchema {
            table: "users".to_owned(),
            schema: TableSchema::simple("id", ColumnType::String),
        }),
        ApplyOutcome::Applied
    );

    assert_eq!(
        m.run(&MetaCommand::CreateTablet {
            tablet: TabletId(1),
            table: Some("users".to_owned()),
            range: KeyRange::whole(),
            replicas: vec![nid(1)],
        }),
        ApplyOutcome::Applied
    );
    let split_key = [0x80; TOKEN_BYTES].to_vec();
    split_tablet(&mut m, TabletId(1), split_key, TabletId(2));

    assert_eq!(
        m.run(&MetaCommand::BeginBackup {
            backup_id: "backup-1".to_owned(),
            table: "users".to_owned(),
            created_wall_ms: 1000,
            backup_name: "backup".to_string(),
            pitr_base: false,
        }),
        ApplyOutcome::Applied
    );
    assert_eq!(
        m.backup("backup-1").unwrap().manifest.pinned_tablets.len(),
        2
    );

    assert_eq!(
        m.run(&MetaCommand::RecordBackupTabletComplete {
            backup_id: "backup-1".to_owned(),
            tablet: TabletId(2),
            cut_version: 10,
            bytes: 100,
        }),
        ApplyOutcome::Applied
    );
    assert_eq!(
        m.run(&MetaCommand::CompleteBackup {
            backup_id: "backup-1".to_owned(),
        }),
        ApplyOutcome::Rejected("not every pinned tablet has reported completion")
    );

    assert_eq!(
        m.run(&MetaCommand::RecordBackupTabletComplete {
            backup_id: "backup-1".to_owned(),
            tablet: TabletId(3),
            cut_version: 20,
            bytes: 200,
        }),
        ApplyOutcome::Applied
    );
    assert_eq!(
        m.run(&MetaCommand::CompleteBackup {
            backup_id: "backup-1".to_owned(),
        }),
        ApplyOutcome::Applied
    );
    assert_eq!(m.backup_total_bytes("backup-1"), 300);
}

#[test]
fn fail_backup_apply_arm() {
    let mut m = Metadata::default();
    table_with_one_tablet(&mut m, "users", TabletId(1));
    assert_eq!(
        m.run(&MetaCommand::BeginBackup {
            backup_id: "backup-1".to_owned(),
            table: "users".to_owned(),
            created_wall_ms: 1000,
            backup_name: "backup".to_string(),
            pitr_base: false,
        }),
        ApplyOutcome::Applied
    );

    assert_eq!(
        m.run(&MetaCommand::FailBackup {
            backup_id: "ghost".to_owned(),
            reason: "timeout".to_owned(),
        }),
        ApplyOutcome::Rejected("no such backup")
    );

    assert_eq!(
        m.run(&MetaCommand::FailBackup {
            backup_id: "backup-1".to_owned(),
            reason: "timeout".to_owned(),
        }),
        ApplyOutcome::Applied
    );
    assert_eq!(
        m.backup("backup-1").unwrap().status,
        BackupStatus::Failed {
            reason: "timeout".to_owned()
        }
    );

    assert_eq!(
        m.run(&MetaCommand::FailBackup {
            backup_id: "backup-1".to_owned(),
            reason: "timeout".to_owned(),
        }),
        ApplyOutcome::NoOp
    );

    assert_eq!(
        m.run(&MetaCommand::FailBackup {
            backup_id: "backup-1".to_owned(),
            reason: "store unreachable".to_owned(),
        }),
        ApplyOutcome::Applied
    );
    assert_eq!(
        m.backup("backup-1").unwrap().status,
        BackupStatus::Failed {
            reason: "store unreachable".to_owned()
        }
    );

    let mut avail = Metadata::default();
    table_with_one_tablet(&mut avail, "users", TabletId(1));
    assert_eq!(
        avail.run(&MetaCommand::BeginBackup {
            backup_id: "backup-2".to_owned(),
            table: "users".to_owned(),
            created_wall_ms: 1000,
            backup_name: "backup".to_string(),
            pitr_base: false,
        }),
        ApplyOutcome::Applied
    );
    assert_eq!(
        avail.run(&MetaCommand::RecordBackupTabletComplete {
            backup_id: "backup-2".to_owned(),
            tablet: TabletId(1),
            cut_version: 10,
            bytes: 100,
        }),
        ApplyOutcome::Applied
    );
    assert_eq!(
        avail.run(&MetaCommand::CompleteBackup {
            backup_id: "backup-2".to_owned(),
        }),
        ApplyOutcome::Applied
    );
    assert_eq!(
        avail.run(&MetaCommand::FailBackup {
            backup_id: "backup-2".to_owned(),
            reason: "too late".to_owned(),
        }),
        ApplyOutcome::Rejected("backup is not in a failable state")
    );
}

#[test]
fn delete_backup_apply_arm() {
    let mut m = Metadata::default();
    table_with_one_tablet(&mut m, "users", TabletId(1));
    assert_eq!(
        m.run(&MetaCommand::BeginBackup {
            backup_id: "backup-1".to_owned(),
            table: "users".to_owned(),
            created_wall_ms: 1000,
            backup_name: "backup".to_string(),
            pitr_base: false,
        }),
        ApplyOutcome::Applied
    );
    assert_eq!(
        m.run(&MetaCommand::RecordBackupTabletComplete {
            backup_id: "backup-1".to_owned(),
            tablet: TabletId(1),
            cut_version: 10,
            bytes: 100,
        }),
        ApplyOutcome::Applied
    );

    assert_eq!(
        m.run(&MetaCommand::DeleteBackup {
            backup_id: "ghost".to_owned(),
        }),
        ApplyOutcome::NoOp
    );

    assert_eq!(
        m.run(&MetaCommand::DeleteBackup {
            backup_id: "backup-1".to_owned(),
        }),
        ApplyOutcome::Applied
    );
    assert!(m.backup("backup-1").is_none());
    assert!(m.backup_tablet_progress_for("backup-1").is_empty());

    assert_eq!(
        m.run(&MetaCommand::DeleteBackup {
            backup_id: "backup-1".to_owned(),
        }),
        ApplyOutcome::NoOp
    );
}

#[test]
fn mark_backup_deleted_apply_arm() {
    let mut m = Metadata::default();
    table_with_one_tablet(&mut m, "users", TabletId(1));
    assert_eq!(
        m.run(&MetaCommand::BeginBackup {
            backup_id: "backup-1".to_owned(),
            table: "users".to_owned(),
            created_wall_ms: 1000,
            backup_name: "backup".to_string(),
            pitr_base: false,
        }),
        ApplyOutcome::Applied
    );

    assert_eq!(
        m.run(&MetaCommand::MarkBackupDeleted {
            backup_id: "ghost".to_owned(),
        }),
        ApplyOutcome::Rejected("no such backup")
    );

    assert_eq!(
        m.run(&MetaCommand::MarkBackupDeleted {
            backup_id: "backup-1".to_owned(),
        }),
        ApplyOutcome::Rejected("backup is not in a deletable state")
    );

    assert_eq!(
        m.run(&MetaCommand::RecordBackupTabletComplete {
            backup_id: "backup-1".to_owned(),
            tablet: TabletId(1),
            cut_version: 10,
            bytes: 100,
        }),
        ApplyOutcome::Applied
    );
    assert_eq!(
        m.run(&MetaCommand::CompleteBackup {
            backup_id: "backup-1".to_owned(),
        }),
        ApplyOutcome::Applied
    );
    assert_eq!(
        m.backup("backup-1").unwrap().status,
        BackupStatus::Available
    );

    assert_eq!(
        m.run(&MetaCommand::MarkBackupDeleted {
            backup_id: "backup-1".to_owned(),
        }),
        ApplyOutcome::Applied
    );
    assert_eq!(m.backup("backup-1").unwrap().status, BackupStatus::Expired);

    assert_eq!(
        m.run(&MetaCommand::MarkBackupDeleted {
            backup_id: "backup-1".to_owned(),
        }),
        ApplyOutcome::NoOp
    );

    let mut failed = Metadata::default();
    table_with_one_tablet(&mut failed, "users", TabletId(1));
    assert_eq!(
        failed.run(&MetaCommand::BeginBackup {
            backup_id: "backup-2".to_owned(),
            table: "users".to_owned(),
            created_wall_ms: 1000,
            backup_name: "backup".to_string(),
            pitr_base: false,
        }),
        ApplyOutcome::Applied
    );
    assert_eq!(
        failed.run(&MetaCommand::FailBackup {
            backup_id: "backup-2".to_owned(),
            reason: "timeout".to_owned(),
        }),
        ApplyOutcome::Applied
    );
    assert_eq!(
        failed.run(&MetaCommand::MarkBackupDeleted {
            backup_id: "backup-2".to_owned(),
        }),
        ApplyOutcome::Applied
    );
    assert_eq!(
        failed.backup("backup-2").unwrap().status,
        BackupStatus::Expired
    );
}

#[test]
fn begin_restore_apply_arm() {
    let mut m = Metadata::default();

    assert_eq!(
        m.run(&MetaCommand::CreateTableSchema {
            table: "restored".to_owned(),
            schema: TableSchema::simple("id", ColumnType::String),
        }),
        ApplyOutcome::Applied
    );

    assert_eq!(
        m.run(&MetaCommand::BeginRestore {
            restore_id: "restore-1".to_owned(),
            backup_id: "backup-1".to_owned(),
            source_table: "users".to_owned(),
            target_table: "restored".to_owned(),
            tablet: TabletId(5),
            replicas: vec![nid(1)],
            gsi_defs: Vec::new(),
            pitr: None,
        }),
        ApplyOutcome::Applied
    );
    let row = m.restore("restore-1").expect("row present");
    assert_eq!(row.backup_id, "backup-1");
    assert_eq!(row.source_table, "users");
    assert_eq!(row.target_table, "restored");
    assert_eq!(row.tablet, TabletId(5));
    assert_eq!(row.status, RestoreStatus::Seeding);
    let tablet = &(*m.tablets.get(&TabletId(5)).unwrap());
    assert_eq!(tablet.state, TabletState::Building);
    assert_eq!(tablet.range, KeyRange::whole());
    assert_eq!(tablet.table.as_deref(), Some("restored"));
    assert!(!tablet.is_routable());

    assert_eq!(
        m.run(&MetaCommand::BeginRestore {
            restore_id: "restore-1".to_owned(),
            backup_id: "backup-2".to_owned(),
            source_table: "users".to_owned(),
            target_table: "restored".to_owned(),
            tablet: TabletId(6),
            replicas: vec![nid(1)],
            gsi_defs: Vec::new(),
            pitr: None,
        }),
        ApplyOutcome::Rejected("restore id already exists")
    );

    assert_eq!(
        m.run(&MetaCommand::BeginRestore {
            restore_id: "restore-2".to_owned(),
            backup_id: "backup-2".to_owned(),
            source_table: "users".to_owned(),
            target_table: "restored2".to_owned(),
            tablet: TabletId(5),
            replicas: vec![nid(1)],
            gsi_defs: Vec::new(),
            pitr: None,
        }),
        ApplyOutcome::Rejected("tablet already exists")
    );

    assert_eq!(
        m.run(&MetaCommand::BeginRestore {
            restore_id: "restore-3".to_owned(),
            backup_id: "backup-2".to_owned(),
            source_table: "users".to_owned(),
            target_table: "restored3".to_owned(),
            tablet: TabletId(0),
            replicas: vec![nid(1)],
            gsi_defs: Vec::new(),
            pitr: None,
        }),
        ApplyOutcome::Rejected("tablet id below the monotonic allocator")
    );
}

#[test]
fn complete_and_fail_restore_apply_arms() {
    let mut m = Metadata::default();
    assert_eq!(
        m.run(&MetaCommand::CreateTableSchema {
            table: "restored".to_owned(),
            schema: TableSchema::simple("id", ColumnType::String),
        }),
        ApplyOutcome::Applied
    );
    assert_eq!(
        m.run(&MetaCommand::BeginRestore {
            restore_id: "restore-1".to_owned(),
            backup_id: "backup-1".to_owned(),
            source_table: "users".to_owned(),
            target_table: "restored".to_owned(),
            tablet: TabletId(5),
            replicas: vec![nid(1)],
            gsi_defs: Vec::new(),
            pitr: None,
        }),
        ApplyOutcome::Applied
    );

    assert_eq!(
        m.run(&MetaCommand::CompleteRestore {
            restore_id: "ghost".to_owned(),
        }),
        ApplyOutcome::Rejected("no such restore")
    );

    let before_epoch = (*m.tablets.get(&TabletId(5)).unwrap()).epoch;
    assert_eq!(
        m.run(&MetaCommand::CompleteRestore {
            restore_id: "restore-1".to_owned(),
        }),
        ApplyOutcome::Applied
    );
    assert_eq!(m.restore("restore-1").unwrap().status, RestoreStatus::Done);
    let tablet = &(*m.tablets.get(&TabletId(5)).unwrap());
    assert_eq!(tablet.state, TabletState::Active);
    assert!(tablet.is_routable());
    assert!(tablet.epoch > before_epoch);

    assert_eq!(
        m.run(&MetaCommand::CompleteRestore {
            restore_id: "restore-1".to_owned(),
        }),
        ApplyOutcome::Rejected("restore is not Seeding")
    );

    assert_eq!(
        m.run(&MetaCommand::FailRestore {
            restore_id: "restore-1".to_owned(),
            reason: "too late".to_owned(),
        }),
        ApplyOutcome::Rejected("restore already completed")
    );

    assert_eq!(
        m.run(&MetaCommand::BeginRestore {
            restore_id: "restore-2".to_owned(),
            backup_id: "backup-2".to_owned(),
            source_table: "users".to_owned(),
            target_table: "restored2".to_owned(),
            tablet: TabletId(6),
            replicas: vec![nid(1)],
            gsi_defs: Vec::new(),
            pitr: None,
        }),
        ApplyOutcome::Applied
    );
    assert_eq!(
        m.run(&MetaCommand::FailRestore {
            restore_id: "restore-2".to_owned(),
            reason: "stuck".to_owned(),
        }),
        ApplyOutcome::Applied
    );
    assert_eq!(
        m.restore("restore-2").unwrap().status,
        RestoreStatus::Failed {
            reason: "stuck".to_owned()
        }
    );
    assert_eq!((*m.tablets.get(&TabletId(6)).unwrap()).state, TabletState::Building);

    assert_eq!(
        m.run(&MetaCommand::FailRestore {
            restore_id: "restore-2".to_owned(),
            reason: "stuck".to_owned(),
        }),
        ApplyOutcome::NoOp
    );

    assert_eq!(
        m.run(&MetaCommand::FailRestore {
            restore_id: "restore-2".to_owned(),
            reason: "stuck again".to_owned(),
        }),
        ApplyOutcome::Applied
    );
}

#[test]
fn backup_catalog_survives_a_table_drop() {
    let mut m = Metadata::default();
    table_with_one_tablet(&mut m, "users", TabletId(1));
    assert_eq!(
        m.run(&MetaCommand::BeginBackup {
            backup_id: "backup-1".to_owned(),
            table: "users".to_owned(),
            created_wall_ms: 1000,
            backup_name: "backup".to_string(),
            pitr_base: false,
        }),
        ApplyOutcome::Applied
    );
    assert_eq!(
        m.run(&MetaCommand::RecordBackupTabletComplete {
            backup_id: "backup-1".to_owned(),
            tablet: TabletId(1),
            cut_version: 10,
            bytes: 100,
        }),
        ApplyOutcome::Applied
    );
    assert_eq!(
        m.run(&MetaCommand::CompleteBackup {
            backup_id: "backup-1".to_owned(),
        }),
        ApplyOutcome::Applied
    );

    assert_eq!(
        m.run(&MetaCommand::DropTableTablets {
            table: "users".to_owned(),
        }),
        ApplyOutcome::Applied
    );
    assert_eq!(
        m.run(&MetaCommand::DropTableSchema {
            table: "users".to_owned(),
        }),
        ApplyOutcome::Applied
    );

    assert!(!m.has_table_schema("users"));
    assert!(!m.has_table_tablet("users"));

    let row = m
        .backup("backup-1")
        .expect("backup row survives table drop");
    assert_eq!(row.status, BackupStatus::Available);
    assert_eq!(row.table, "users");
    assert_eq!(
        m.backup_tablet_progress
            .get(&("backup-1".to_owned(), TabletId(1))),
        Some(&BackupTabletProgress {
            cut_version: 10,
            bytes: 100,
        })
    );

    assert_eq!(row.total_bytes, 100);
    assert_eq!(
        m.backup_total_bytes("backup-1"),
        0,
        "the live accessor legitimately goes to zero post-drop — it is \
         not what DescribeBackup/ListBackups read from, `BackupRow::\
         total_bytes` is"
    );
}

#[test]
fn backup_survives_a_split_of_its_pinned_tablet() {
    let mut m = Metadata::default();
    table_with_one_tablet(&mut m, "users", TabletId(1));
    assert_eq!(
        m.run(&MetaCommand::BeginBackup {
            backup_id: "backup-1".to_owned(),
            table: "users".to_owned(),
            created_wall_ms: 1_000,
            backup_name: "backup".to_string(),
            pitr_base: false,
        }),
        ApplyOutcome::Applied
    );
    let pinned = m
        .backup("backup-1")
        .unwrap()
        .manifest
        .pinned_tablets
        .clone();
    assert_eq!(
        pinned,
        vec![BackupPinnedTablet {
            tablet: TabletId(1),
            range: KeyRange::whole(),
        }]
    );

    assert_eq!(m.live_split_descendants(TabletId(1)), vec![TabletId(1)]);
    assert!(m.backup_capture_target("backup-1", TabletId(1)));
    assert!(!m.backup_ready_to_complete("backup-1"));

    split_tablet(&mut m, TabletId(1), b"m".to_vec(), TabletId(2));
    assert!(!m.tablets.contains_key(&TabletId(1)));

    assert!(!m.backup_capture_target("backup-1", TabletId(1)));
    assert!(m.backup_capture_target("backup-1", TabletId(2)));
    assert!(m.backup_capture_target("backup-1", TabletId(3)));
    let mut descendants = m.live_split_descendants(TabletId(1));
    descendants.sort();
    assert_eq!(descendants, vec![TabletId(2), TabletId(3)]);

    assert!(!m.backup_capture_target("backup-1", TabletId(99)));

    assert_eq!(
        m.run(&MetaCommand::RecordBackupTabletComplete {
            backup_id: "backup-1".to_owned(),
            tablet: TabletId(1),
            cut_version: 1,
            bytes: 1,
        }),
        ApplyOutcome::Applied
    );
    assert!(!m.backup_ready_to_complete("backup-1"));
    assert!(
        m.backup_manifest_tablet_progress("backup-1")
            .iter()
            .all(|(t, _)| *t != TabletId(1)),
        "the retired parent's own orphaned report must never surface in the manifest's \
         authoritative tablet list, which is always the current live frontier"
    );

    assert_eq!(
        m.run(&MetaCommand::RecordBackupTabletComplete {
            backup_id: "backup-1".to_owned(),
            tablet: TabletId(2),
            cut_version: 10,
            bytes: 111,
        }),
        ApplyOutcome::Applied
    );
    assert!(!m.backup_ready_to_complete("backup-1"));
    assert_eq!(
        m.run(&MetaCommand::CompleteBackup {
            backup_id: "backup-1".to_owned(),
        }),
        ApplyOutcome::Rejected("not every pinned tablet has reported completion")
    );

    assert_eq!(
        m.run(&MetaCommand::RecordBackupTabletComplete {
            backup_id: "backup-1".to_owned(),
            tablet: TabletId(3),
            cut_version: 12,
            bytes: 222,
        }),
        ApplyOutcome::Applied
    );
    assert!(m.backup_ready_to_complete("backup-1"));
    assert_eq!(
        m.run(&MetaCommand::CompleteBackup {
            backup_id: "backup-1".to_owned(),
        }),
        ApplyOutcome::Applied
    );
    assert_eq!(
        m.backup("backup-1").unwrap().status,
        BackupStatus::Available
    );
    assert_eq!(m.backup_total_bytes("backup-1"), 111 + 222);
    assert_eq!(
        m.backup("backup-1").unwrap().manifest.pinned_tablets,
        vec![BackupPinnedTablet {
            tablet: TabletId(1),
            range: KeyRange::whole(),
        }],
        "the manifest stub's pinned-tablet list is a frozen historical \
         snapshot, never rewritten onto the re-planned descendants"
    );
}

#[test]
fn backup_survives_a_cascading_split_of_a_split_descendant() {
    let mut m = Metadata::default();
    table_with_one_tablet(&mut m, "users", TabletId(1));
    assert_eq!(
        m.run(&MetaCommand::BeginBackup {
            backup_id: "backup-1".to_owned(),
            table: "users".to_owned(),
            created_wall_ms: 1_000,
            backup_name: "backup".to_string(),
            pitr_base: false,
        }),
        ApplyOutcome::Applied
    );
    split_tablet(&mut m, TabletId(1), b"m".to_vec(), TabletId(2));

    split_tablet(&mut m, TabletId(2), b"g".to_vec(), TabletId(4));
    assert!(!m.tablets.contains_key(&TabletId(2)));

    let mut descendants = m.live_split_descendants(TabletId(1));
    descendants.sort();
    assert_eq!(
        descendants,
        vec![TabletId(3), TabletId(4), TabletId(5)],
        "tablet 1's live frontier is now three generations-2 tablets: \
         the once-split-then-split-again left branch's two children, \
         plus the untouched right child"
    );
    for &t in &descendants {
        assert!(m.backup_capture_target("backup-1", t));
    }
    assert!(!m.backup_capture_target("backup-1", TabletId(1)));
    assert!(!m.backup_capture_target("backup-1", TabletId(2)));

    for &t in &descendants {
        assert_eq!(
            m.run(&MetaCommand::RecordBackupTabletComplete {
                backup_id: "backup-1".to_owned(),
                tablet: t,
                cut_version: 1,
                bytes: 10,
            }),
            ApplyOutcome::Applied
        );
    }
    assert!(m.backup_ready_to_complete("backup-1"));
    assert_eq!(
        m.run(&MetaCommand::CompleteBackup {
            backup_id: "backup-1".to_owned(),
        }),
        ApplyOutcome::Applied
    );
}

#[test]
fn record_backup_tablet_complete_rejects_an_unrelated_tablets_report_even_with_other_splits_on_file()
 {
    let mut m = Metadata::default();
    table_with_one_tablet(&mut m, "users", TabletId(1));
    table_with_one_tablet(&mut m, "other", TabletId(10));
    assert_eq!(
        m.run(&MetaCommand::BeginBackup {
            backup_id: "backup-1".to_owned(),
            table: "users".to_owned(),
            created_wall_ms: 1_000,
            backup_name: "backup".to_string(),
            pitr_base: false,
        }),
        ApplyOutcome::Applied
    );

    split_tablet(&mut m, TabletId(10), b"m".to_vec(), TabletId(11));
    assert!(!m.backup_capture_target("backup-1", TabletId(11)));
    assert!(!m.backup_capture_target("backup-1", TabletId(12)));
    assert_eq!(
        m.run(&MetaCommand::RecordBackupTabletComplete {
            backup_id: "backup-1".to_owned(),
            tablet: TabletId(11),
            cut_version: 1,
            bytes: 1,
        }),
        ApplyOutcome::Rejected("tablet is not pinned in this backup")
    );
}

#[test]
fn begin_backup_pitr_base_tags_atomically_with_the_mint() {
    let mut m = Metadata::default();
    table_with_schema(&mut m, "orders");
    assert_eq!(
        m.run(&MetaCommand::UpdateContinuousBackups {
            table: "orders".to_owned(),
            enabled: true,
            wall_ms: 500,
        }),
        ApplyOutcome::Applied
    );
    m.run(&MetaCommand::CreateTablet {
        tablet: TabletId(1),
        table: Some("orders".to_owned()),
        range: KeyRange::whole(),
        replicas: Vec::new(),
    });
    assert_eq!(
        m.run(&MetaCommand::BeginBackup {
            backup_id: "b1".to_owned(),
            table: "orders".to_owned(),
            created_wall_ms: 1_000,
            backup_name: "__pitr_base__orders".to_owned(),
            pitr_base: true,
        }),
        ApplyOutcome::Applied
    );

    assert_eq!((*m.backups.get(&"b1".to_owned()).unwrap()).status, BackupStatus::Creating);
    assert!(m.pitr_base_backups.contains(&"b1".to_owned()));

    m.run(&MetaCommand::RecordBackupTabletComplete {
        backup_id: "b1".to_owned(),
        tablet: TabletId(1),
        cut_version: 1,
        bytes: 0,
    });
    assert_eq!(
        m.run(&MetaCommand::CompleteBackup {
            backup_id: "b1".to_owned(),
        }),
        ApplyOutcome::Applied
    );
    assert_eq!((*m.backups.get(&"b1".to_owned()).unwrap()).status, BackupStatus::Available);
    assert!(m.pitr_base_backups.contains(&"b1".to_owned()));
}

#[test]
fn begin_backup_without_pitr_base_is_never_tagged() {
    let mut m = Metadata::default();
    table_with_schema(&mut m, "orders");
    m.run(&MetaCommand::CreateTablet {
        tablet: TabletId(1),
        table: Some("orders".to_owned()),
        range: KeyRange::whole(),
        replicas: Vec::new(),
    });
    assert_eq!(
        m.run(&MetaCommand::BeginBackup {
            backup_id: "b1".to_owned(),
            table: "orders".to_owned(),
            created_wall_ms: 1_000,
            backup_name: "my-backup".to_owned(),
            pitr_base: false,
        }),
        ApplyOutcome::Applied
    );
    assert!(!m.pitr_base_backups.contains(&"b1".to_owned()));
}

#[test]
fn delete_backup_prunes_its_own_pitr_base_tag() {
    let mut m = Metadata::default();
    table_with_schema(&mut m, "orders");
    m.run(&MetaCommand::CreateTablet {
        tablet: TabletId(1),
        table: Some("orders".to_owned()),
        range: KeyRange::whole(),
        replicas: Vec::new(),
    });
    m.run(&MetaCommand::BeginBackup {
        backup_id: "b1".to_owned(),
        table: "orders".to_owned(),
        created_wall_ms: 1_000,
        backup_name: "pitr-base".to_owned(),
        pitr_base: true,
    });
    assert_eq!(
        m.run(&MetaCommand::DeleteBackup {
            backup_id: "b1".to_owned(),
        }),
        ApplyOutcome::Applied
    );
    assert!(!m.pitr_base_backups.contains(&"b1".to_owned()));
}
