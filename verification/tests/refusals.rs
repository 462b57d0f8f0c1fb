//! Commands that are refused, and why.
use animus_control::{
    Advice, ApplyOutcome, ColumnType, Epoch, IndexDef, IndexKind, IndexProjection, IndexStatus,
    KeyRange, MetaCommand, Metadata, NodeAddrs, NodeId, SortedMap, StreamSpec, StreamViewType,
    TableSchema, TabletId, TabletState,
};

fn nid(n: u64) -> NodeId {
    NodeId(format!("n{n}"))
}

fn run(m: &mut Metadata, c: MetaCommand) -> ApplyOutcome {
    run_with(m, c, true)
}

fn run_with(m: &mut Metadata, c: MetaCommand, schema_valid: bool) -> ApplyOutcome {
    let advice = Advice {
        schema_valid,
        selection: None,
    };
    assert!(m.admits(&c));
    m.apply(&c, &advice)
}

fn refused(m: &mut Metadata, c: MetaCommand) -> &'static str {
    let before = m.clone();
    match run(m, c) {
        ApplyOutcome::Rejected(why) => {
            assert_eq!(*m, before);
            why
        }
        other => panic!("{other:?}"),
    }
}

fn table(m: &mut Metadata, name: &str) {
    assert_eq!(
        run(
            m,
            MetaCommand::CreateTableSchema {
                table: name.to_owned(),
                schema: TableSchema::simple("pk", ColumnType::String),
            }
        ),
        ApplyOutcome::Applied
    );
}

fn create(id: u64, name: &str) -> MetaCommand {
    MetaCommand::CreateTablet {
        tablet: TabletId(id),
        table: Some(name.to_owned()),
        range: KeyRange::whole(),
        replicas: vec![nid(1)],
    }
}

#[test]
fn a_second_first_tablet_is_refused() {
    let mut m = Metadata::default();
    assert_eq!(run(&mut m, create(1, "orders")), ApplyOutcome::Applied);
    assert_eq!(refused(&mut m, create(2, "orders")), "table already has a tablet");
    assert_eq!(refused(&mut m, create(1, "users")), "tablet already exists");
}

#[test]
fn the_slower_of_two_creators_hears_of_the_tablet_whatever_its_id() {
    let mut m = Metadata::default();
    assert_eq!(run(&mut m, create(5, "orders")), ApplyOutcome::Applied);
    assert_eq!(refused(&mut m, create(3, "orders")), "table already has a tablet");
    assert_eq!(refused(&mut m, create(6, "orders")), "table already has a tablet");
    assert_eq!(
        refused(&mut m, create(3, "users")),
        "tablet id below the monotonic allocator"
    );
}

#[test]
fn a_schema_is_registered_once_and_must_be_well_formed() {
    let mut m = Metadata::default();
    table(&mut m, "orders");
    let again = MetaCommand::CreateTableSchema {
        table: "orders".to_owned(),
        schema: TableSchema::simple("pk", ColumnType::String),
    };
    assert_eq!(refused(&mut m, again), "table schema already exists");
    let malformed = MetaCommand::CreateTableSchema {
        table: "users".to_owned(),
        schema: TableSchema::simple("pk", ColumnType::String),
    };
    assert_eq!(
        run_with(&mut m, malformed, false),
        ApplyOutcome::Rejected("malformed table schema")
    );
    let index = MetaCommand::CreateTableIndex {
        table: "orders".to_owned(),
        index: IndexDef {
            name: "by_x".to_owned(),
            kind: IndexKind::Global,
            hash_attribute: "x".to_owned(),
            sort_attribute: None,
            projection: IndexProjection::All,
            status: IndexStatus::Creating,
            hash_attribute_type: None,
            sort_attribute_type: None,
        },
    };
    assert_eq!(
        run_with(&mut m, index, false),
        ApplyOutcome::Rejected("malformed table index")
    );
    assert!(!m.has_table_schema("users"));
}

#[test]
fn an_enabled_stream_is_not_relabelled() {
    let mut m = Metadata::default();
    table(&mut m, "orders");
    let enable = |label: &str| MetaCommand::SetTableStream {
        table: "orders".to_owned(),
        spec: Some(StreamSpec {
            label: label.to_owned(),
            view_type: StreamViewType::KeysOnly,
        }),
    };
    assert_eq!(run(&mut m, enable("L1")), ApplyOutcome::Applied);
    assert_eq!(
        refused(&mut m, enable("L2")),
        "table stream already enabled (disable before re-enabling to mint a new label)"
    );
}

#[test]
fn a_segment_under_an_unknown_label_or_generation_is_refused() {
    let mut m = Metadata::default();
    table(&mut m, "orders");
    let shard = MetaCommand::SealStreamShard {
        table: "orders".to_owned(),
        label: "L1".to_owned(),
        tablet: TabletId(1),
        epoch: 0,
        view_type: StreamViewType::KeysOnly,
        hlc_range: (0, 1),
        count: 1,
        seal_wall_ms: 1,
        replicas: vec![nid(1)],
        object_id: "o".to_owned(),
    };
    assert_eq!(
        refused(&mut m, shard),
        "stream label has no current schema entry and no existing catalog rows to extend"
    );
    let segment = MetaCommand::SealPitrSegment {
        table: "orders".to_owned(),
        generation: 1,
        tablet: TabletId(1),
        epoch: 0,
        hlc_range: (0, 1),
        count: 1,
        seal_wall_ms: 1,
        replicas: vec![nid(1)],
        object_id: "o".to_owned(),
    };
    assert_eq!(
        refused(&mut m, segment),
        "PITR generation has no current schema entry and no existing catalog rows to extend"
    );
}

#[test]
fn an_address_book_needs_a_known_node() {
    let mut m = Metadata::default();
    let addrs = NodeAddrs {
        internal: "10.0.0.1:1".to_owned(),
        client: "10.0.0.1:2".to_owned(),
        intra: "10.0.0.1:3".to_owned(),
        admin: "10.0.0.1:4".to_owned(),
        role: "combined".to_owned(),
    };
    assert_eq!(
        refused(
            &mut m,
            MetaCommand::RegisterNodeAddrs {
                node: nid(1),
                addrs: addrs.clone()
            }
        ),
        "node id not yet a registered member — register it via MetaCommand::RegisterNode first"
    );
    assert_eq!(
        run(
            &mut m,
            MetaCommand::RegisterNode {
                node: nid(1),
                addrs,
                labels: SortedMap::new()
            }
        ),
        ApplyOutcome::Applied
    );
}

#[test]
fn split_children_are_numbered_above_the_floor() {
    let mut m = Metadata::default();
    assert_eq!(run(&mut m, create(5, "orders")), ApplyOutcome::Applied);
    let split = |left: u64, right: u64| MetaCommand::BeginSplitInPlace {
        parent: TabletId(5),
        expected_epoch: Epoch::initial(),
        split_key: vec![1],
        children: [
            (TabletId(left), vec![nid(1)]),
            (TabletId(right), vec![nid(1)]),
        ],
    };
    assert_eq!(
        refused(&mut m, split(4, 6)),
        "child tablet id below the monotonic allocator"
    );
    assert_eq!(
        refused(&mut m, split(6, 0)),
        "child tablet id below the monotonic allocator"
    );
    assert_eq!(refused(&mut m, split(5, 6)), "child tablet id already exists");
    assert_eq!(refused(&mut m, split(6, 6)), "child ids must be distinct");
    assert_eq!(m.next_free_tablet_id(), TabletId(6));
    assert_eq!(run(&mut m, split(6, 7)), ApplyOutcome::Applied);
    assert_eq!(m.next_free_tablet_id(), TabletId(8));
}

#[test]
fn a_cutover_needs_the_recorded_intent() {
    let mut m = Metadata::default();
    assert_eq!(run(&mut m, create(1, "orders")), ApplyOutcome::Applied);
    let mut t = m.tablets.get(&TabletId(1)).unwrap().clone();
    t.state = TabletState::Splitting;
    m.tablets.insert(TabletId(1), t);
    assert_eq!(
        refused(
            &mut m,
            MetaCommand::CutoverSplit {
                parent: TabletId(1),
                expected_epoch: Epoch::initial(),
                cutover_wall_ms: 1
            }
        ),
        "splitting parent has no in-place split intent"
    );
}

#[test]
fn a_restore_completes_into_its_building_tablet_only() {
    let mut m = Metadata::default();
    let begin = |id: &str, tablet: u64| MetaCommand::BeginRestore {
        restore_id: id.to_owned(),
        backup_id: "b".to_owned(),
        source_table: "orders".to_owned(),
        target_table: id.to_owned(),
        tablet: TabletId(tablet),
        replicas: vec![nid(1)],
        gsi_defs: Vec::new(),
        pitr: None,
    };
    let complete = |id: &str| MetaCommand::CompleteRestore {
        restore_id: id.to_owned(),
    };
    assert_eq!(run(&mut m, begin("r1", 1)), ApplyOutcome::Applied);
    assert_eq!(run(&mut m, begin("r2", 2)), ApplyOutcome::Applied);
    let drop = MetaCommand::DropTableTablets {
        table: "r1".to_owned(),
    };
    assert_eq!(run(&mut m, drop), ApplyOutcome::Applied);
    assert_eq!(
        refused(&mut m, complete("r1")),
        "restore's tablet no longer exists"
    );
    let mut t = m.tablets.get(&TabletId(2)).unwrap().clone();
    t.state = TabletState::Active;
    m.tablets.insert(TabletId(2), t);
    assert_eq!(
        refused(&mut m, complete("r2")),
        "restore's tablet is not Building"
    );
}

#[test]
fn what_would_overflow_is_not_admitted() {
    let mut m = Metadata::default();
    let advice = Advice {
        schema_valid: true,
        selection: None,
    };
    let last = create(u64::MAX, "orders");
    assert!(!m.admits(&last));
    assert_eq!(m.try_apply(&last, &advice), None);
    assert_eq!(m, Metadata::default());
    let first = create(1, "orders");
    assert_eq!(m.try_apply(&first, &advice), Some(ApplyOutcome::Applied));
    let mut t = m.tablets.get(&TabletId(1)).unwrap().clone();
    t.epoch = Epoch(u64::MAX);
    m.tablets.insert(TabletId(1), t);
    let moved = MetaCommand::CasTabletReplicas {
        tablet: TabletId(1),
        expected_epoch: Epoch(u64::MAX),
        replicas: vec![nid(2)],
    };
    assert!(!m.admits(&moved));
    assert_eq!(m.try_apply(&moved, &advice), None);
    let stale = MetaCommand::CasTabletReplicas {
        tablet: TabletId(1),
        expected_epoch: Epoch(3),
        replicas: vec![nid(2)],
    };
    assert_eq!(
        m.try_apply(&stale, &advice),
        Some(ApplyOutcome::Rejected("epoch mismatch"))
    );
}
