//! Tables, indexes and per-table configuration.
use animus_control::syskv::RESERVED_NAMESPACE;
use animus_control::{
    Advice, ApplyOutcome, Candidate, ColumnDef, ColumnType, IndexDef, IndexKind, IndexProjection,
    IndexStatus, KeyRange, MetaCommand, Metadata, NodeId, PlacementPolicy, ProvisionedThroughput,
    SortedMap, TableSchema, TabletId, TtlSpec,
};

fn nid(n: u64) -> NodeId {
    NodeId(format!("n{n}"))
}

/// A schema is well formed if it declares its key columns.
fn well_formed(schema: &TableSchema) -> bool {
    let declared = |name: &String| schema.columns.iter().any(|c| c.name == *name);
    declared(&schema.partition_key) && schema.sort_keys.iter().all(declared)
}

/// A planner that takes the first candidates there are.
fn select_replicas(candidates: &[Candidate], policy: &PlacementPolicy) -> Option<Vec<NodeId>> {
    let wanted = policy.replicas as usize;
    if candidates.len() < wanted {
        return None;
    }
    Some(candidates[..wanted].iter().map(|c| c.node.clone()).collect())
}

fn advise(m: &Metadata, c: &MetaCommand) -> Advice {
    Advice {
        schema_valid: m.schema_to_validate(c).map_or(true, |s| well_formed(&s)),
        selection: m
            .placement_question(c)
            .and_then(|(candidates, policy)| select_replicas(&candidates, &policy)),
    }
}

/// Applies commands with the advice that the rest of the system would give.
trait Driver {
    fn run(&mut self, c: &MetaCommand) -> ApplyOutcome;
}

impl Driver for Metadata {
    fn run(&mut self, c: &MetaCommand) -> ApplyOutcome {
        let advice = advise(self, c);
        assert!(self.admits(c));
        self.apply(c, &advice)
    }
}

fn map_of<const N: usize>(entries: [(String, String); N]) -> SortedMap<String, String> {
    let mut m = SortedMap::new();
    for (k, v) in entries {
        m.insert(k, v);
    }
    m
}

fn table_with_index_and_tablet(m: &mut Metadata, table: &str, index: &str, tablet: TabletId) {
    assert_eq!(
        m.run(&MetaCommand::CreateTableSchema {
            table: table.to_owned(),
            schema: TableSchema::simple("id", ColumnType::String),
        }),
        ApplyOutcome::Applied
    );
    assert_eq!(
        m.run(&MetaCommand::CreateTableIndex {
            table: table.to_owned(),
            index: IndexDef {
                name: index.to_owned(),
                kind: IndexKind::Global,
                hash_attribute: "email".to_owned(),
                sort_attribute: None,
                projection: IndexProjection::All,
                status: IndexStatus::Creating,
                hash_attribute_type: None,
                sort_attribute_type: None,
            },
        }),
        ApplyOutcome::Applied
    );
    assert_eq!(
        m.run(&MetaCommand::CreateTablet {
            tablet,
            table: Some(table.to_owned()),
            range: KeyRange::whole(),
            replicas: vec![nid(1)],
        }),
        ApplyOutcome::Applied
    );
}

fn ttl_spec(attribute_name: &str) -> TtlSpec {
    TtlSpec {
        attribute_name: attribute_name.to_owned(),
    }
}

fn throughput_spec(read_units: u64, write_units: u64) -> ProvisionedThroughput {
    ProvisionedThroughput {
        read_units,
        write_units,
    }
}

#[test]
fn replace_table_schema_is_atomic_and_validated() {
    let mut m = Metadata::default();
    let base = TableSchema::simple("pk", ColumnType::String);

    assert_eq!(
        m.run(&MetaCommand::ReplaceTableSchema {
            table: "ks.users".to_owned(),
            schema: base.clone(),
        }),
        ApplyOutcome::Rejected("no schema to replace for table")
    );

    assert_eq!(
        m.run(&MetaCommand::CreateTableSchema {
            table: "ks.users".to_owned(),
            schema: base.clone(),
        }),
        ApplyOutcome::Applied
    );

    assert_eq!(
        m.run(&MetaCommand::ReplaceTableSchema {
            table: "ks.users".to_owned(),
            schema: base.clone(),
        }),
        ApplyOutcome::NoOp
    );

    let mut extended = base.clone();
    extended
        .columns
        .push(ColumnDef::new("age", ColumnType::Number));
    assert_eq!(
        m.run(&MetaCommand::ReplaceTableSchema {
            table: "ks.users".to_owned(),
            schema: extended.clone(),
        }),
        ApplyOutcome::Applied
    );
    assert_eq!(m.schemas.get(&"ks.users".to_owned()), Some(&extended));

    let malformed = TableSchema::with_columns("pk", Vec::new(), Vec::new());
    assert!(!well_formed(&malformed), "test premise");
    assert_eq!(
        m.run(&MetaCommand::ReplaceTableSchema {
            table: "ks.users".to_owned(),
            schema: malformed,
        }),
        ApplyOutcome::Rejected("malformed table schema")
    );
    assert_eq!(m.schemas.get(&"ks.users".to_owned()), Some(&extended));
}

#[test]
fn set_index_status_apply_arm() {
    let mut m = Metadata::default();

    assert_eq!(
        m.run(&MetaCommand::SetIndexStatus {
            table: "ghost".to_owned(),
            index: "by-email".to_owned(),
            status: IndexStatus::Active,
        }),
        ApplyOutcome::Rejected("no such table schema")
    );

    let base = TableSchema::simple("id", ColumnType::String);
    assert_eq!(
        m.run(&MetaCommand::CreateTableSchema {
            table: "users".to_owned(),
            schema: base,
        }),
        ApplyOutcome::Applied
    );

    assert_eq!(
        m.run(&MetaCommand::SetIndexStatus {
            table: "users".to_owned(),
            index: "by-email".to_owned(),
            status: IndexStatus::Active,
        }),
        ApplyOutcome::Rejected("no such table index")
    );

    let index = IndexDef {
        name: "by-email".to_owned(),
        kind: IndexKind::Global,
        hash_attribute: "email".to_owned(),
        sort_attribute: None,
        projection: IndexProjection::All,
        status: IndexStatus::Creating,
        hash_attribute_type: None,
        sort_attribute_type: None,
    };
    assert_eq!(
        m.run(&MetaCommand::CreateTableIndex {
            table: "users".to_owned(),
            index,
        }),
        ApplyOutcome::Applied
    );
    assert_eq!(
        m.table_indexes("users")[0].status,
        IndexStatus::Creating,
        "test premise: index starts Creating"
    );

    assert_eq!(
        m.run(&MetaCommand::SetIndexStatus {
            table: "users".to_owned(),
            index: "by-email".to_owned(),
            status: IndexStatus::Creating,
        }),
        ApplyOutcome::NoOp
    );

    assert_eq!(
        m.run(&MetaCommand::SetIndexStatus {
            table: "users".to_owned(),
            index: "by-email".to_owned(),
            status: IndexStatus::Active,
        }),
        ApplyOutcome::Applied
    );
    let idx = &m.table_indexes("users")[0];
    assert_eq!(idx.status, IndexStatus::Active);
    assert_eq!(idx.name, "by-email");
    assert_eq!(idx.hash_attribute, "email");
}

#[test]
fn mark_index_backfilled_apply_arm() {
    let mut m = Metadata::default();

    assert_eq!(
        m.run(&MetaCommand::MarkIndexBackfilled {
            table: "ghost".to_owned(),
            index: "by-email".to_owned(),
            tablet: TabletId(1),
        }),
        ApplyOutcome::Rejected("no such table schema")
    );

    assert_eq!(
        m.run(&MetaCommand::CreateTableSchema {
            table: "users".to_owned(),
            schema: TableSchema::simple("id", ColumnType::String),
        }),
        ApplyOutcome::Applied
    );

    assert_eq!(
        m.run(&MetaCommand::MarkIndexBackfilled {
            table: "users".to_owned(),
            index: "by-email".to_owned(),
            tablet: TabletId(1),
        }),
        ApplyOutcome::Rejected("no such table index")
    );

    assert_eq!(
        m.run(&MetaCommand::CreateTableIndex {
            table: "users".to_owned(),
            index: IndexDef {
                name: "by-email".to_owned(),
                kind: IndexKind::Global,
                hash_attribute: "email".to_owned(),
                sort_attribute: None,
                projection: IndexProjection::All,
                status: IndexStatus::Creating,
                hash_attribute_type: None,
                sort_attribute_type: None,
            },
        }),
        ApplyOutcome::Applied
    );
    assert_eq!(
        m.run(&MetaCommand::CreateTablet {
            tablet: TabletId(1),
            table: Some("users".to_owned()),
            range: KeyRange::whole(),
            replicas: vec![nid(1)],
        }),
        ApplyOutcome::Applied
    );

    assert_eq!(
        m.run(&MetaCommand::MarkIndexBackfilled {
            table: "users".to_owned(),
            index: "by-email".to_owned(),
            tablet: TabletId(1),
        }),
        ApplyOutcome::Applied
    );
    assert!(
        m.index_backfill
            .contains_key(&(TabletId(1), "by-email".to_owned()))
    );

    assert_eq!(
        m.run(&MetaCommand::MarkIndexBackfilled {
            table: "users".to_owned(),
            index: "by-email".to_owned(),
            tablet: TabletId(1),
        }),
        ApplyOutcome::NoOp
    );
    assert_eq!(m.index_backfill.len(), 1);
}

#[test]
fn mark_index_backfilled_rejects_a_tablet_not_scoped_to_the_table() {
    let mut m = Metadata::default();
    table_with_index_and_tablet(&mut m, "users", "by-email", TabletId(1));
    assert_eq!(
        m.run(&MetaCommand::CreateTablet {
            tablet: TabletId(2),
            table: Some("orders".to_owned()),
            range: KeyRange::whole(),
            replicas: vec![nid(1)],
        }),
        ApplyOutcome::Applied
    );

    assert_eq!(
        m.run(&MetaCommand::MarkIndexBackfilled {
            table: "users".to_owned(),
            index: "by-email".to_owned(),
            tablet: TabletId(2),
        }),
        ApplyOutcome::Rejected("tablet is not scoped to this table")
    );

    assert_eq!(
        m.run(&MetaCommand::MarkIndexBackfilled {
            table: "users".to_owned(),
            index: "by-email".to_owned(),
            tablet: TabletId(999),
        }),
        ApplyOutcome::Rejected("tablet is not scoped to this table")
    );
    assert!(m.index_backfill.is_empty());
}

#[test]
fn drop_table_tablets_prunes_index_backfill_rows_for_the_dropped_tablets() {
    let mut m = Metadata::default();
    table_with_index_and_tablet(&mut m, "users", "by-email", TabletId(1));
    table_with_index_and_tablet(&mut m, "orders", "by-email", TabletId(2));
    for (table, tablet) in [("users", TabletId(1)), ("orders", TabletId(2))] {
        assert_eq!(
            m.run(&MetaCommand::MarkIndexBackfilled {
                table: table.to_owned(),
                index: "by-email".to_owned(),
                tablet,
            }),
            ApplyOutcome::Applied
        );
    }
    assert_eq!(m.index_backfill.len(), 2);

    assert_eq!(
        m.run(&MetaCommand::DropTableTablets {
            table: "users".to_owned(),
        }),
        ApplyOutcome::Applied
    );

    assert!(
        !m.index_backfill
            .contains_key(&(TabletId(1), "by-email".to_owned())),
        "the dropped table's row must be pruned"
    );
    assert!(
        m.index_backfill
            .contains_key(&(TabletId(2), "by-email".to_owned())),
        "the other table's same-named-index row must survive"
    );
}

#[test]
fn drop_table_index_prunes_index_backfill_rows_for_that_index() {
    let mut m = Metadata::default();
    table_with_index_and_tablet(&mut m, "users", "by-email", TabletId(1));
    table_with_index_and_tablet(&mut m, "orders", "by-email", TabletId(2));
    for (table, tablet) in [("users", TabletId(1)), ("orders", TabletId(2))] {
        assert_eq!(
            m.run(&MetaCommand::MarkIndexBackfilled {
                table: table.to_owned(),
                index: "by-email".to_owned(),
                tablet,
            }),
            ApplyOutcome::Applied
        );
    }
    assert_eq!(m.index_backfill.len(), 2);

    assert_eq!(
        m.run(&MetaCommand::DropTableIndex {
            table: "users".to_owned(),
            index: "by-email".to_owned(),
        }),
        ApplyOutcome::Applied
    );

    assert!(
        !m.index_backfill
            .contains_key(&(TabletId(1), "by-email".to_owned())),
        "the dropped index's row must be pruned"
    );
    assert!(
        m.index_backfill
            .contains_key(&(TabletId(2), "by-email".to_owned())),
        "the other table's same-named index must be untouched"
    );

    assert_eq!(
        m.run(&MetaCommand::DropTableIndex {
            table: "users".to_owned(),
            index: "by-email".to_owned(),
        }),
        ApplyOutcome::NoOp
    );
}

#[test]
fn create_table_schema_rejects_reserved_namespace() {
    let mut m = Metadata::default();
    let schema = TableSchema::simple("pk", ColumnType::String);

    assert_eq!(
        m.run(&MetaCommand::CreateTableSchema {
            table: RESERVED_NAMESPACE.to_owned(),
            schema: schema.clone(),
        }),
        ApplyOutcome::Rejected("table name collides with the reserved system namespace")
    );
    assert_eq!(
        m.run(&MetaCommand::CreateTableSchema {
            table: format!("{}_backup", RESERVED_NAMESPACE),
            schema: schema.clone(),
        }),
        ApplyOutcome::Rejected("table name collides with the reserved system namespace")
    );
    assert!(m.schemas.is_empty(), "no schema should have been recorded");

    assert_eq!(
        m.run(&MetaCommand::CreateTableSchema {
            table: "ks.orders".to_owned(),
            schema,
        }),
        ApplyOutcome::Applied
    );
}

#[test]
fn create_table_schema_rejects_the_reserved_separator() {
    let mut m = Metadata::default();
    assert_eq!(
        m.run(&MetaCommand::CreateTableSchema {
            table: "orders$byCustomer".to_owned(),
            schema: TableSchema::simple("pk", ColumnType::String),
        }),
        ApplyOutcome::Rejected("table name may not contain the reserved `$` separator")
    );
}

#[test]
fn set_table_ttl_enables_and_records_the_spec() {
    let mut m = Metadata::default();
    assert_eq!(
        m.run(&MetaCommand::CreateTableSchema {
            table: "orders".to_owned(),
            schema: TableSchema::simple("pk", ColumnType::String),
        }),
        ApplyOutcome::Applied
    );
    assert_eq!(
        m.run(&MetaCommand::SetTableTtl {
            table: "orders".to_owned(),
            spec: Some(ttl_spec("expiresAt")),
        }),
        ApplyOutcome::Applied
    );
    assert_eq!(
        m.schemas.get(&"orders".to_owned()).unwrap().ttl,
        Some(ttl_spec("expiresAt"))
    );
}

#[test]
fn set_table_ttl_re_enable_with_same_attribute_is_noop() {
    let mut m = Metadata::default();
    assert_eq!(
        m.run(&MetaCommand::CreateTableSchema {
            table: "orders".to_owned(),
            schema: TableSchema::simple("pk", ColumnType::String),
        }),
        ApplyOutcome::Applied
    );
    assert_eq!(
        m.run(&MetaCommand::SetTableTtl {
            table: "orders".to_owned(),
            spec: Some(ttl_spec("expiresAt")),
        }),
        ApplyOutcome::Applied
    );
    assert_eq!(
        m.run(&MetaCommand::SetTableTtl {
            table: "orders".to_owned(),
            spec: Some(ttl_spec("expiresAt")),
        }),
        ApplyOutcome::NoOp
    );
    assert_eq!(
        m.schemas.get(&"orders".to_owned()).unwrap().ttl,
        Some(ttl_spec("expiresAt"))
    );
}

#[test]
fn set_table_ttl_change_attribute_in_place_applies() {
    let mut m = Metadata::default();
    assert_eq!(
        m.run(&MetaCommand::CreateTableSchema {
            table: "orders".to_owned(),
            schema: TableSchema::simple("pk", ColumnType::String),
        }),
        ApplyOutcome::Applied
    );
    assert_eq!(
        m.run(&MetaCommand::SetTableTtl {
            table: "orders".to_owned(),
            spec: Some(ttl_spec("expiresAt")),
        }),
        ApplyOutcome::Applied
    );
    assert_eq!(
        m.run(&MetaCommand::SetTableTtl {
            table: "orders".to_owned(),
            spec: Some(ttl_spec("ttlSeconds")),
        }),
        ApplyOutcome::Applied
    );
    assert_eq!(
        m.schemas.get(&"orders".to_owned()).unwrap().ttl,
        Some(ttl_spec("ttlSeconds"))
    );
}

#[test]
fn set_table_ttl_disable_then_disable_again_is_noop() {
    let mut m = Metadata::default();
    assert_eq!(
        m.run(&MetaCommand::CreateTableSchema {
            table: "orders".to_owned(),
            schema: TableSchema::simple("pk", ColumnType::String),
        }),
        ApplyOutcome::Applied
    );
    assert_eq!(
        m.run(&MetaCommand::SetTableTtl {
            table: "orders".to_owned(),
            spec: Some(ttl_spec("expiresAt")),
        }),
        ApplyOutcome::Applied
    );
    assert_eq!(
        m.run(&MetaCommand::SetTableTtl {
            table: "orders".to_owned(),
            spec: None,
        }),
        ApplyOutcome::Applied
    );
    assert_eq!(m.schemas.get(&"orders".to_owned()).unwrap().ttl, None);
    assert_eq!(
        m.run(&MetaCommand::SetTableTtl {
            table: "orders".to_owned(),
            spec: None,
        }),
        ApplyOutcome::NoOp
    );
    assert_eq!(m.schemas.get(&"orders".to_owned()).unwrap().ttl, None);
}

#[test]
fn set_table_ttl_rejects_unknown_table() {
    let mut m = Metadata::default();
    assert_eq!(
        m.run(&MetaCommand::SetTableTtl {
            table: "no-such-table".to_owned(),
            spec: Some(ttl_spec("expiresAt")),
        }),
        ApplyOutcome::Rejected("no such table schema")
    );
}

#[test]
fn set_table_throughput_enables_and_records_the_spec() {
    let mut m = Metadata::default();
    assert_eq!(
        m.run(&MetaCommand::CreateTableSchema {
            table: "orders".to_owned(),
            schema: TableSchema::simple("pk", ColumnType::String),
        }),
        ApplyOutcome::Applied
    );
    assert_eq!(
        m.run(&MetaCommand::SetTableThroughput {
            table: "orders".to_owned(),
            spec: Some(throughput_spec(5, 5)),
        }),
        ApplyOutcome::Applied
    );
    assert_eq!(
        m.schemas.get(&"orders".to_owned()).unwrap().throughput,
        Some(throughput_spec(5, 5))
    );
    assert_eq!(m.table_throughput("orders"), Some(&throughput_spec(5, 5)));
}

#[test]
fn set_table_throughput_re_set_with_same_spec_is_noop() {
    let mut m = Metadata::default();
    assert_eq!(
        m.run(&MetaCommand::CreateTableSchema {
            table: "orders".to_owned(),
            schema: TableSchema::simple("pk", ColumnType::String),
        }),
        ApplyOutcome::Applied
    );
    assert_eq!(
        m.run(&MetaCommand::SetTableThroughput {
            table: "orders".to_owned(),
            spec: Some(throughput_spec(5, 5)),
        }),
        ApplyOutcome::Applied
    );
    assert_eq!(
        m.run(&MetaCommand::SetTableThroughput {
            table: "orders".to_owned(),
            spec: Some(throughput_spec(5, 5)),
        }),
        ApplyOutcome::NoOp
    );
    assert_eq!(
        m.schemas.get(&"orders".to_owned()).unwrap().throughput,
        Some(throughput_spec(5, 5))
    );
}

#[test]
fn set_table_throughput_change_units_in_place_applies() {
    let mut m = Metadata::default();
    assert_eq!(
        m.run(&MetaCommand::CreateTableSchema {
            table: "orders".to_owned(),
            schema: TableSchema::simple("pk", ColumnType::String),
        }),
        ApplyOutcome::Applied
    );
    assert_eq!(
        m.run(&MetaCommand::SetTableThroughput {
            table: "orders".to_owned(),
            spec: Some(throughput_spec(5, 5)),
        }),
        ApplyOutcome::Applied
    );
    assert_eq!(
        m.run(&MetaCommand::SetTableThroughput {
            table: "orders".to_owned(),
            spec: Some(throughput_spec(10, 20)),
        }),
        ApplyOutcome::Applied
    );
    assert_eq!(
        m.schemas.get(&"orders".to_owned()).unwrap().throughput,
        Some(throughput_spec(10, 20))
    );
}

#[test]
fn set_table_throughput_revert_to_pay_per_request_then_again_is_noop() {
    let mut m = Metadata::default();
    assert_eq!(
        m.run(&MetaCommand::CreateTableSchema {
            table: "orders".to_owned(),
            schema: TableSchema::simple("pk", ColumnType::String),
        }),
        ApplyOutcome::Applied
    );
    assert_eq!(
        m.run(&MetaCommand::SetTableThroughput {
            table: "orders".to_owned(),
            spec: Some(throughput_spec(5, 5)),
        }),
        ApplyOutcome::Applied
    );
    assert_eq!(
        m.run(&MetaCommand::SetTableThroughput {
            table: "orders".to_owned(),
            spec: None,
        }),
        ApplyOutcome::Applied
    );
    assert_eq!(m.schemas.get(&"orders".to_owned()).unwrap().throughput, None);
    assert_eq!(
        m.run(&MetaCommand::SetTableThroughput {
            table: "orders".to_owned(),
            spec: None,
        }),
        ApplyOutcome::NoOp
    );
    assert_eq!(m.schemas.get(&"orders".to_owned()).unwrap().throughput, None);
}

#[test]
fn set_table_throughput_rejects_unknown_table() {
    let mut m = Metadata::default();
    assert_eq!(
        m.run(&MetaCommand::SetTableThroughput {
            table: "no-such-table".to_owned(),
            spec: Some(throughput_spec(5, 5)),
        }),
        ApplyOutcome::Rejected("no such table schema")
    );
}

#[test]
fn table_throughput_is_none_for_a_table_with_no_spec() {
    let mut m = Metadata::default();
    assert_eq!(
        m.run(&MetaCommand::CreateTableSchema {
            table: "orders".to_owned(),
            schema: TableSchema::simple("pk", ColumnType::String),
        }),
        ApplyOutcome::Applied
    );
    assert_eq!(m.table_throughput("orders"), None);
    assert_eq!(m.table_throughput("no-such-table"), None);
}

#[test]
fn tag_resource_adds_tags() {
    let mut m = Metadata::default();
    assert_eq!(
        m.run(&MetaCommand::CreateTableSchema {
            table: "orders".to_owned(),
            schema: TableSchema::simple("pk", ColumnType::String),
        }),
        ApplyOutcome::Applied
    );
    assert_eq!(
        m.run(&MetaCommand::TagResource {
            table: "orders".to_owned(),
            tags: map_of([
                ("env".to_owned(), "prod".to_owned()),
                ("team".to_owned(), "payments".to_owned()),
            ]),
        }),
        ApplyOutcome::Applied
    );
    assert_eq!(
        m.schemas.get(&"orders".to_owned()).unwrap().tags,
        map_of([
            ("env".to_owned(), "prod".to_owned()),
            ("team".to_owned(), "payments".to_owned()),
        ])
    );
}

#[test]
fn tag_resource_overwrites_an_existing_key() {
    let mut m = Metadata::default();
    assert_eq!(
        m.run(&MetaCommand::CreateTableSchema {
            table: "orders".to_owned(),
            schema: TableSchema::simple("pk", ColumnType::String),
        }),
        ApplyOutcome::Applied
    );
    assert_eq!(
        m.run(&MetaCommand::TagResource {
            table: "orders".to_owned(),
            tags: map_of([("env".to_owned(), "prod".to_owned())]),
        }),
        ApplyOutcome::Applied
    );
    assert_eq!(
        m.run(&MetaCommand::TagResource {
            table: "orders".to_owned(),
            tags: map_of([("env".to_owned(), "staging".to_owned())]),
        }),
        ApplyOutcome::Applied
    );
    assert_eq!(
        m.schemas.get(&"orders".to_owned()).unwrap().tags,
        map_of([("env".to_owned(), "staging".to_owned())])
    );
}

#[test]
fn tag_resource_identical_repeat_is_noop() {
    let mut m = Metadata::default();
    assert_eq!(
        m.run(&MetaCommand::CreateTableSchema {
            table: "orders".to_owned(),
            schema: TableSchema::simple("pk", ColumnType::String),
        }),
        ApplyOutcome::Applied
    );
    assert_eq!(
        m.run(&MetaCommand::TagResource {
            table: "orders".to_owned(),
            tags: map_of([("env".to_owned(), "prod".to_owned())]),
        }),
        ApplyOutcome::Applied
    );
    assert_eq!(
        m.run(&MetaCommand::TagResource {
            table: "orders".to_owned(),
            tags: map_of([("env".to_owned(), "prod".to_owned())]),
        }),
        ApplyOutcome::NoOp
    );
}

#[test]
fn tag_resource_rejects_unknown_table() {
    let mut m = Metadata::default();
    assert_eq!(
        m.run(&MetaCommand::TagResource {
            table: "no-such-table".to_owned(),
            tags: map_of([("env".to_owned(), "prod".to_owned())]),
        }),
        ApplyOutcome::Rejected("no such table schema")
    );
}

#[test]
fn untag_resource_removes_named_keys() {
    let mut m = Metadata::default();
    assert_eq!(
        m.run(&MetaCommand::CreateTableSchema {
            table: "orders".to_owned(),
            schema: TableSchema::simple("pk", ColumnType::String),
        }),
        ApplyOutcome::Applied
    );
    assert_eq!(
        m.run(&MetaCommand::TagResource {
            table: "orders".to_owned(),
            tags: map_of([
                ("env".to_owned(), "prod".to_owned()),
                ("team".to_owned(), "payments".to_owned()),
            ]),
        }),
        ApplyOutcome::Applied
    );
    assert_eq!(
        m.run(&MetaCommand::UntagResource {
            table: "orders".to_owned(),
            tag_keys: vec!["env".to_owned()],
        }),
        ApplyOutcome::Applied
    );
    assert_eq!(
        m.schemas.get(&"orders".to_owned()).unwrap().tags,
        map_of([("team".to_owned(), "payments".to_owned())])
    );
}

#[test]
fn untag_resource_missing_key_is_noop() {
    let mut m = Metadata::default();
    assert_eq!(
        m.run(&MetaCommand::CreateTableSchema {
            table: "orders".to_owned(),
            schema: TableSchema::simple("pk", ColumnType::String),
        }),
        ApplyOutcome::Applied
    );
    assert_eq!(
        m.run(&MetaCommand::UntagResource {
            table: "orders".to_owned(),
            tag_keys: vec!["env".to_owned()],
        }),
        ApplyOutcome::NoOp
    );
}

#[test]
fn untag_resource_rejects_unknown_table() {
    let mut m = Metadata::default();
    assert_eq!(
        m.run(&MetaCommand::UntagResource {
            table: "no-such-table".to_owned(),
            tag_keys: vec!["env".to_owned()],
        }),
        ApplyOutcome::Rejected("no such table schema")
    );
}
