//! The changes to a keyspace that commands imply.
use animus_control::{
    Advice, ApplyOutcome, Candidate, ColumnType, CpMemberAddrEntry, Entity, EntityKey,
    EntityWrite, Epoch, IndexDef, IndexKind, IndexProjection, IndexStatus, KeyRange, Member,
    MetaCommand, Metadata, NodeAddrs, NodeId, NodeStatus, PlacementPolicy, SortedMap,
    SplitLineage, SplitPlacing, StreamSpec, StreamViewType, TableSchema, Tablet, TabletId,
    TtlSpec, apply_and_derive_mirror, apply_key_write, rebuild_metadata,
};

fn nid(n: u64) -> NodeId {
    NodeId(format!("n{n}"))
}

/// A schema is well formed if it declares its key columns.
fn well_formed(schema: &TableSchema) -> bool {
    let declared = |name: &String| schema.columns.iter().any(|c| c.name == *name);
    declared(&schema.partition_key) && schema.sort_keys.iter().all(declared)
}

/// A planner that takes the first candidates there are.
fn select_replicas(candidates: &[Candidate], policy: &PlacementPolicy) -> Option<Vec<NodeId>> {
    let wanted = policy.replicas as usize;
    if candidates.len() < wanted {
        return None;
    }
    Some(candidates[..wanted].iter().map(|c| c.node.clone()).collect())
}

fn advise(m: &Metadata, c: &MetaCommand) -> Advice {
    Advice {
        schema_valid: m.schema_to_validate(c).map_or(true, |s| well_formed(&s)),
        selection: m
            .placement_question(c)
            .and_then(|(candidates, policy)| select_replicas(&candidates, &policy)),
    }
}

/// Applies commands with the advice that the rest of the system would give.
trait Driver {
    fn run(&mut self, c: &MetaCommand) -> ApplyOutcome;
}

impl Driver for Metadata {
    fn run(&mut self, c: &MetaCommand) -> ApplyOutcome {
        let advice = advise(self, c);
        assert!(self.admits(c));
        self.apply(c, &advice)
    }
}

fn mirrored(m: &mut Metadata, c: &MetaCommand) -> (ApplyOutcome, Vec<EntityWrite>) {
    let advice = advise(m, c);
    assert!(m.admits(c) && m.admits_mirror(c));
    apply_and_derive_mirror(m, c, &advice)
}

fn key_of(e: &Entity) -> EntityKey {
    match e {
        Entity::Tablet(k, _) => EntityKey::Tablet(*k),
        Entity::Member(k, _) => EntityKey::Member(k.clone()),
        Entity::Schema(k, _) => EntityKey::Schema(k.clone()),
        Entity::Policy(k, _) => EntityKey::Policy(*k),
        Entity::NodeAddrs(k, _) => EntityKey::NodeAddrs(k.clone()),
        Entity::NextTabletId(_) => EntityKey::NextTabletId,
        Entity::PitrGeneration(k, _) => EntityKey::PitrGeneration(k.clone()),
        Entity::CpMemberAddr(k, _) => EntityKey::CpMemberAddr(k.clone()),
        Entity::StreamShard(k, _) => EntityKey::StreamShard(*k),
        Entity::IndexBackfill(k) => EntityKey::IndexBackfill(k.clone()),
        Entity::SplitLineage(k, _) => EntityKey::SplitLineage(*k),
        Entity::SplitPlacing(k, _) => EntityKey::SplitPlacing(*k),
        Entity::Backup(k, _) => EntityKey::Backup(k.clone()),
        Entity::BackupProgress(k, _) => EntityKey::BackupProgress(k.clone()),
        Entity::Restore(k, _) => EntityKey::Restore(k.clone()),
        Entity::PitrSegment(k, _) => EntityKey::PitrSegment(*k),
        Entity::PitrBaseBackup(k) => EntityKey::PitrBaseBackup(k.clone()),
    }
}

fn schema(pk: &str) -> TableSchema {
    TableSchema::simple(pk, ColumnType::String)
}

fn mirror_table_with_index_and_tablet(
    meta: &mut Metadata,
    table: &str,
    index: &str,
    tablet: TabletId,
) {
    let _ = mirrored(
        meta,
        &MetaCommand::CreateTableSchema {
            table: table.to_string(),
            schema: schema("id"),
        },
    );
    let _ = mirrored(
        meta,
        &MetaCommand::CreateTableIndex {
            table: table.to_string(),
            index: IndexDef {
                name: index.to_string(),
                kind: IndexKind::Global,
                hash_attribute: "id".to_string(),
                sort_attribute: None,
                projection: IndexProjection::All,
                status: IndexStatus::Creating,
                hash_attribute_type: None,
                sort_attribute_type: None,
            },
        },
    );
    let _ = mirrored(
        meta,
        &MetaCommand::CreateTablet {
            tablet,
            table: Some(table.to_string()),
            range: KeyRange::whole(),
            replicas: vec![nid(1)],
        },
    );
}

fn stream_spec(label: &str) -> StreamSpec {
    StreamSpec {
        view_type: StreamViewType::NewAndOldImages,
        label: label.to_string(),
    }
}

fn seal_cmd(tablet: TabletId, epoch: u64, end: u64) -> MetaCommand {
    MetaCommand::SealStreamShard {
        table: "orders".to_string(),
        label: "L1".to_string(),
        tablet,
        epoch,
        view_type: StreamViewType::NewAndOldImages,
        hlc_range: (end.saturating_sub(100), end),
        count: 1,
        seal_wall_ms: 1_700_000_000_000,
        replicas: vec![nid(1), nid(2)],
        object_id: format!("orders/L1/{}/{epoch}/test", tablet.0),
    }
}

fn pitr_seal_cmd(tablet: TabletId, epoch: u64, end: u64) -> MetaCommand {
    MetaCommand::SealPitrSegment {
        table: "orders".to_string(),
        generation: 1,
        tablet,
        epoch,
        hlc_range: (end.saturating_sub(100), end),
        count: 1,
        seal_wall_ms: 1_700_000_000_000,
        replicas: vec![nid(1), nid(2)],
        object_id: format!("backup/pitr/orders/{}/{epoch}/test", tablet.0),
    }
}

#[test]
fn no_op_produces_no_writes() {
    let mut meta = Metadata::default();
    let (outcome, writes) = mirrored(&mut meta, &MetaCommand::NoOp);
    assert_eq!(outcome, ApplyOutcome::NoOp);
    assert!(writes.is_empty());
}

#[test]
fn upsert_member_writes_the_member() {
    let mut meta = Metadata::default();
    let command = MetaCommand::UpsertMember {
        node: nid(1),
        labels: SortedMap::new(),
        status: NodeStatus::Active,
    };
    let (outcome, writes) = mirrored(&mut meta, &command);
    assert_eq!(outcome, ApplyOutcome::Applied);
    assert_eq!(
        writes,
        vec![EntityWrite::Put(Entity::Member(nid(1), meta.members.get(&nid(1)).unwrap().clone()))]
    );
}

#[test]
fn create_tablet_writes_the_tablet_and_bumps_the_counter() {
    let mut meta = Metadata::default();
    let command = MetaCommand::CreateTablet {
        tablet: TabletId(1),
        table: None,
        range: KeyRange::whole(),
        replicas: vec![nid(1), nid(2)],
    };
    let (outcome, writes) = mirrored(&mut meta, &command);
    assert_eq!(outcome, ApplyOutcome::Applied);
    assert_eq!(
        writes,
        vec![
            EntityWrite::Put(
                Entity::Tablet(TabletId(1), meta.tablets.get(&TabletId(1)).unwrap().clone()),
            ),
            EntityWrite::Put(Entity::NextTabletId(meta.next_tablet_id)),
        ]
    );
}

#[test]
fn create_tablet_rejected_on_duplicate_produces_no_writes() {
    let mut meta = Metadata::default();
    let create = MetaCommand::CreateTablet {
        tablet: TabletId(1),
        table: None,
        range: KeyRange::whole(),
        replicas: vec![nid(1)],
    };
    let _ = mirrored(&mut meta, &create);
    let (outcome, writes) = mirrored(&mut meta, &create);
    assert_eq!(outcome, ApplyOutcome::Rejected("tablet already exists"));
    assert!(writes.is_empty());
}

#[test]
fn cas_tablet_replicas_writes_the_tablet() {
    let mut meta = Metadata::default();
    let _ = mirrored(
        &mut meta,
        &MetaCommand::CreateTablet {
            tablet: TabletId(1),
            table: None,
            range: KeyRange::whole(),
            replicas: vec![nid(1)],
        },
    );
    let command = MetaCommand::CasTabletReplicas {
        tablet: TabletId(1),
        expected_epoch: Epoch::initial(),
        replicas: vec![nid(1), nid(2)],
    };
    let (outcome, writes) = mirrored(&mut meta, &command);
    assert_eq!(outcome, ApplyOutcome::Applied);
    assert_eq!(
        writes,
        vec![
            EntityWrite::Put(
                Entity::Tablet(TabletId(1), meta.tablets.get(&TabletId(1)).unwrap().clone()),
            ),
        ]
    );
}

#[test]
fn set_tablet_policy_some_writes_none_deletes() {
    let mut meta = Metadata::default();
    let _ = mirrored(
        &mut meta,
        &MetaCommand::CreateTablet {
            tablet: TabletId(1),
            table: None,
            range: KeyRange::whole(),
            replicas: vec![nid(1)],
        },
    );
    let set = MetaCommand::SetTabletPolicy {
        tablet: TabletId(1),
        policy: Some(PlacementPolicy::simple("p", 2)),
    };
    let (outcome, writes) = mirrored(&mut meta, &set);
    assert_eq!(outcome, ApplyOutcome::Applied);
    assert_eq!(
        writes,
        vec![
            EntityWrite::Put(
                Entity::Policy(TabletId(1), meta.policies.get(&TabletId(1)).unwrap().clone()),
            ),
        ]
    );

    let clear = MetaCommand::SetTabletPolicy {
        tablet: TabletId(1),
        policy: None,
    };
    let (outcome, writes) = mirrored(&mut meta, &clear);
    assert_eq!(outcome, ApplyOutcome::Applied);
    assert_eq!(
        writes,
        vec![EntityWrite::Delete(EntityKey::Policy(TabletId(1)))]
    );
}

#[test]
fn create_table_schema_writes_the_schema() {
    let mut meta = Metadata::default();
    let command = MetaCommand::CreateTableSchema {
        table: "orders".to_string(),
        schema: schema("id"),
    };
    let (outcome, writes) = mirrored(&mut meta, &command);
    assert_eq!(outcome, ApplyOutcome::Applied);
    assert_eq!(
        writes,
        vec![EntityWrite::Put(Entity::Schema("orders".to_owned(), schema("id").clone()))]
    );
}

#[test]
fn drop_table_schema_deletes_it_and_is_idempotent() {
    let mut meta = Metadata::default();
    let _ = mirrored(
        &mut meta,
        &MetaCommand::CreateTableSchema {
            table: "orders".to_string(),
            schema: schema("id"),
        },
    );
    let drop = MetaCommand::DropTableSchema {
        table: "orders".to_string(),
    };
    let (outcome, writes) = mirrored(&mut meta, &drop);
    assert_eq!(outcome, ApplyOutcome::Applied);
    assert_eq!(writes, vec![EntityWrite::Delete(EntityKey::Schema("orders".to_owned()))]);

    let (outcome, writes) = mirrored(&mut meta, &drop);
    assert_eq!(outcome, ApplyOutcome::NoOp);
    assert!(writes.is_empty());
}

#[test]
fn replace_table_schema_writes_the_new_schema() {
    let mut meta = Metadata::default();
    let _ = mirrored(
        &mut meta,
        &MetaCommand::CreateTableSchema {
            table: "orders".to_string(),
            schema: schema("id"),
        },
    );
    let mut replacement = schema("id");
    replacement.upsert_index(IndexDef {
        name: "by_x".to_string(),
        kind: IndexKind::Global,
        hash_attribute: "id".to_string(),
        sort_attribute: None,
        projection: IndexProjection::All,
        status: IndexStatus::Active,
        hash_attribute_type: None,
        sort_attribute_type: None,
    });
    let command = MetaCommand::ReplaceTableSchema {
        table: "orders".to_string(),
        schema: replacement.clone(),
    };
    let (outcome, writes) = mirrored(&mut meta, &command);
    assert_eq!(outcome, ApplyOutcome::Applied);
    assert_eq!(
        writes,
        vec![EntityWrite::Put(Entity::Schema("orders".to_owned(), replacement.clone()))]
    );
}

#[test]
fn drop_table_tablets_deletes_every_tablet_policy_and_prunes_cp_member_addrs() {
    let mut meta = Metadata::default();
    let _ = mirrored(
        &mut meta,
        &MetaCommand::CreateTablet {
            tablet: TabletId(1),
            table: Some("t".to_string()),
            range: KeyRange::whole(),
            replicas: vec![nid(1)],
        },
    );
    let _ = mirrored(
        &mut meta,
        &MetaCommand::SetTabletPolicy {
            tablet: TabletId(1),
            policy: Some(PlacementPolicy::simple("p", 1)),
        },
    );
    meta.cp_member_addrs.insert(nid(7), "addr".to_string());
    meta.cp_member_tablets.insert(nid(7), TabletId(1));

    let command = MetaCommand::DropTableTablets {
        table: "t".to_string(),
    };
    let (outcome, writes) = mirrored(&mut meta, &command);
    assert_eq!(outcome, ApplyOutcome::Applied);
    assert_eq!(
        writes,
        vec![
            EntityWrite::Delete(EntityKey::Tablet(TabletId(1))),
            EntityWrite::Delete(EntityKey::Policy(TabletId(1))),
            EntityWrite::Delete(EntityKey::CpMemberAddr(nid(7))),
        ]
    );

    let (outcome, writes) = mirrored(&mut meta, &command);
    assert_eq!(outcome, ApplyOutcome::NoOp);
    assert!(writes.is_empty());
}

#[test]
fn create_and_drop_table_index_write_the_updated_schema() {
    let mut meta = Metadata::default();
    let _ = mirrored(
        &mut meta,
        &MetaCommand::CreateTableSchema {
            table: "orders".to_string(),
            schema: schema("id"),
        },
    );
    let index = IndexDef {
        name: "by_x".to_string(),
        kind: IndexKind::Global,
        hash_attribute: "id".to_string(),
        sort_attribute: None,
        projection: IndexProjection::All,
        status: IndexStatus::Active,
        hash_attribute_type: None,
        sort_attribute_type: None,
    };
    let create = MetaCommand::CreateTableIndex {
        table: "orders".to_string(),
        index: index.clone(),
    };
    let (outcome, writes) = mirrored(&mut meta, &create);
    assert_eq!(outcome, ApplyOutcome::Applied);
    assert_eq!(
        writes,
        vec![
            EntityWrite::Put(
                Entity::Schema(
                    "orders".to_owned(),
                    meta.schemas.get(&"orders".to_owned()).unwrap().clone(),
                ),
            ),
        ]
    );

    let drop = MetaCommand::DropTableIndex {
        table: "orders".to_string(),
        index: "by_x".to_string(),
    };
    let (outcome, writes) = mirrored(&mut meta, &drop);
    assert_eq!(outcome, ApplyOutcome::Applied);
    assert_eq!(
        writes,
        vec![
            EntityWrite::Put(
                Entity::Schema(
                    "orders".to_owned(),
                    meta.schemas.get(&"orders".to_owned()).unwrap().clone(),
                ),
            ),
        ]
    );
}

#[test]
fn mark_index_backfilled_writes_the_row_and_is_idempotent() {
    let mut meta = Metadata::default();
    mirror_table_with_index_and_tablet(&mut meta, "users", "by_email", TabletId(1));

    let command = MetaCommand::MarkIndexBackfilled {
        table: "users".to_string(),
        index: "by_email".to_string(),
        tablet: TabletId(1),
    };
    let (outcome, writes) = mirrored(&mut meta, &command);
    assert_eq!(outcome, ApplyOutcome::Applied);
    assert_eq!(
        writes,
        vec![EntityWrite::Put(Entity::IndexBackfill((TabletId(1), "by_email".to_owned())))]
    );

    let (outcome, writes) = mirrored(&mut meta, &command);
    assert_eq!(outcome, ApplyOutcome::NoOp);
    assert!(writes.is_empty());
}

#[test]
fn drop_table_tablets_also_deletes_index_backfill_rows() {
    let mut meta = Metadata::default();
    mirror_table_with_index_and_tablet(&mut meta, "users", "by_email", TabletId(1));
    mirror_table_with_index_and_tablet(&mut meta, "orders", "by_email", TabletId(2));
    for (table, tablet) in [("users", TabletId(1)), ("orders", TabletId(2))] {
        let (outcome, _) = mirrored(
            &mut meta,
            &MetaCommand::MarkIndexBackfilled {
                table: table.to_string(),
                index: "by_email".to_string(),
                tablet,
            },
        );
        assert_eq!(outcome, ApplyOutcome::Applied);
    }

    let command = MetaCommand::DropTableTablets {
        table: "users".to_string(),
    };
    let (outcome, writes) = mirrored(&mut meta, &command);
    assert_eq!(outcome, ApplyOutcome::Applied);
    assert!(
        writes.contains(
            &EntityWrite::Delete(EntityKey::IndexBackfill((TabletId(1), "by_email".to_owned()))),
        ),
        "the dropped table's row must be among the derived deletes: {writes:?}"
    );
    assert!(
        !writes.contains(
            &EntityWrite::Delete(EntityKey::IndexBackfill((TabletId(2), "by_email".to_owned()))),
        ),
        "the other table's same-named-index row must be untouched: {writes:?}"
    );
}

#[test]
fn drop_table_index_also_deletes_index_backfill_rows() {
    let mut meta = Metadata::default();
    mirror_table_with_index_and_tablet(&mut meta, "users", "by_email", TabletId(1));
    mirror_table_with_index_and_tablet(&mut meta, "orders", "by_email", TabletId(2));
    for (table, tablet) in [("users", TabletId(1)), ("orders", TabletId(2))] {
        let (outcome, _) = mirrored(
            &mut meta,
            &MetaCommand::MarkIndexBackfilled {
                table: table.to_string(),
                index: "by_email".to_string(),
                tablet,
            },
        );
        assert_eq!(outcome, ApplyOutcome::Applied);
    }

    let command = MetaCommand::DropTableIndex {
        table: "users".to_string(),
        index: "by_email".to_string(),
    };
    let (outcome, writes) = mirrored(&mut meta, &command);
    assert_eq!(outcome, ApplyOutcome::Applied);
    assert!(
        writes.contains(
            &EntityWrite::Put(
                Entity::Schema(
                    "users".to_owned(),
                    meta.schemas.get(&"users".to_owned()).unwrap().clone(),
                ),
            ),
        ),
        "the updated schema must still be re-serialized: {writes:?}"
    );
    assert!(
        writes.contains(
            &EntityWrite::Delete(EntityKey::IndexBackfill((TabletId(1), "by_email".to_owned()))),
        ),
        "the dropped index's row must be among the derived deletes: {writes:?}"
    );
    assert!(
        !writes.contains(
            &EntityWrite::Delete(EntityKey::IndexBackfill((TabletId(2), "by_email".to_owned()))),
        ),
        "the other table's same-named index must be untouched: {writes:?}"
    );
}

#[test]
fn set_table_ttl_writes_the_updated_schema() {
    let mut meta = Metadata::default();
    let _ = mirrored(
        &mut meta,
        &MetaCommand::CreateTableSchema {
            table: "orders".to_string(),
            schema: schema("id"),
        },
    );
    let command = MetaCommand::SetTableTtl {
        table: "orders".to_string(),
        spec: Some(TtlSpec {
            attribute_name: "expiresAt".to_string(),
        }),
    };
    let (outcome, writes) = mirrored(&mut meta, &command);
    assert_eq!(outcome, ApplyOutcome::Applied);
    assert_eq!(
        writes,
        vec![
            EntityWrite::Put(
                Entity::Schema(
                    "orders".to_owned(),
                    meta.schemas.get(&"orders".to_owned()).unwrap().clone(),
                ),
            ),
        ]
    );
}

#[test]
fn register_cp_addr_writes_the_combined_entry() {
    let mut meta = Metadata::default();
    let _ = mirrored(
        &mut meta,
        &MetaCommand::CreateTablet {
            tablet: TabletId(1),
            table: None,
            range: KeyRange::whole(),
            replicas: vec![nid(1)],
        },
    );
    let command = MetaCommand::RegisterCpAddr {
        id: nid(5),
        addr: "127.0.0.1:9".to_string(),
        tablet: Some(TabletId(1)),
    };
    let (outcome, writes) = mirrored(&mut meta, &command);
    assert_eq!(outcome, ApplyOutcome::Applied);
    assert_eq!(
        writes,
        vec![EntityWrite::Put(Entity::CpMemberAddr(nid(5), CpMemberAddrEntry {
                addr: "127.0.0.1:9".to_string(),
                tablet: Some(TabletId(1)),
            }.clone()))]
    );
}

#[test]
fn register_node_addrs_writes_the_address_book_entry() {
    let mut meta = Metadata::default();

    let _ = mirrored(
        &mut meta,
        &MetaCommand::UpsertMember {
            node: nid(3),
            labels: SortedMap::new(),
            status: NodeStatus::Active,
        },
    );
    let addrs = NodeAddrs {
        internal: "a".to_string(),
        client: "b".to_string(),
        admin: "c".to_string(),
        intra: "d".to_string(),
        role: "combined".to_string(),
    };
    let command = MetaCommand::RegisterNodeAddrs {
        node: nid(3),
        addrs: addrs.clone(),
    };
    let (outcome, writes) = mirrored(&mut meta, &command);
    assert_eq!(outcome, ApplyOutcome::Applied);
    assert_eq!(
        writes,
        vec![EntityWrite::Put(Entity::NodeAddrs(nid(3), addrs.clone()))]
    );
}

#[test]
fn remove_member_deletes_every_address_book_entry() {
    let mut meta = Metadata::default();
    let _ = mirrored(
        &mut meta,
        &MetaCommand::UpsertMember {
            node: nid(4),
            labels: SortedMap::new(),
            status: NodeStatus::Leaving,
        },
    );
    let command = MetaCommand::RemoveMember { node: nid(4) };
    let (outcome, writes) = mirrored(&mut meta, &command);
    assert_eq!(outcome, ApplyOutcome::Applied);
    assert_eq!(
        writes,
        vec![
            EntityWrite::Delete(EntityKey::Member(nid(4))),
            EntityWrite::Delete(EntityKey::NodeAddrs(nid(4))),
            EntityWrite::Delete(EntityKey::CpMemberAddr(nid(4))),
        ]
    );
}

#[test]
fn register_node_writes_member_and_addrs_atomically() {
    let mut meta = Metadata::default();
    let addrs = NodeAddrs {
        internal: "127.0.0.1:9910".to_string(),
        client: "127.0.0.1:9010".to_string(),
        admin: "127.0.0.1:9510".to_string(),
        intra: "127.0.0.1:9610".to_string(),
        role: "combined".to_string(),
    };
    let command = MetaCommand::RegisterNode {
        node: nid(910),
        addrs: addrs.clone(),
        labels: SortedMap::new(),
    };
    let (outcome, writes) = mirrored(&mut meta, &command);
    assert_eq!(outcome, ApplyOutcome::Applied);
    assert_eq!(
        writes,
        vec![
            EntityWrite::Put(
                Entity::Member(nid(910), meta.members.get(&nid(910)).unwrap().clone()),
            ),
            EntityWrite::Put(Entity::NodeAddrs(nid(910), addrs.clone())),
        ]
    );

    let (outcome, writes) = mirrored(&mut meta, &command);
    assert_eq!(outcome, ApplyOutcome::NoOp);
    assert!(writes.is_empty());
}

#[test]
fn seal_stream_shard_writes_the_row() {
    let mut meta = Metadata::default();
    let _ = mirrored(
        &mut meta,
        &MetaCommand::CreateTableSchema {
            table: "orders".to_string(),
            schema: schema("id"),
        },
    );
    let _ = mirrored(
        &mut meta,
        &MetaCommand::SetTableStream {
            table: "orders".to_string(),
            spec: Some(stream_spec("L1")),
        },
    );
    let command = seal_cmd(TabletId(1), 0, 100);
    let (outcome, writes) = mirrored(&mut meta, &command);
    assert_eq!(outcome, ApplyOutcome::Applied);
    assert_eq!(
        writes,
        vec![
            EntityWrite::Put(
                Entity::StreamShard(
                    (TabletId(1), 0),
                    meta.stream_shards.get(&(TabletId(1), 0)).unwrap().clone(),
                ),
            ),
        ]
    );

    let (outcome, writes) = mirrored(&mut meta, &seal_cmd(TabletId(1), 0, 999));
    assert_eq!(outcome, ApplyOutcome::NoOp);
    assert!(writes.is_empty());
}

#[test]
fn expire_stream_shards_marks_as_put_and_removes_as_delete() {
    let mut meta = Metadata::default();
    let _ = mirrored(
        &mut meta,
        &MetaCommand::CreateTableSchema {
            table: "orders".to_string(),
            schema: schema("id"),
        },
    );
    let _ = mirrored(
        &mut meta,
        &MetaCommand::SetTableStream {
            table: "orders".to_string(),
            spec: Some(stream_spec("L1")),
        },
    );
    let _ = mirrored(&mut meta, &seal_cmd(TabletId(1), 0, 100));

    let mark = MetaCommand::ExpireStreamShards {
        rows: vec![(TabletId(1), 0)],
        remove: false,
    };
    let (outcome, writes) = mirrored(&mut meta, &mark);
    assert_eq!(outcome, ApplyOutcome::Applied);
    assert_eq!(
        writes,
        vec![
            EntityWrite::Put(
                Entity::StreamShard(
                    (TabletId(1), 0),
                    meta.stream_shards.get(&(TabletId(1), 0)).unwrap().clone(),
                ),
            ),
        ]
    );
    assert!((*meta.stream_shards.get(&(TabletId(1), 0)).unwrap()).expired);

    let remove = MetaCommand::ExpireStreamShards {
        rows: vec![(TabletId(1), 0)],
        remove: true,
    };
    let (outcome, writes) = mirrored(&mut meta, &remove);
    assert_eq!(outcome, ApplyOutcome::Applied);
    assert_eq!(
        writes,
        vec![EntityWrite::Delete(EntityKey::StreamShard((TabletId(1), 0)))]
    );
    assert!(!meta.stream_shards.contains_key(&(TabletId(1), 0)));
}

#[test]
fn update_continuous_backups_writes_the_schema_and_counter() {
    let mut meta = Metadata::default();
    let _ = mirrored(
        &mut meta,
        &MetaCommand::CreateTableSchema {
            table: "orders".to_string(),
            schema: schema("id"),
        },
    );
    let command = MetaCommand::UpdateContinuousBackups {
        table: "orders".to_string(),
        enabled: true,
        wall_ms: 1_000,
    };
    let (outcome, writes) = mirrored(&mut meta, &command);
    assert_eq!(outcome, ApplyOutcome::Applied);
    assert_eq!(
        writes,
        vec![
            EntityWrite::Put(
                Entity::Schema(
                    "orders".to_owned(),
                    meta.schemas.get(&"orders".to_owned()).unwrap().clone(),
                ),
            ),
            EntityWrite::Put(Entity::PitrGeneration("orders".to_owned(), 1)),
        ]
    );
}

#[test]
fn update_continuous_backups_noop_derives_no_writes() {
    let mut meta = Metadata::default();
    let _ = mirrored(
        &mut meta,
        &MetaCommand::CreateTableSchema {
            table: "orders".to_string(),
            schema: schema("id"),
        },
    );
    let _ = mirrored(
        &mut meta,
        &MetaCommand::UpdateContinuousBackups {
            table: "orders".to_string(),
            enabled: true,
            wall_ms: 1_000,
        },
    );
    let (outcome, writes) = mirrored(
        &mut meta,
        &MetaCommand::UpdateContinuousBackups {
            table: "orders".to_string(),
            enabled: true,
            wall_ms: 2_000,
        },
    );
    assert_eq!(outcome, ApplyOutcome::NoOp);
    assert!(writes.is_empty());
}

#[test]
fn seal_pitr_segment_writes_the_row() {
    let mut meta = Metadata::default();
    let _ = mirrored(
        &mut meta,
        &MetaCommand::CreateTableSchema {
            table: "orders".to_string(),
            schema: schema("id"),
        },
    );
    let _ = mirrored(
        &mut meta,
        &MetaCommand::UpdateContinuousBackups {
            table: "orders".to_string(),
            enabled: true,
            wall_ms: 1_000,
        },
    );
    let command = pitr_seal_cmd(TabletId(1), 0, 100);
    let (outcome, writes) = mirrored(&mut meta, &command);
    assert_eq!(outcome, ApplyOutcome::Applied);
    assert_eq!(
        writes,
        vec![
            EntityWrite::Put(
                Entity::PitrSegment(
                    (TabletId(1), 0),
                    meta.pitr_segments.get(&(TabletId(1), 0)).unwrap().clone(),
                ),
            ),
        ]
    );
}

#[test]
fn expire_pitr_segments_marks_as_put_and_removes_as_delete() {
    let mut meta = Metadata::default();
    let _ = mirrored(
        &mut meta,
        &MetaCommand::CreateTableSchema {
            table: "orders".to_string(),
            schema: schema("id"),
        },
    );
    let _ = mirrored(
        &mut meta,
        &MetaCommand::UpdateContinuousBackups {
            table: "orders".to_string(),
            enabled: true,
            wall_ms: 1_000,
        },
    );
    let _ = mirrored(&mut meta, &pitr_seal_cmd(TabletId(1), 0, 100));

    let mark = MetaCommand::ExpirePitrSegments {
        rows: vec![(TabletId(1), 0)],
        remove: false,
    };
    let (outcome, writes) = mirrored(&mut meta, &mark);
    assert_eq!(outcome, ApplyOutcome::Applied);
    assert_eq!(
        writes,
        vec![
            EntityWrite::Put(
                Entity::PitrSegment(
                    (TabletId(1), 0),
                    meta.pitr_segments.get(&(TabletId(1), 0)).unwrap().clone(),
                ),
            ),
        ]
    );
    assert!((*meta.pitr_segments.get(&(TabletId(1), 0)).unwrap()).expired);

    let remove = MetaCommand::ExpirePitrSegments {
        rows: vec![(TabletId(1), 0)],
        remove: true,
    };
    let (outcome, writes) = mirrored(&mut meta, &remove);
    assert_eq!(outcome, ApplyOutcome::Applied);
    assert_eq!(
        writes,
        vec![EntityWrite::Delete(EntityKey::PitrSegment((TabletId(1), 0)))]
    );
    assert!(!meta.pitr_segments.contains_key(&(TabletId(1), 0)));
}

#[test]
fn begin_backup_pitr_base_writes_row_and_presence_atomically_and_delete_backup_prunes_it() {
    let mut meta = Metadata::default();
    let _ = mirrored(
        &mut meta,
        &MetaCommand::CreateTableSchema {
            table: "orders".to_string(),
            schema: schema("id"),
        },
    );
    let _ = mirrored(
        &mut meta,
        &MetaCommand::CreateTablet {
            tablet: TabletId(1),
            table: Some("orders".to_string()),
            range: KeyRange::whole(),
            replicas: Vec::new(),
        },
    );
    let (outcome, writes) = mirrored(
        &mut meta,
        &MetaCommand::BeginBackup {
            backup_id: "b1".to_string(),
            table: "orders".to_string(),
            created_wall_ms: 1_000,
            backup_name: "pitr-base".to_string(),
            pitr_base: true,
        },
    );
    assert_eq!(outcome, ApplyOutcome::Applied);
    assert_eq!(
        writes,
        vec![
            EntityWrite::Put(
                Entity::Backup(
                    "b1".to_owned(),
                    meta.backups.get(&"b1".to_owned()).unwrap().clone(),
                ),
            ),
            EntityWrite::Put(Entity::PitrBaseBackup("b1".to_owned())),
        ]
    );

    let (outcome, writes) = mirrored(
        &mut meta,
        &MetaCommand::DeleteBackup {
            backup_id: "b1".to_string(),
        },
    );
    assert_eq!(outcome, ApplyOutcome::Applied);
    assert!(writes.contains(&EntityWrite::Delete(EntityKey::PitrBaseBackup("b1".to_owned()))));
}

#[test]
fn begin_backup_without_pitr_base_mirrors_only_the_row() {
    let mut meta = Metadata::default();
    let _ = mirrored(
        &mut meta,
        &MetaCommand::CreateTableSchema {
            table: "orders".to_string(),
            schema: schema("id"),
        },
    );
    let (outcome, writes) = mirrored(
        &mut meta,
        &MetaCommand::BeginBackup {
            backup_id: "b1".to_string(),
            table: "orders".to_string(),
            created_wall_ms: 1_000,
            backup_name: "my-backup".to_string(),
            pitr_base: false,
        },
    );
    assert_eq!(outcome, ApplyOutcome::Applied);
    assert_eq!(
        writes,
        vec![
            EntityWrite::Put(
                Entity::Backup(
                    "b1".to_owned(),
                    meta.backups.get(&"b1".to_owned()).unwrap().clone(),
                ),
            ),
        ]
    );
}

#[test]
fn pitr_entities_round_trip_through_apply_key_write() {
    let mut meta = Metadata::default();
    let _ = mirrored(
        &mut meta,
        &MetaCommand::CreateTableSchema {
            table: "orders".to_string(),
            schema: schema("id"),
        },
    );
    let _ = mirrored(
        &mut meta,
        &MetaCommand::UpdateContinuousBackups {
            table: "orders".to_string(),
            enabled: true,
            wall_ms: 1_000,
        },
    );
    let _ = mirrored(&mut meta, &pitr_seal_cmd(TabletId(1), 0, 100));

    let mut rebuilt = Metadata::default();
    apply_key_write(
        &mut rebuilt,
        &EntityWrite::Put(
            Entity::Schema(
                "orders".to_owned(),
                meta.schemas.get(&"orders".to_owned()).unwrap().clone(),
            ),
        ),
    );
    apply_key_write(
        &mut rebuilt,
        &EntityWrite::Put(Entity::PitrGeneration("orders".to_owned(), 1)),
    );
    apply_key_write(
        &mut rebuilt,
        &EntityWrite::Put(
            Entity::PitrSegment(
                (TabletId(1), 0),
                meta.pitr_segments.get(&(TabletId(1), 0)).unwrap().clone(),
            ),
        ),
    );
    assert_eq!(rebuilt.pitr_generation.get(&"orders".to_owned()), Some(&1));
    assert_eq!(
        rebuilt.pitr_segments.get(&(TabletId(1), 0)),
        meta.pitr_segments.get(&(TabletId(1), 0))
    );

    apply_key_write(&mut rebuilt, &EntityWrite::Delete(EntityKey::PitrSegment((TabletId(1), 0))));
    assert!(!rebuilt.pitr_segments.contains_key(&(TabletId(1), 0)));
}

#[test]
fn begin_backup_writes_the_row() {
    let mut meta = Metadata::default();
    let _ = mirrored(
        &mut meta,
        &MetaCommand::CreateTableSchema {
            table: "orders".to_string(),
            schema: schema("id"),
        },
    );
    let _ = mirrored(
        &mut meta,
        &MetaCommand::CreateTablet {
            tablet: TabletId(1),
            table: Some("orders".to_string()),
            range: KeyRange::whole(),
            replicas: vec![nid(1)],
        },
    );
    let command = MetaCommand::BeginBackup {
        backup_id: "backup-1".to_string(),
        table: "orders".to_string(),
        created_wall_ms: 1000,
        backup_name: "backup".to_string(),
        pitr_base: false,
    };
    let (outcome, writes) = mirrored(&mut meta, &command);
    assert_eq!(outcome, ApplyOutcome::Applied);
    assert_eq!(
        writes,
        vec![
            EntityWrite::Put(
                Entity::Backup(
                    "backup-1".to_owned(),
                    meta.backups.get(&"backup-1".to_owned()).unwrap().clone(),
                ),
            ),
        ]
    );

    let (outcome, writes) = mirrored(&mut meta, &command);
    assert_eq!(outcome, ApplyOutcome::Rejected("backup id already exists"));
    assert!(writes.is_empty());
}

#[test]
fn record_backup_tablet_complete_writes_the_row() {
    let mut meta = Metadata::default();
    let _ = mirrored(
        &mut meta,
        &MetaCommand::CreateTableSchema {
            table: "orders".to_string(),
            schema: schema("id"),
        },
    );
    let _ = mirrored(
        &mut meta,
        &MetaCommand::CreateTablet {
            tablet: TabletId(1),
            table: Some("orders".to_string()),
            range: KeyRange::whole(),
            replicas: vec![nid(1)],
        },
    );
    let _ = mirrored(
        &mut meta,
        &MetaCommand::BeginBackup {
            backup_id: "backup-1".to_string(),
            table: "orders".to_string(),
            created_wall_ms: 1000,
            backup_name: "backup".to_string(),
            pitr_base: false,
        },
    );

    let command = MetaCommand::RecordBackupTabletComplete {
        backup_id: "backup-1".to_string(),
        tablet: TabletId(1),
        cut_version: 10,
        bytes: 100,
    };
    let (outcome, writes) = mirrored(&mut meta, &command);
    assert_eq!(outcome, ApplyOutcome::Applied);
    assert_eq!(
        writes,
        vec![
            EntityWrite::Put(
                Entity::BackupProgress(
                    ("backup-1".to_owned(), TabletId(1)),
                    meta.backup_tablet_progress
                        .get(&("backup-1".to_string(), TabletId(1)))
                        .unwrap()
                        .clone(),
                ),
            ),
        ]
    );

    let (outcome, writes) = mirrored(&mut meta, &command);
    assert_eq!(outcome, ApplyOutcome::NoOp);
    assert!(writes.is_empty());
}

#[test]
fn complete_and_fail_backup_write_the_updated_row() {
    let mut meta = Metadata::default();
    let _ = mirrored(
        &mut meta,
        &MetaCommand::CreateTableSchema {
            table: "orders".to_string(),
            schema: schema("id"),
        },
    );
    let _ = mirrored(
        &mut meta,
        &MetaCommand::CreateTablet {
            tablet: TabletId(1),
            table: Some("orders".to_string()),
            range: KeyRange::whole(),
            replicas: vec![nid(1)],
        },
    );
    let _ = mirrored(
        &mut meta,
        &MetaCommand::BeginBackup {
            backup_id: "backup-1".to_string(),
            table: "orders".to_string(),
            created_wall_ms: 1000,
            backup_name: "backup".to_string(),
            pitr_base: false,
        },
    );
    let _ = mirrored(
        &mut meta,
        &MetaCommand::RecordBackupTabletComplete {
            backup_id: "backup-1".to_string(),
            tablet: TabletId(1),
            cut_version: 10,
            bytes: 100,
        },
    );

    let (outcome, writes) = mirrored(
        &mut meta,
        &MetaCommand::CompleteBackup {
            backup_id: "backup-1".to_string(),
        },
    );
    assert_eq!(outcome, ApplyOutcome::Applied);
    assert_eq!(
        writes,
        vec![
            EntityWrite::Put(
                Entity::Backup(
                    "backup-1".to_owned(),
                    meta.backups.get(&"backup-1".to_owned()).unwrap().clone(),
                ),
            ),
        ]
    );

    let mut failed_meta = Metadata::default();
    let _ = mirrored(
        &mut failed_meta,
        &MetaCommand::CreateTableSchema {
            table: "orders".to_string(),
            schema: schema("id"),
        },
    );
    let _ = mirrored(
        &mut failed_meta,
        &MetaCommand::CreateTablet {
            tablet: TabletId(1),
            table: Some("orders".to_string()),
            range: KeyRange::whole(),
            replicas: vec![nid(1)],
        },
    );
    let _ = mirrored(
        &mut failed_meta,
        &MetaCommand::BeginBackup {
            backup_id: "backup-1".to_string(),
            table: "orders".to_string(),
            created_wall_ms: 1000,
            backup_name: "backup".to_string(),
            pitr_base: false,
        },
    );
    let (outcome, writes) = mirrored(
        &mut failed_meta,
        &MetaCommand::FailBackup {
            backup_id: "backup-1".to_string(),
            reason: "timeout".to_string(),
        },
    );
    assert_eq!(outcome, ApplyOutcome::Applied);
    assert_eq!(
        writes,
        vec![
            EntityWrite::Put(
                Entity::Backup(
                    "backup-1".to_owned(),
                    failed_meta.backups.get(&"backup-1".to_owned()).unwrap().clone(),
                ),
            ),
        ]
    );
}

#[test]
fn delete_backup_deletes_the_row_and_its_progress_records() {
    let mut meta = Metadata::default();
    let _ = mirrored(
        &mut meta,
        &MetaCommand::CreateTableSchema {
            table: "orders".to_string(),
            schema: schema("id"),
        },
    );
    let _ = mirrored(
        &mut meta,
        &MetaCommand::CreateTablet {
            tablet: TabletId(1),
            table: Some("orders".to_string()),
            range: KeyRange::whole(),
            replicas: vec![nid(1)],
        },
    );
    let _ = mirrored(
        &mut meta,
        &MetaCommand::BeginBackup {
            backup_id: "backup-1".to_string(),
            table: "orders".to_string(),
            created_wall_ms: 1000,
            backup_name: "backup".to_string(),
            pitr_base: false,
        },
    );
    let _ = mirrored(
        &mut meta,
        &MetaCommand::RecordBackupTabletComplete {
            backup_id: "backup-1".to_string(),
            tablet: TabletId(1),
            cut_version: 10,
            bytes: 100,
        },
    );

    let (outcome, writes) = mirrored(
        &mut meta,
        &MetaCommand::DeleteBackup {
            backup_id: "backup-1".to_string(),
        },
    );
    assert_eq!(outcome, ApplyOutcome::Applied);
    assert_eq!(
        writes,
        vec![
            EntityWrite::Delete(EntityKey::Backup("backup-1".to_owned())),
            EntityWrite::Delete(EntityKey::BackupProgress(("backup-1".to_owned(), TabletId(1)))),
        ]
    );

    let (outcome, writes) = mirrored(
        &mut meta,
        &MetaCommand::DeleteBackup {
            backup_id: "backup-1".to_string(),
        },
    );
    assert_eq!(outcome, ApplyOutcome::NoOp);
    assert!(writes.is_empty());
}

#[test]
fn mark_backup_deleted_writes_the_updated_row() {
    let mut meta = Metadata::default();
    let _ = mirrored(
        &mut meta,
        &MetaCommand::CreateTableSchema {
            table: "orders".to_string(),
            schema: schema("id"),
        },
    );
    let _ = mirrored(
        &mut meta,
        &MetaCommand::CreateTablet {
            tablet: TabletId(1),
            table: Some("orders".to_string()),
            range: KeyRange::whole(),
            replicas: vec![nid(1)],
        },
    );
    let _ = mirrored(
        &mut meta,
        &MetaCommand::BeginBackup {
            backup_id: "backup-1".to_string(),
            table: "orders".to_string(),
            created_wall_ms: 1000,
            backup_name: "backup".to_string(),
            pitr_base: false,
        },
    );
    let _ = mirrored(
        &mut meta,
        &MetaCommand::RecordBackupTabletComplete {
            backup_id: "backup-1".to_string(),
            tablet: TabletId(1),
            cut_version: 10,
            bytes: 100,
        },
    );
    let _ = mirrored(
        &mut meta,
        &MetaCommand::CompleteBackup {
            backup_id: "backup-1".to_string(),
        },
    );

    let (outcome, writes) = mirrored(
        &mut meta,
        &MetaCommand::MarkBackupDeleted {
            backup_id: "backup-1".to_string(),
        },
    );
    assert_eq!(outcome, ApplyOutcome::Applied);
    assert_eq!(
        writes,
        vec![
            EntityWrite::Put(
                Entity::Backup(
                    "backup-1".to_owned(),
                    meta.backups.get(&"backup-1".to_owned()).unwrap().clone(),
                ),
            ),
        ]
    );
    assert!(meta.backup("backup-1").is_some(), "the row itself survives");

    let (outcome, writes) = mirrored(
        &mut meta,
        &MetaCommand::MarkBackupDeleted {
            backup_id: "backup-1".to_string(),
        },
    );
    assert_eq!(outcome, ApplyOutcome::NoOp);
    assert!(writes.is_empty());
}

#[test]
fn begin_restore_writes_the_tablet_and_row() {
    let mut meta = Metadata::default();
    let _ = mirrored(
        &mut meta,
        &MetaCommand::CreateTableSchema {
            table: "restored".to_string(),
            schema: schema("id"),
        },
    );
    let command = MetaCommand::BeginRestore {
        restore_id: "restore-1".to_string(),
        backup_id: "backup-1".to_string(),
        source_table: "orders".to_string(),
        target_table: "restored".to_string(),
        tablet: TabletId(1),
        replicas: vec![nid(1)],
        gsi_defs: Vec::new(),
        pitr: None,
    };
    let (outcome, writes) = mirrored(&mut meta, &command);
    assert_eq!(outcome, ApplyOutcome::Applied);
    assert_eq!(
        writes,
        vec![
            EntityWrite::Put(
                Entity::Tablet(TabletId(1), meta.tablets.get(&TabletId(1)).unwrap().clone()),
            ),
            EntityWrite::Put(Entity::NextTabletId(meta.next_tablet_id)),
            EntityWrite::Put(
                Entity::Restore(
                    "restore-1".to_owned(),
                    meta.restores.get(&"restore-1".to_owned()).unwrap().clone(),
                ),
            ),
        ]
    );

    let (outcome, writes) = mirrored(&mut meta, &command);
    assert_eq!(outcome, ApplyOutcome::Rejected("restore id already exists"));
    assert!(writes.is_empty());
}

#[test]
fn complete_and_fail_restore_write_the_expected_rows() {
    let mut meta = Metadata::default();
    let _ = mirrored(
        &mut meta,
        &MetaCommand::CreateTableSchema {
            table: "restored".to_string(),
            schema: schema("id"),
        },
    );
    let _ = mirrored(
        &mut meta,
        &MetaCommand::BeginRestore {
            restore_id: "restore-1".to_string(),
            backup_id: "backup-1".to_string(),
            source_table: "orders".to_string(),
            target_table: "restored".to_string(),
            tablet: TabletId(1),
            replicas: vec![nid(1)],
            gsi_defs: Vec::new(),
            pitr: None,
        },
    );

    let (outcome, writes) = mirrored(
        &mut meta,
        &MetaCommand::CompleteRestore {
            restore_id: "restore-1".to_string(),
        },
    );
    assert_eq!(outcome, ApplyOutcome::Applied);
    assert_eq!(
        writes,
        vec![
            EntityWrite::Put(
                Entity::Tablet(TabletId(1), meta.tablets.get(&TabletId(1)).unwrap().clone()),
            ),
            EntityWrite::Put(
                Entity::Restore(
                    "restore-1".to_owned(),
                    meta.restores.get(&"restore-1".to_owned()).unwrap().clone(),
                ),
            ),
        ]
    );

    let _ = mirrored(
        &mut meta,
        &MetaCommand::CreateTableSchema {
            table: "restored2".to_string(),
            schema: schema("id"),
        },
    );
    let _ = mirrored(
        &mut meta,
        &MetaCommand::BeginRestore {
            restore_id: "restore-2".to_string(),
            backup_id: "backup-2".to_string(),
            source_table: "orders".to_string(),
            target_table: "restored2".to_string(),
            tablet: TabletId(2),
            replicas: vec![nid(1)],
            gsi_defs: Vec::new(),
            pitr: None,
        },
    );
    let (outcome, writes) = mirrored(
        &mut meta,
        &MetaCommand::FailRestore {
            restore_id: "restore-2".to_string(),
            reason: "stuck".to_string(),
        },
    );
    assert_eq!(outcome, ApplyOutcome::Applied);
    assert_eq!(
        writes,
        vec![
            EntityWrite::Put(
                Entity::Restore(
                    "restore-2".to_owned(),
                    meta.restores.get(&"restore-2".to_owned()).unwrap().clone(),
                ),
            ),
        ]
    );
}

#[test]
fn incremental_delta_apply_matches_direct_apply_for_restores() {
    let mut base = Metadata::default();
    base.run(&MetaCommand::CreateTableSchema {
        table: "restored".to_string(),
        schema: schema("id"),
    });
    base.run(&MetaCommand::BeginRestore {
        restore_id: "restore-1".to_string(),
        backup_id: "backup-1".to_string(),
        source_table: "orders".to_string(),
        target_table: "restored".to_string(),
        tablet: TabletId(1),
        replicas: vec![nid(1)],
        gsi_defs: Vec::new(),
        pitr: None,
    });
    base.run(&MetaCommand::CompleteRestore {
        restore_id: "restore-1".to_string(),
    });

    let mut via_engine = Metadata::default();
    apply_key_write(
        &mut via_engine,
        &EntityWrite::Put(Entity::Schema("restored".to_owned(), schema("id").clone())),
    );
    apply_key_write(
        &mut via_engine,
        &EntityWrite::Put(
            Entity::Tablet(TabletId(1), base.tablets.get(&TabletId(1)).unwrap().clone()),
        ),
    );
    apply_key_write(
        &mut via_engine,
        &EntityWrite::Put(
            Entity::Restore(
                "restore-1".to_owned(),
                base.restores.get(&"restore-1".to_owned()).unwrap().clone(),
            ),
        ),
    );
    assert_eq!(via_engine.restores, base.restores);
    assert_eq!(via_engine.tablets, base.tablets);
}

#[test]
fn incremental_delta_apply_matches_direct_apply_for_deleted_backups() {
    let mut base = Metadata::default();
    base.run(&MetaCommand::CreateTableSchema {
        table: "orders".to_string(),
        schema: schema("id"),
    });
    base.run(&MetaCommand::CreateTablet {
        tablet: TabletId(1),
        table: Some("orders".to_string()),
        range: KeyRange::whole(),
        replicas: vec![nid(1)],
    });
    base.run(&MetaCommand::BeginBackup {
        backup_id: "backup-1".to_string(),
        table: "orders".to_string(),
        created_wall_ms: 1000,
        backup_name: "backup".to_string(),
        pitr_base: false,
    });
    base.run(&MetaCommand::RecordBackupTabletComplete {
        backup_id: "backup-1".to_string(),
        tablet: TabletId(1),
        cut_version: 10,
        bytes: 100,
    });

    let command = MetaCommand::DeleteBackup {
        backup_id: "backup-1".to_string(),
    };

    let mut shadow = base.clone();
    let (outcome, writes) = mirrored(&mut shadow, &command);
    assert_eq!(outcome, ApplyOutcome::Applied);
    assert_eq!(writes.len(), 2, "the row and its one progress record");

    let mut direct = base.clone();
    direct.run(&command);

    let mut mirror_side = base.clone();
    for w in &writes {
        apply_key_write(&mut mirror_side, w);
    }

    assert_eq!(shadow, direct);
    assert_eq!(mirror_side, direct);
    assert!(direct.backups.is_empty());
    assert!(direct.backup_tablet_progress.is_empty());
}

#[test]
fn rebuild_from_engine_matches_direct_apply() {
    let mut keyspace: Vec<(EntityKey, Entity)> = Vec::new();
    let mut shadow = Metadata::default();
    let mut direct = Metadata::default();
    let commands = [
        MetaCommand::UpsertMember {
            node: nid(1),
            labels: SortedMap::new(),
            status: NodeStatus::Active,
        },
        MetaCommand::CreateTablet {
            tablet: TabletId(1),
            table: Some("t".to_string()),
            range: KeyRange::whole(),
            replicas: vec![nid(1)],
        },
        MetaCommand::SetTabletPolicy {
            tablet: TabletId(1),
            policy: Some(PlacementPolicy::simple("p", 1)),
        },
        MetaCommand::CreateTableSchema {
            table: "orders".to_string(),
            schema: schema("id"),
        },
        MetaCommand::CreateTableSchema {
            table: "t".to_string(),
            schema: schema("id"),
        },
        MetaCommand::BeginBackup {
            backup_id: "backup-1".to_string(),
            table: "t".to_string(),
            created_wall_ms: 1_000,
            backup_name: "backup".to_string(),
            pitr_base: false,
        },
        MetaCommand::RecordBackupTabletComplete {
            backup_id: "backup-1".to_string(),
            tablet: TabletId(1),
            cut_version: 10,
            bytes: 100,
        },
        MetaCommand::RegisterNode {
            node: nid(2),
            addrs: NodeAddrs {
                internal: "127.0.0.1:9902".to_string(),
                client: "127.0.0.1:9002".to_string(),
                admin: "127.0.0.1:9502".to_string(),
                intra: "127.0.0.1:9602".to_string(),
                role: "combined".to_string(),
            },
            labels: SortedMap::new(),
        },
        MetaCommand::SetTableStream {
            table: "orders".to_string(),
            spec: Some(stream_spec("L1")),
        },
        seal_cmd(TabletId(1), 0, 100),
        MetaCommand::ExpireStreamShards {
            rows: vec![(TabletId(1), 0)],
            remove: false,
        },
        MetaCommand::BeginSplitInPlace {
            parent: TabletId(1),
            expected_epoch: Epoch::initial(),
            split_key: vec![5],
            children: [(TabletId(3), vec![nid(1)]), (TabletId(4), vec![nid(1)])],
        },
        MetaCommand::CutoverSplit {
            parent: TabletId(1),
            expected_epoch: Epoch::initial().next(),
            cutover_wall_ms: 1_000,
        },
    ];
    for command in commands.iter() {
        let (_, writes) = mirrored(&mut shadow, command);
        for w in writes {
            match w {
                EntityWrite::Put(e) => {
                    let k = key_of(&e);
                    keyspace.retain(|(x, _)| *x != k);
                    keyspace.push((k, e));
                }
                EntityWrite::Delete(k) => keyspace.retain(|(x, _)| *x != k),
            }
        }
        direct.run(command);
    }

    let entities: Vec<Entity> = keyspace.into_iter().map(|(_, e)| e).collect();
    let rebuilt = rebuild_metadata(&entities);
    assert_eq!(rebuilt, direct);
    assert_eq!(rebuilt, shadow);
}

#[test]
fn incremental_delta_apply_matches_direct_apply_for_deletes() {
    let mut base = Metadata::default();
    base.run(&MetaCommand::CreateTablet {
        tablet: TabletId(1),
        table: Some("t".to_string()),
        range: KeyRange::whole().split_at(&vec![5]).unwrap().0,
        replicas: vec![nid(1)],
    });
    let right_range = KeyRange::whole().split_at(&vec![5]).unwrap().1;
    base.tablets.insert(
        TabletId(2),
        Tablet::with_table(
            TabletId(2),
            Some("t".to_string()),
            right_range,
            vec![nid(1)],
        ),
    );
    base.cp_member_addrs.insert(nid(99), "addr:1".to_string());
    base.cp_member_tablets.insert(nid(99), TabletId(2));

    let command = MetaCommand::DropTableTablets {
        table: "t".to_string(),
    };

    let mut shadow = base.clone();
    let (outcome, writes) = mirrored(&mut shadow, &command);
    assert_eq!(outcome, ApplyOutcome::Applied);
    assert!(
        writes.iter().any(|w| matches!(w, EntityWrite::Delete(_))),
        "expected DropTableTablets to derive at least one delete"
    );

    let mut direct = base.clone();
    direct.run(&command);

    let mut mirror_side = base.clone();
    for w in &writes {
        apply_key_write(&mut mirror_side, w);
    }

    assert_eq!(
        shadow, direct,
        "the apply task's own shadow matches direct apply"
    );
    assert_eq!(
        mirror_side, direct,
        "a delta-consumer's incremental apply matches direct apply"
    );
}
