//! What holds along whole histories.
use animus_control::syskv::is_reserved_name;
use animus_control::{
    apply_and_derive_mirror, apply_key_write, rebuild_metadata, Advice, ApplyOutcome, BackupStatus,
    ColumnType, CpMemberAddrEntry, DeltaRing, Entity, EntityKey, EntityWrite, Epoch,
    FailureDetector, IndexDef, IndexKind, IndexProjection, IndexStatus, KeyRange, KeyWrite,
    MetaCommand, Metadata, Nanos, NodeAddrs, NodeId, NodeStatus, PlacementPolicy,
    ProvisionedThroughput, RestoreStatus, SortedMap, SortedSet, SplitPlacing, StreamSpec,
    StreamViewType, TableSchema, TabletId, TabletState, TtlSpec,
};

const KEY: [u8; 8] = [0x80, 0, 0, 0, 0, 0, 0, 0];

fn nid(n: u64) -> NodeId {
    NodeId(format!("n{n}"))
}

fn nodes(ids: &[u64]) -> Vec<NodeId> {
    ids.iter().map(|n| nid(*n)).collect()
}

fn addrs(n: u64, role: &str) -> NodeAddrs {
    NodeAddrs {
        internal: format!("10.0.0.{n}:1"),
        client: format!("10.0.0.{n}:2"),
        intra: format!("10.0.0.{n}:3"),
        admin: format!("10.0.0.{n}:4"),
        role: role.to_owned(),
    }
}

fn register(n: u64, role: &str) -> MetaCommand {
    MetaCommand::RegisterNode {
        node: nid(n),
        addrs: addrs(n, role),
        labels: SortedMap::new(),
    }
}

fn member(n: u64, status: NodeStatus) -> MetaCommand {
    MetaCommand::UpsertMember {
        node: nid(n),
        labels: SortedMap::new(),
        status,
    }
}

fn orders() -> String {
    "orders".to_owned()
}

fn shard(tablet: u64, epoch: u64, replicas: &[u64], object: &str) -> MetaCommand {
    MetaCommand::SealStreamShard {
        table: orders(),
        label: "L1".to_owned(),
        tablet: TabletId(tablet),
        epoch,
        view_type: StreamViewType::NewImage,
        hlc_range: (epoch * 10, epoch * 10 + 10),
        count: 3,
        seal_wall_ms: 100 + epoch,
        replicas: nodes(replicas),
        object_id: object.to_owned(),
    }
}

fn segment(tablet: u64, epoch: u64) -> MetaCommand {
    MetaCommand::SealPitrSegment {
        table: orders(),
        generation: 1,
        tablet: TabletId(tablet),
        epoch,
        hlc_range: (epoch * 10, epoch * 10 + 10),
        count: 3,
        seal_wall_ms: 100 + epoch,
        replicas: nodes(&[1]),
        object_id: format!("pitr/{tablet}/{epoch}"),
    }
}

fn restore(id: &str, tablet: u64) -> MetaCommand {
    MetaCommand::BeginRestore {
        restore_id: id.to_owned(),
        backup_id: "b1".to_owned(),
        source_table: orders(),
        target_table: id.to_owned(),
        tablet: TabletId(tablet),
        replicas: nodes(&[1]),
        gsi_defs: Vec::new(),
        pitr: None,
    }
}

fn begin_split(parent: u64, epoch: u64, key: &[u8], left: u64, right: u64) -> MetaCommand {
    MetaCommand::BeginSplitInPlace {
        parent: TabletId(parent),
        expected_epoch: Epoch(epoch),
        split_key: key.to_vec(),
        children: [
            (TabletId(left), nodes(&[1, 2])),
            (TabletId(right), nodes(&[2, 3])),
        ],
    }
}

fn cutover(parent: u64, epoch: u64) -> MetaCommand {
    MetaCommand::CutoverSplit {
        parent: TabletId(parent),
        expected_epoch: Epoch(epoch),
        cutover_wall_ms: 500,
    }
}

fn cas(tablet: u64, epoch: u64, replicas: &[u64]) -> MetaCommand {
    MetaCommand::CasTabletReplicas {
        tablet: TabletId(tablet),
        expected_epoch: Epoch(epoch),
        replicas: nodes(replicas),
    }
}

fn create(tablet: u64, table: &str) -> MetaCommand {
    MetaCommand::CreateTablet {
        tablet: TabletId(tablet),
        table: Some(table.to_owned()),
        range: KeyRange::whole(),
        replicas: nodes(&[1, 2, 3]),
    }
}

fn schema(table: &str) -> MetaCommand {
    MetaCommand::CreateTableSchema {
        table: table.to_owned(),
        schema: TableSchema::simple("pk", ColumnType::String),
    }
}

fn recovery(enabled: bool) -> MetaCommand {
    MetaCommand::UpdateContinuousBackups {
        table: orders(),
        enabled,
        wall_ms: 9,
    }
}

fn backup(id: &str, pitr_base: bool) -> MetaCommand {
    MetaCommand::BeginBackup {
        backup_id: id.to_owned(),
        table: orders(),
        created_wall_ms: 7,
        backup_name: "nightly".to_owned(),
        pitr_base,
    }
}

fn captured(id: &str, tablet: u64, bytes: u64) -> MetaCommand {
    MetaCommand::RecordBackupTabletComplete {
        backup_id: id.to_owned(),
        tablet: TabletId(tablet),
        cut_version: 1,
        bytes,
    }
}

fn complete(id: &str) -> MetaCommand {
    MetaCommand::CompleteBackup {
        backup_id: id.to_owned(),
    }
}

/// A planner that wants split children on the third and fourth node.
fn advice() -> Advice {
    Advice {
        schema_valid: true,
        selection: Some(nodes(&[3, 4])),
    }
}

fn run(m: &mut Metadata, c: &MetaCommand) -> ApplyOutcome {
    assert!(m.admits(c));
    m.apply(c, &advice())
}

fn applied(m: &mut Metadata, c: &MetaCommand) {
    assert_eq!(run(m, c), ApplyOutcome::Applied, "{c:?}");
}

fn rejected(m: &mut Metadata, c: &MetaCommand) -> bool {
    matches!(run(m, c), ApplyOutcome::Rejected(_))
}

/// A history that every kind of command is part of; each of its commands is applied.
fn history() -> Vec<MetaCommand> {
    let mut tags = SortedMap::new();
    tags.insert("env".to_owned(), "prod".to_owned());
    tags.insert("team".to_owned(), "a".to_owned());
    vec![
        register(1, "combined"),
        register(2, "data"),
        register(4, "data"),
        register(9, "control"),
        member(1, NodeStatus::Active),
        member(2, NodeStatus::Active),
        member(3, NodeStatus::Joining),
        MetaCommand::RegisterNodeAddrs {
            node: nid(3),
            addrs: addrs(3, "data"),
        },
        schema("orders"),
        create(1, "orders"),
        MetaCommand::SetTabletPolicy {
            tablet: TabletId(1),
            policy: Some(PlacementPolicy::simple("orders", 2)),
        },
        MetaCommand::SetTableStream {
            table: orders(),
            spec: Some(StreamSpec {
                view_type: StreamViewType::NewImage,
                label: "L1".to_owned(),
            }),
        },
        MetaCommand::SetTableTtl {
            table: orders(),
            spec: Some(TtlSpec {
                attribute_name: "expires".to_owned(),
            }),
        },
        MetaCommand::SetTableThroughput {
            table: orders(),
            spec: Some(ProvisionedThroughput {
                read_units: 5,
                write_units: 6,
            }),
        },
        MetaCommand::TagResource {
            table: orders(),
            tags,
        },
        MetaCommand::UntagResource {
            table: orders(),
            tag_keys: vec!["team".to_owned(), "absent".to_owned()],
        },
        recovery(true),
        MetaCommand::CreateTableIndex {
            table: orders(),
            index: IndexDef {
                name: "by_x".to_owned(),
                kind: IndexKind::Global,
                hash_attribute: "x".to_owned(),
                sort_attribute: None,
                projection: IndexProjection::KeysOnly,
                status: IndexStatus::Creating,
                hash_attribute_type: None,
                sort_attribute_type: None,
            },
        },
        MetaCommand::MarkIndexBackfilled {
            table: orders(),
            index: "by_x".to_owned(),
            tablet: TabletId(1),
        },
        MetaCommand::SetIndexStatus {
            table: orders(),
            index: "by_x".to_owned(),
            status: IndexStatus::Active,
        },
        MetaCommand::RegisterCpAddr {
            id: nid(7),
            addr: "10.0.0.7:1".to_owned(),
            tablet: Some(TabletId(1)),
        },
        MetaCommand::RegisterCpAddr {
            id: nid(8),
            addr: "10.0.0.8:1".to_owned(),
            tablet: None,
        },
        shard(1, 0, &[1, 2], "o0"),
        shard(1, 1, &[1, 2], "o1"),
        shard(1, 1, &[2, 3], "o1"),
        segment(1, 0),
        segment(1, 1),
        backup("b1", true),
        backup("b2", false),
        captured("b1", 1, 100),
        complete("b1"),
        cas(1, 0, &[3, 2, 1, 1]),
        begin_split(1, 1, &KEY, 2, 3),
        cutover(1, 2),
        captured("b2", 2, 40),
        captured("b2", 3, 60),
        complete("b2"),
        MetaCommand::RetargetSplitPlacing {
            tablet: TabletId(2),
            expected_epoch: Epoch(1),
            target: Some(nodes(&[1, 4])),
        },
        MetaCommand::MarkSplitPlacingDone {
            tablet: TabletId(2),
            expected_epoch: Epoch(1),
        },
        restore("r1", 4),
        MetaCommand::CompleteRestore {
            restore_id: "r1".to_owned(),
        },
        restore("r2", 5),
        MetaCommand::FailRestore {
            restore_id: "r2".to_owned(),
            reason: "lost".to_owned(),
        },
        MetaCommand::FailRestore {
            restore_id: "r2".to_owned(),
            reason: "lost for good".to_owned(),
        },
        MetaCommand::ExpireStreamShards {
            rows: vec![(TabletId(1), 0), (TabletId(1), 1), (TabletId(1), 9)],
            remove: false,
        },
        MetaCommand::ExpireStreamShards {
            rows: vec![(TabletId(1), 0), (TabletId(1), 9)],
            remove: true,
        },
        MetaCommand::ExpirePitrSegments {
            rows: vec![(TabletId(1), 0)],
            remove: false,
        },
        MetaCommand::ExpirePitrSegments {
            rows: vec![(TabletId(1), 0)],
            remove: true,
        },
        backup("b3", true),
        MetaCommand::FailBackup {
            backup_id: "b3".to_owned(),
            reason: "timeout".to_owned(),
        },
        MetaCommand::MarkBackupDeleted {
            backup_id: "b3".to_owned(),
        },
        MetaCommand::DeleteBackup {
            backup_id: "b3".to_owned(),
        },
        MetaCommand::DeleteBackup {
            backup_id: "b2".to_owned(),
        },
        MetaCommand::DropTableIndex {
            table: orders(),
            index: "by_x".to_owned(),
        },
        MetaCommand::ReplaceTableSchema {
            table: orders(),
            schema: TableSchema::simple("id", ColumnType::String),
        },
        member(3, NodeStatus::Leaving),
        MetaCommand::RemoveMember { node: nid(4) },
        MetaCommand::RemoveMember { node: nid(9) },
        MetaCommand::DropTableTablets { table: orders() },
        MetaCommand::DropTableSchema { table: orders() },
        MetaCommand::RemoveMember { node: nid(3) },
    ]
}

/// The states before and after each command of the history.
fn states() -> Vec<(Metadata, MetaCommand, Metadata)> {
    let mut m = Metadata::default();
    let mut out = Vec::new();
    for c in history() {
        let before = m.clone();
        applied(&mut m, &c);
        out.push((before, c, m.clone()));
    }
    out
}

/// What changes leave of a keyspace.
fn write_all(space: &mut Vec<Entity>, writes: &[EntityWrite]) {
    for w in writes {
        match w {
            EntityWrite::Put(e) => {
                space.retain(|x| x.key() != e.key());
                space.push(e.clone());
            }
            EntityWrite::Delete(k) => space.retain(|x| x.key() != *k),
        }
    }
}

fn names_repeatable(c: &MetaCommand) -> bool {
    !matches!(
        c,
        MetaCommand::UpsertMember { .. }
            | MetaCommand::CreateTablet { .. }
            | MetaCommand::CasTabletReplicas { .. }
            | MetaCommand::BeginSplitInPlace { .. }
            | MetaCommand::CutoverSplit { .. }
            | MetaCommand::SetTabletPolicy { .. }
            | MetaCommand::CreateTableSchema { .. }
            | MetaCommand::CreateTableIndex { .. }
            | MetaCommand::SetTableStream { .. }
            | MetaCommand::BeginBackup { .. }
            | MetaCommand::CompleteBackup { .. }
            | MetaCommand::BeginRestore { .. }
            | MetaCommand::CompleteRestore { .. }
    )
}

#[test]
fn the_mirror_of_a_history_rebuilds_its_state() {
    let mut leader = Metadata::default();
    let mut follower = Metadata::default();
    let mut space: Vec<Entity> = Vec::new();
    for c in history() {
        assert!(leader.admits(&c) && leader.admits_mirror(&c));
        let (outcome, writes) = apply_and_derive_mirror(&mut leader, &c, &advice());
        assert_eq!(outcome, ApplyOutcome::Applied);
        assert!(!writes.is_empty());
        for w in &writes {
            apply_key_write(&mut follower, w);
        }
        assert_eq!(follower, leader, "{c:?}");
        write_all(&mut space, &writes);
        assert_eq!(rebuild_metadata(&space), leader, "{c:?}");
        space.reverse();
        assert_eq!(rebuild_metadata(&space), leader, "{c:?}");
    }
}

#[test]
fn what_changes_nothing_mirrors_nothing() {
    for (_, c, after) in states() {
        let mut m = after.clone();
        assert!(m.admits(&c));
        let (outcome, writes) = apply_and_derive_mirror(&mut m, &c, &advice());
        if outcome != ApplyOutcome::Applied {
            assert!(writes.is_empty());
            assert_eq!(m, after);
        }
    }
}

#[test]
fn an_address_that_gives_its_tablet_up_is_replayed_exactly() {
    let mut leader = Metadata::default();
    let mut follower = Metadata::default();
    let serve = |tablet| MetaCommand::RegisterCpAddr {
        id: nid(7),
        addr: "a".to_owned(),
        tablet,
    };
    let mut space: Vec<Entity> = Vec::new();
    for c in [create(1, "orders"), serve(Some(TabletId(1))), serve(None)] {
        let (_, writes) = apply_and_derive_mirror(&mut leader, &c, &advice());
        for w in &writes {
            apply_key_write(&mut follower, w);
        }
        assert_eq!(follower, leader, "{c:?}");
        write_all(&mut space, &writes);
    }
    assert!(leader.cp_member_tablets.is_empty());
    assert_eq!(leader.cp_member_addrs.get(&nid(7)), Some(&"a".to_owned()));
    assert_eq!(rebuild_metadata(&space), leader);
}

#[test]
fn an_address_record_without_a_tablet_clears_the_tablet() {
    let mut m = Metadata::default();
    m.cp_member_addrs.insert(nid(7), "a".to_owned());
    m.cp_member_tablets.insert(nid(7), TabletId(1));
    let entry = CpMemberAddrEntry {
        addr: "b".to_owned(),
        tablet: None,
    };
    apply_key_write(&mut m, &EntityWrite::Put(Entity::CpMemberAddr(nid(7), entry)));
    assert_eq!(m.cp_member_addrs.get(&nid(7)), Some(&"b".to_owned()));
    assert!(m.cp_member_tablets.is_empty());
}

#[test]
fn a_repeated_cutover_can_be_mirrored() {
    let mut m = Metadata::default();
    applied(&mut m, &create(1, "orders"));
    applied(&mut m, &begin_split(1, 0, &[4], 2, 3));
    applied(&mut m, &cutover(1, 1));
    let c = cutover(1, 1);
    assert!(m.admits(&c) && m.admits_mirror(&c));
    let (outcome, writes) = apply_and_derive_mirror(&mut m, &c, &advice());
    assert_ne!(outcome, ApplyOutcome::Applied);
    assert!(writes.is_empty());
}

#[test]
fn a_deleted_counter_stays() {
    let mut m = Metadata::default();
    applied(&mut m, &create(1, "orders"));
    apply_key_write(&mut m, &EntityWrite::Delete(EntityKey::NextTabletId));
    assert_eq!(m.next_tablet_id, 2);
}

#[test]
fn only_applied_commands_change_the_state_and_repetitions_change_nothing() {
    for (before, c, after) in states() {
        assert_ne!(before, after, "{c:?}");
        let mut again = after.clone();
        let outcome = run(&mut again, &c);
        if outcome != ApplyOutcome::Applied {
            assert_eq!(again, after, "{c:?}");
        }
        if names_repeatable(&c) {
            assert_eq!(outcome, ApplyOutcome::NoOp, "{c:?}");
        }
    }
}

#[test]
fn ids_are_never_used_twice_along_a_history() {
    let mut seen: Vec<TabletId> = Vec::new();
    for (before, _, after) in states() {
        assert!(before.next_tablet_id <= after.next_tablet_id);
        for (t, _) in after.tablets.rows() {
            assert!(t.0 < after.next_tablet_id);
            if !before.tablets.contains_key(t) {
                assert!(!seen.contains(t));
                seen.push(*t);
            }
        }
        for (child, line) in after.split_lineage.rows() {
            assert!(line.parent.0 < child.0);
            assert!(!after.tablets.contains_key(&line.parent));
        }
        assert!(after.lineage_rises());
        assert!(after.next_free_tablet_id().0 >= after.next_tablet_id);
    }
    assert_eq!(seen, [1, 2, 3, 4, 5].map(TabletId));
}

#[test]
fn a_dropped_id_is_never_accepted_again() {
    let mut m = Metadata::default();
    applied(&mut m, &create(1, "orders"));
    applied(&mut m, &MetaCommand::DropTableTablets { table: orders() });
    let below = ApplyOutcome::Rejected("tablet id below the monotonic allocator");
    assert_eq!(run(&mut m, &restore("r1", 1)), below);
    assert_eq!(run(&mut m, &create(1, "orders")), below);
    assert_eq!(run(&mut m, &create(0, "users")), below);
    assert!(m.tablets.is_empty());
    assert_eq!(m.next_free_tablet_id(), TabletId(2));
    applied(&mut m, &create(2, "orders"));
    assert_eq!(m.next_free_tablet_id(), TabletId(3));
}

#[test]
fn an_id_that_exists_is_refused_as_such() {
    let mut m = Metadata::default();
    applied(&mut m, &create(1, "orders"));
    assert_eq!(
        run(&mut m, &create(1, "users")),
        ApplyOutcome::Rejected("tablet already exists")
    );
}

#[test]
fn the_next_free_id_is_fresh_and_never_falls() {
    for (before, c, after) in states() {
        let next = after.next_free_tablet_id();
        assert!(before.next_free_tablet_id() <= next, "{c:?}");
        for (t, tablet) in after.tablets.rows() {
            assert!(*t < next, "{c:?}");
            if let Some(intent) = &tablet.inplace_split {
                assert!(intent.children.iter().all(|child| child.id < next), "{c:?}");
            }
        }
    }
}

#[test]
fn a_tablet_changes_only_under_a_higher_epoch_along_a_history() {
    for (before, c, after) in states() {
        for (t, old) in before.tablets.rows() {
            if let Some(new) = after.tablets.get(t) {
                assert!(new == old || old.epoch.0 < new.epoch.0, "{c:?}");
            }
        }
    }
}

#[test]
fn catalogs_stay_in_step_along_a_history() {
    for (_, c, m) in states() {
        let gone = |t: &TabletId| {
            !m.tablets.contains_key(t)
                && !m.split_lineage.rows().iter().any(|(_, l)| l.parent == *t)
        };
        assert!(m.policies.rows().iter().all(|(t, _)| m.tablets.contains_key(t)));
        assert!(!m.index_backfill.rows().iter().any(|(k, _)| gone(&k.0)));
        assert!(!m.split_placing.rows().iter().any(|(t, _)| gone(t)));
        assert!(!m.cp_member_tablets.rows().iter().any(|(_, t)| gone(t)));
        for (k, _) in m.backup_tablet_progress.rows() {
            assert!(m.backups.contains_key(&k.0), "{c:?}");
        }
        for i in 0..m.pitr_base_backups.len() {
            assert!(m.backups.contains_key(m.pitr_base_backups.at(i)));
        }
        for (n, member) in m.members.rows() {
            assert!(member.status != NodeStatus::Active || member.has_activated, "{n:?}");
        }
        for (table, _) in m.schemas.rows() {
            assert!(!is_reserved_name(table) && !table.contains('$'));
        }
    }
}

#[test]
fn a_stale_command_is_refused() {
    let mut m = Metadata::default();
    applied(&mut m, &create(1, "orders"));
    for stale in [
        cas(1, 1, &[1]),
        cas(2, 0, &[1]),
        begin_split(1, 7, &KEY, 2, 3),
        cutover(1, 7),
        MetaCommand::MarkSplitPlacingDone {
            tablet: TabletId(1),
            expected_epoch: Epoch(7),
        },
        MetaCommand::RetargetSplitPlacing {
            tablet: TabletId(1),
            expected_epoch: Epoch(7),
            target: None,
        },
    ] {
        assert!(rejected(&mut m, &stale), "{stale:?}");
    }
    applied(&mut m, &cas(1, 0, &[4, 3]));
    assert_eq!(
        run(&mut m, &cas(1, 0, &[5])),
        ApplyOutcome::Rejected("epoch mismatch")
    );
    assert_eq!(m.tablets.get(&TabletId(1)).unwrap().replicas, nodes(&[3, 4]));
}

#[test]
fn a_generation_never_rewinds() {
    let mut m = Metadata::default();
    for expected in 1..=3u64 {
        applied(&mut m, &schema("orders"));
        applied(&mut m, &recovery(true));
        assert_eq!(m.table_pitr("orders").unwrap().generation, expected);
        assert_eq!(m.pitr_generation.get(&orders()), Some(&expected));
        applied(&mut m, &MetaCommand::DropTableSchema { table: orders() });
        assert_eq!(m.pitr_generation.get(&orders()), Some(&expected));
    }
}

#[test]
fn activation_is_never_forgotten() {
    let mut m = Metadata::default();
    applied(&mut m, &member(1, NodeStatus::Down));
    assert!(!m.members.get(&nid(1)).unwrap().has_activated);
    applied(&mut m, &member(1, NodeStatus::Active));
    applied(&mut m, &member(1, NodeStatus::Down));
    assert!(m.members.get(&nid(1)).unwrap().has_activated);
    assert!(m.orphan_sweep_candidates().is_empty());
}

#[test]
fn a_member_in_use_is_never_removed() {
    let mut m = Metadata::default();
    let remove = MetaCommand::RemoveMember { node: nid(1) };
    for status in [NodeStatus::Active, NodeStatus::Joining] {
        applied(&mut m, &member(1, status));
        assert!(rejected(&mut m, &remove));
    }
    applied(&mut m, &member(1, NodeStatus::Leaving));
    applied(&mut m, &create(1, "orders"));
    assert_eq!(m.tablets_referencing(&nid(1)), 1);
    assert!(rejected(&mut m, &remove));
    applied(&mut m, &cas(1, 0, &[2, 3]));
    applied(&mut m, &remove);
}

#[test]
fn an_orphan_can_be_removed() {
    let mut m = Metadata::default();
    applied(&mut m, &register(1, "data"));
    applied(&mut m, &register(9, "control"));
    applied(&mut m, &member(2, NodeStatus::Active));
    assert!(!m.members.contains_key(&nid(9)));
    let orphans = m.orphan_sweep_candidates();
    assert_eq!(orphans.len(), 2);
    for i in 0..orphans.len() {
        let node = orphans.at(i).clone();
        applied(&mut m, &MetaCommand::RemoveMember { node });
    }
    assert!(m.orphan_sweep_candidates().is_empty());
    assert!(m.node_addrs.is_empty());
}

#[test]
fn one_registration_wins_an_id() {
    let mut m = Metadata::default();
    applied(&mut m, &register(1, "data"));
    applied(&mut m, &member(1, NodeStatus::Active));
    let row = m.members.get(&nid(1)).unwrap().clone();
    let rival = MetaCommand::RegisterNode {
        node: nid(1),
        addrs: addrs(2, "data"),
        labels: SortedMap::new(),
    };
    assert!(rejected(&mut m, &rival));
    assert_eq!(run(&mut m, &register(1, "data")), ApplyOutcome::NoOp);
    assert_eq!(*m.members.get(&nid(1)).unwrap(), row);
    let unknown = MetaCommand::RegisterNodeAddrs {
        node: nid(5),
        addrs: addrs(5, "data"),
    };
    assert!(rejected(&mut m, &unknown));
    assert!(!m.node_addrs.contains_key(&nid(5)));
}

#[test]
fn dropping_a_table_keeps_its_history() {
    let all = states();
    let (before, _, after) = all
        .iter()
        .find(|(_, c, _)| matches!(c, MetaCommand::DropTableTablets { .. }))
        .unwrap();
    assert!(!before.backups.is_empty() && !before.stream_shards.is_empty());
    assert_eq!(after.backups, before.backups);
    assert_eq!(after.backup_tablet_progress, before.backup_tablet_progress);
    assert_eq!(after.pitr_base_backups, before.pitr_base_backups);
    assert_eq!(after.pitr_segments, before.pitr_segments);
    assert_eq!(after.pitr_generation, before.pitr_generation);
    assert_eq!(after.stream_shards, before.stream_shards);
    assert_eq!(after.split_lineage, before.split_lineage);
    assert_eq!(after.restores, before.restores);
    assert_eq!(after.next_tablet_id, before.next_tablet_id);
    assert!(after.tablets_for_table("orders").is_empty());
    assert_eq!(after.tablets.len(), 2);
    assert!(after.split_placing.is_empty() && after.policies.is_empty());
    assert!(after.cp_member_tablets.is_empty());
    assert!(after.cp_member_addrs.contains_key(&nid(8)));
}

#[test]
fn lineage_and_restores_are_never_pruned() {
    for (before, _, after) in states() {
        for (t, line) in before.split_lineage.rows() {
            assert_eq!(after.split_lineage.get(t), Some(line));
        }
        for (id, _) in before.restores.rows() {
            assert!(after.restores.contains_key(id));
        }
    }
}

#[test]
fn a_sealed_segment_is_never_overwritten() {
    let mut m = Metadata::default();
    for c in history().into_iter().take(24) {
        applied(&mut m, &c);
    }
    let sealed = m.stream_shards.get(&(TabletId(1), 0)).unwrap().clone();
    assert_eq!(run(&mut m, &shard(1, 0, &[4], "rival")), ApplyOutcome::NoOp);
    assert_eq!(*m.stream_shards.get(&(TabletId(1), 0)).unwrap(), sealed);
    applied(&mut m, &shard(1, 0, &[4], "o0"));
    let moved = m.stream_shards.get(&(TabletId(1), 0)).unwrap();
    assert_eq!(moved.replicas, nodes(&[4]));
    assert_eq!(moved.object_id, sealed.object_id);
}

#[test]
fn a_backup_never_goes_back() {
    let mut m = Metadata::default();
    applied(&mut m, &schema("orders"));
    applied(&mut m, &create(1, "orders"));
    applied(&mut m, &backup("b1", false));
    let pinned = m.backup("b1").unwrap().manifest.clone();
    assert!(!m.backup_ready_to_complete("b1"));
    assert!(rejected(&mut m, &complete("b1")));
    applied(&mut m, &captured("b1", 1, 11));
    assert!(m.backup_ready_to_complete("b1"));
    applied(&mut m, &complete("b1"));
    assert!(!m.backup_ready_to_complete("b1"));
    let fail = MetaCommand::FailBackup {
        backup_id: "b1".to_owned(),
        reason: "late".to_owned(),
    };
    assert!(rejected(&mut m, &fail));
    assert!(rejected(&mut m, &captured("b1", 1, 12)));
    applied(
        &mut m,
        &MetaCommand::MarkBackupDeleted {
            backup_id: "b1".to_owned(),
        },
    );
    assert!(rejected(&mut m, &fail) && rejected(&mut m, &complete("b1")));
    let row = m.backup("b1").unwrap();
    assert_eq!(row.status, BackupStatus::Expired);
    assert_eq!((row.total_bytes, &row.manifest), (11, &pinned));
}

#[test]
fn a_restore_never_goes_back() {
    let mut m = Metadata::default();
    applied(&mut m, &restore("r1", 1));
    let done = MetaCommand::CompleteRestore {
        restore_id: "r1".to_owned(),
    };
    let fail = MetaCommand::FailRestore {
        restore_id: "r1".to_owned(),
        reason: "late".to_owned(),
    };
    applied(&mut m, &done);
    assert!(rejected(&mut m, &done) && rejected(&mut m, &fail));
    assert_eq!(m.restore("r1").unwrap().status, RestoreStatus::Done);
    assert_eq!(m.tablets.get(&TabletId(1)).unwrap().state, TabletState::Active);
    applied(&mut m, &restore("r2", 2));
    let fail = MetaCommand::FailRestore {
        restore_id: "r2".to_owned(),
        reason: "lost".to_owned(),
    };
    applied(&mut m, &fail);
    let done = MetaCommand::CompleteRestore {
        restore_id: "r2".to_owned(),
    };
    assert!(rejected(&mut m, &done));
    assert_eq!(m.tablets.get(&TabletId(2)).unwrap().state, TabletState::Building);
}

#[test]
fn a_split_divides_the_range() {
    let (left, right) = KeyRange::whole().split_at(&KEY.to_vec()).unwrap();
    assert!(left.start.is_empty());
    assert_eq!(left.end, Some(KEY.to_vec()));
    assert_eq!((right.start.as_slice(), &right.end), (&KEY[..], &None));
    assert_eq!(KeyRange::whole().split_at(&Vec::new()), None);
    assert_eq!(left.split_at(&KEY.to_vec()), None);
    assert_eq!(right.split_at(&KEY.to_vec()), None);
    assert!(right.split_at(&vec![0x80, 0, 0, 0, 0, 0, 0, 0, 0]).is_some());
}

#[test]
fn live_successors_are_exact() {
    let mut m = Metadata::default();
    applied(&mut m, &create(1, "orders"));
    assert_eq!(m.live_split_descendants(TabletId(1)), [TabletId(1)]);
    applied(&mut m, &begin_split(1, 0, &[4], 2, 3));
    applied(&mut m, &cutover(1, 1));
    applied(&mut m, &begin_split(2, 1, &[2], 4, 5));
    applied(&mut m, &cutover(2, 2));
    applied(&mut m, &begin_split(5, 1, &[3], 6, 7));
    applied(&mut m, &cutover(5, 2));
    assert_eq!(m.live_split_descendants(TabletId(1)), [4, 6, 7, 3].map(TabletId));
    assert_eq!(m.live_split_descendants(TabletId(5)), [6, 7].map(TabletId));
    assert_eq!(m.live_split_descendants(TabletId(3)), [TabletId(3)]);
    assert!(m.live_split_descendants(TabletId(99)).is_empty());
    let ends: Vec<Option<Vec<u8>>> = [4, 6, 7, 3]
        .iter()
        .map(|t| m.tablets.get(&TabletId(*t)).unwrap().range.end.clone())
        .collect();
    assert_eq!(ends, [Some(vec![2]), Some(vec![3]), Some(vec![4]), None]);
    applied(&mut m, &MetaCommand::DropTableTablets { table: orders() });
    assert!(m.live_split_descendants(TabletId(1)).is_empty());
}

fn placed() -> Metadata {
    let mut m = Metadata::default();
    for n in 1..=4 {
        applied(&mut m, &member(n, NodeStatus::Active));
    }
    for (t, table) in [(1, "a"), (2, "b"), (3, "c")] {
        applied(&mut m, &create(t, table));
        applied(
            &mut m,
            &MetaCommand::SetTabletPolicy {
                tablet: TabletId(t),
                policy: Some(PlacementPolicy::simple(table, 3)),
            },
        );
    }
    m
}

#[test]
fn repair_moves_what_is_misplaced_and_settles_it() {
    let mut m = placed();
    let mut desired = SortedMap::new();
    desired.insert(TabletId(1), nodes(&[1, 2, 3]));
    desired.insert(TabletId(2), nodes(&[2, 3, 4]));
    let moves = m.reconcile(&desired);
    assert_eq!(moves.len(), 1);
    applied(&mut m, &moves[0]);
    assert_eq!(m.tablets.get(&TabletId(2)).unwrap().replicas, nodes(&[2, 3, 4]));
    assert!(m.reconcile(&desired).is_empty());
    let balance = m.rebalance(&Some((TabletId(3), nodes(&[1, 2, 4])))).unwrap();
    applied(&mut m, &balance);
    assert!(m.rebalance(&None).is_none());
}

#[test]
fn a_batch_of_repairs_settles_the_cluster() {
    let mut m = placed();
    let mut desired = SortedMap::new();
    for t in 1..=3 {
        desired.insert(TabletId(t), nodes(&[2, 3, 4]));
    }
    let moves = m.reconcile(&desired);
    assert_eq!(moves.len(), 3);
    for c in &moves {
        applied(&mut m, c);
    }
    assert!(m.reconcile(&desired).is_empty());
    for t in 1..=3 {
        assert_eq!(m.tablets.get(&TabletId(t)).unwrap().replicas, nodes(&[2, 3, 4]));
    }
}

#[test]
fn a_replay_plan_repeats_nothing() {
    let mut m = Metadata::default();
    applied(&mut m, &schema("orders"));
    applied(&mut m, &recovery(true));
    applied(&mut m, &create(1, "orders"));
    applied(&mut m, &begin_split(1, 0, &[4], 2, 3));
    applied(&mut m, &cutover(1, 1));
    applied(&mut m, &begin_split(2, 1, &[2], 4, 5));
    applied(&mut m, &cutover(2, 2));
    for t in [1, 2, 4, 5, 3] {
        applied(&mut m, &segment(t, 0));
        applied(&mut m, &segment(t, 1));
    }
    let named = |base: &Vec<(TabletId, u64)>| -> Vec<(u64, u64)> {
        m.pitr_replay_segments(base, 1_000)
            .iter()
            .map(|r| (r.tablet.0, r.epoch))
            .collect()
    };
    let mut all = named(&vec![(TabletId(1), 10)]);
    assert_eq!(all.len(), 9);
    all.sort();
    assert_eq!(all, [(1, 1), (2, 0), (2, 1), (3, 0), (3, 1), (4, 0), (4, 1), (5, 0), (5, 1)]);
    let mut apart = named(&vec![(TabletId(2), 0), (TabletId(3), 0)]);
    assert_eq!(apart.len(), 8);
    apart.sort();
    apart.dedup();
    assert_eq!(apart.len(), 8);
    // A tablet that stems from another of the base is planned for twice.
    assert_eq!(named(&vec![(TabletId(1), 0), (TabletId(3), 0)]).len(), 12);
}

#[test]
fn superseded_snapshots_do_not_count() {
    let mut m = Metadata::default();
    let enable = |enabled, wall_ms| MetaCommand::UpdateContinuousBackups {
        table: orders(),
        enabled,
        wall_ms,
    };
    let base = |id: &str, created_wall_ms| MetaCommand::BeginBackup {
        backup_id: id.to_owned(),
        table: orders(),
        created_wall_ms,
        backup_name: String::new(),
        pitr_base: true,
    };
    let window = |m: &Metadata| {
        let w = m.pitr_restore_window("orders").unwrap();
        (w.generation, w.earliest_ms, w.latest_ms)
    };
    applied(&mut m, &schema("orders"));
    applied(&mut m, &create(1, "orders"));
    applied(&mut m, &enable(true, 1_000));
    applied(&mut m, &base("old", 2_000));
    applied(&mut m, &captured("old", 1, 5));
    applied(&mut m, &complete("old"));
    assert_eq!(window(&m), (1, 1_000, 2_000));
    applied(&mut m, &enable(false, 5_000));
    applied(&mut m, &enable(true, 9_000));
    assert_eq!(window(&m), (2, 9_000, 9_000));
    applied(&mut m, &base("new", 9_500));
    applied(&mut m, &captured("new", 1, 6));
    applied(&mut m, &complete("new"));
    assert_eq!(window(&m), (2, 9_000, 9_500));
    applied(&mut m, &MetaCommand::DropTableSchema { table: orders() });
    assert_eq!(window(&m), (2, 9_500, 9_500));
}

#[test]
fn a_window_known_from_history_alone_is_that_of_its_generation() {
    let mut m = Metadata::default();
    let enable = |enabled, wall_ms| MetaCommand::UpdateContinuousBackups {
        table: orders(),
        enabled,
        wall_ms,
    };
    applied(&mut m, &schema("orders"));
    applied(&mut m, &enable(true, 1_000));
    applied(
        &mut m,
        &MetaCommand::BeginBackup {
            backup_id: "b1".to_owned(),
            table: orders(),
            created_wall_ms: 1_100,
            backup_name: String::new(),
            pitr_base: true,
        },
    );
    applied(&mut m, &enable(false, 5_000));
    applied(&mut m, &enable(true, 9_000));
    applied(
        &mut m,
        &MetaCommand::SealPitrSegment {
            table: orders(),
            generation: 2,
            tablet: TabletId(1),
            epoch: 0,
            hlc_range: (0, 10),
            count: 1,
            seal_wall_ms: 9_500,
            replicas: Vec::new(),
            object_id: "o".to_owned(),
        },
    );
    applied(&mut m, &enable(false, 10_000));
    let w = m.pitr_restore_window("orders").unwrap();
    assert_eq!((w.generation, w.earliest_ms, w.latest_ms), (2, 9_500, 9_500));
}

#[test]
fn a_completed_backup_keeps_its_size() {
    let mut m = Metadata::default();
    applied(&mut m, &schema("orders"));
    applied(&mut m, &create(1, "orders"));
    applied(&mut m, &begin_split(1, 0, &[4], 2, 3));
    applied(&mut m, &cutover(1, 1));
    applied(&mut m, &backup("b1", false));
    applied(&mut m, &captured("b1", 2, 11));
    assert!(rejected(&mut m, &complete("b1")));
    applied(&mut m, &captured("b1", 3, 31));
    assert!(m.backup_ready_to_complete("b1"));
    let total = m.backup_total_bytes("b1");
    applied(&mut m, &complete("b1"));
    assert_eq!((total, m.backup("b1").unwrap().total_bytes), (42, 42));
    applied(&mut m, &MetaCommand::DropTableTablets { table: orders() });
    assert_eq!(m.backup("b1").unwrap().total_bytes, 42);
}

#[test]
fn one_mover_at_a_time() {
    let mut m = placed();
    let obligation = |target| SplitPlacing {
        target,
        done: false,
    };
    m.split_placing
        .insert(TabletId(1), obligation(Some(nodes(&[1, 2, 4]))));
    m.split_placing
        .insert(TabletId(2), obligation(Some(nodes(&[1, 2, 9]))));
    let offered: Vec<TabletId> = m.placement_entries().iter().map(|e| e.tablet).collect();
    assert_eq!(offered, [TabletId(3)]);
    let mut desired = SortedMap::new();
    desired.insert(TabletId(1), nodes(&[4]));
    assert!(m.reconcile(&desired).is_empty());

    // A healthy target is driven to, whatever the planner says; one that lost a member waits.
    let mut answers = SortedMap::new();
    answers.insert(TabletId(1), nodes(&[2, 3, 4]));
    answers.insert(TabletId(2), nodes(&[2, 3, 4]));
    let none = SortedSet::new();
    assert!(m.placing_questions(&none).is_empty());
    let moves = m.split_placing_reconcile(&none, &answers);
    assert_eq!(moves.len(), 1);
    applied(&mut m, &moves[0]);
    assert_eq!(m.tablets.get(&TabletId(1)).unwrap().replicas, nodes(&[1, 2, 4]));

    // Once it has waited, the planner is asked, and its answer becomes the target.
    let mut ready = SortedSet::new();
    ready.insert(TabletId(2));
    let asked: Vec<TabletId> = m.placing_questions(&ready).iter().map(|q| q.tablet).collect();
    assert_eq!(asked, [TabletId(2)]);
    let moves = m.split_placing_reconcile(&ready, &answers);
    assert_eq!(moves.len(), 1);
    applied(&mut m, &moves[0]);
    assert_eq!(
        m.split_placing.get(&TabletId(2)).unwrap().target,
        Some(nodes(&[2, 3, 4]))
    );
}

#[test]
fn a_ring_keeps_the_newest_entries_and_misses_nothing() {
    let put = |n: u8| KeyWrite::Put(vec![n; 2], vec![n; 3]);
    let mut ring = DeltaRing::with_bounds(10, 30);
    for n in 1..=4u8 {
        ring.push(u64::from(n), vec![put(n)]);
        assert!(ring.bytes() <= 30 || ring.len() == 1);
    }
    assert_eq!((ring.len(), ring.bytes()), (2, 26));
    assert_eq!(ring.writes_since(2, 4), Some(vec![put(3), put(4)]));
    assert_eq!(ring.writes_since(1, 4), None);
    ring.clear();
    assert_eq!((ring.len(), ring.bytes()), (0, 0));
    assert_eq!(ring.writes_since(3, 4), None);
}

#[test]
fn the_pushed_entry_is_answered() {
    let put = |n: u8| KeyWrite::Put(vec![n; 2], vec![n; 3]);
    let mut ring = DeltaRing::with_bounds(0, 0);
    for n in [3u8, 4, 9] {
        ring.push(u64::from(n), vec![put(n)]);
        assert_eq!(ring.len(), 1);
        assert_eq!(ring.writes_since(u64::from(n) - 1, u64::from(n)), Some(vec![put(n)]));
    }
    assert_eq!(ring.writes_since(3, 9), None);
}

#[test]
fn catching_up_in_two_steps() {
    let put = |n: u8| KeyWrite::Put(vec![n; 2], vec![n; 3]);
    let mut ring = DeltaRing::with_bounds(10, 1_000);
    for n in 1..=6u8 {
        ring.push(u64::from(n), vec![put(n), put(n + 10)]);
    }
    let whole = ring.writes_since(1, 6).unwrap();
    assert_eq!(whole.len(), 10);
    for mid in 1..=6 {
        let mut steps = ring.writes_since(1, mid).unwrap();
        steps.extend(ring.writes_since(mid, 6).unwrap());
        assert_eq!(steps, whole);
    }
}

#[test]
fn a_heartbeat_kills_nobody_and_the_silent_stay_dead() {
    let mut d = FailureDetector::<u64>::new(100);
    d.observe(1, Nanos(1_000));
    d.observe(2, Nanos(1_050));
    assert!(d.is_alive(1, Nanos(1_100)) && !d.is_alive(1, Nanos(1_101)));
    d.observe(2, Nanos(1_200));
    assert!(!d.is_alive(1, Nanos(1_101)) && !d.is_alive(1, Nanos(u64::MAX)));
    assert!(d.is_alive(2, Nanos(1_300)));
    d.observe(1, Nanos(1_250));
    let alive: Vec<(u64, bool)> = d
        .evaluate(Nanos(1_301))
        .iter()
        .map(|l| (l.node, l.alive))
        .collect();
    assert_eq!(alive, [(1, true), (2, false)]);
    d.forget(1);
    assert!(!d.tracks(1) && !d.is_alive(1, Nanos(1_250)));
}

#[test]
fn the_last_of_equal_rows_counts() {
    let m = SortedMap::from_rows(vec![(3u64, 30u64), (1, 10), (3, 33)]);
    assert_eq!(m.rows(), [(&1, &10), (&3, &33)]);
}
