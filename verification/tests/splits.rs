//! Splitting tablets, and the ids that they hand out.
use animus_control::rows::default_stream_view_type;
use animus_control::{
    Advice, ApplyOutcome, Candidate, Epoch, KeyRange, MetaCommand, Metadata, NodeId, NodeStatus,
    PlacementPolicy, SortedMap, SplitPlacing, StreamShardRow, TableSchema, Tablet, TabletId,
    TabletState,
};

fn nid(n: u64) -> NodeId {
    NodeId(format!("n{n}"))
}

/// A schema is well formed if it declares its key columns.
fn well_formed(schema: &TableSchema) -> bool {
    let declared = |name: &String| schema.columns.iter().any(|c| c.name == *name);
    declared(&schema.partition_key) && schema.sort_keys.iter().all(declared)
}

/// A planner that takes the first candidates there are.
fn select_replicas(candidates: &[Candidate], policy: &PlacementPolicy) -> Option<Vec<NodeId>> {
    let wanted = policy.replicas as usize;
    if candidates.len() < wanted {
        return None;
    }
    Some(candidates[..wanted].iter().map(|c| c.node.clone()).collect())
}

fn advise(m: &Metadata, c: &MetaCommand) -> Advice {
    Advice {
        schema_valid: m.schema_to_validate(c).map_or(true, |s| well_formed(&s)),
        selection: m
            .placement_question(c)
            .and_then(|(candidates, policy)| select_replicas(&candidates, &policy)),
    }
}

/// Applies commands with the advice that the rest of the system would give.
trait Driver {
    fn run(&mut self, c: &MetaCommand) -> ApplyOutcome;
}

impl Driver for Metadata {
    fn run(&mut self, c: &MetaCommand) -> ApplyOutcome {
        let advice = advise(self, c);
        assert!(self.admits(c));
        self.apply(c, &advice)
    }
}

fn begin_split_in_place_fixture() -> (Metadata, MetaCommand) {
    let mut m = Metadata::default();
    assert_eq!(
        m.run(&MetaCommand::CreateTablet {
            tablet: TabletId(1),
            table: Some("users".to_owned()),
            range: KeyRange::whole(),
            replicas: vec![nid(1), nid(2), nid(3)],
        }),
        ApplyOutcome::Applied
    );
    assert_eq!(
        m.run(&MetaCommand::SetTabletPolicy {
            tablet: TabletId(1),
            policy: Some(PlacementPolicy::simple("users", 3)),
        }),
        ApplyOutcome::Applied
    );
    let cmd = MetaCommand::BeginSplitInPlace {
        parent: TabletId(1),
        expected_epoch: Epoch::initial(),
        split_key: 0x8000_0000_0000_0000u64.to_be_bytes().to_vec(),
        children: [
            (TabletId(2), vec![nid(1), nid(2), nid(4)]),
            (TabletId(3), vec![nid(2), nid(3), nid(5)]),
        ],
    };
    (m, cmd)
}

fn split_tablet(m: &mut Metadata, source: TabletId, split_key: Vec<u8>, new_id: TabletId) {
    let expected_epoch = m.tablets.get(&source).map_or(Epoch::initial(), |t| t.epoch);
    let replicas = m
        .tablets
        .get(&source)
        .map(|t| t.replicas.clone())
        .unwrap_or_default();
    assert_eq!(
        m.run(&MetaCommand::BeginSplitInPlace {
            parent: source,
            expected_epoch,
            split_key,
            children: [
                (new_id, replicas.clone()),
                (TabletId(new_id.0 + 1), replicas)
            ],
        }),
        ApplyOutcome::Applied,
        "test setup: begin-split-in-place must apply"
    );
    let bumped = m.tablets.get(&source).map_or(Epoch::initial(), |t| t.epoch);
    assert_eq!(
        m.run(&MetaCommand::CutoverSplit {
            parent: source,
            expected_epoch: bumped,
            cutover_wall_ms: 1_000,
        }),
        ApplyOutcome::Applied,
        "test setup: cutover must apply"
    );
}

#[test]
fn drop_table_tablets_prunes_split_placing_rows_for_the_dropped_tablets() {
    let mut m = Metadata::default();
    for (table, tablet) in [("users", TabletId(1)), ("orders", TabletId(2))] {
        assert_eq!(
            m.run(&MetaCommand::CreateTablet {
                tablet,
                table: Some(table.to_owned()),
                range: KeyRange::whole(),
                replicas: vec![nid(1)],
            }),
            ApplyOutcome::Applied
        );
        m.split_placing.insert(
            tablet,
            SplitPlacing {
                target: Some(vec![nid(9)]),
                done: false,
            },
        );
    }
    assert_eq!(m.split_placing.len(), 2);

    assert_eq!(
        m.run(&MetaCommand::DropTableTablets {
            table: "users".to_owned(),
        }),
        ApplyOutcome::Applied
    );

    assert!(
        !m.split_placing.contains_key(&TabletId(1)),
        "the dropped table's row must be pruned"
    );
    assert!(
        m.split_placing.contains_key(&TabletId(2)),
        "the other table's row must survive"
    );
}

#[test]
fn begin_split_in_place_records_the_intent_and_marks_the_parent_splitting() {
    let (mut m, cmd) = begin_split_in_place_fixture();
    assert_eq!(m.run(&cmd), ApplyOutcome::Applied);

    let parent = &(*m.tablets.get(&TabletId(1)).unwrap());
    assert_eq!(parent.state, TabletState::Splitting);
    assert_eq!(parent.range, KeyRange::whole(), "parent range untouched");
    assert_eq!(
        parent.replicas,
        vec![nid(1), nid(2), nid(3)],
        "parent replicas untouched — the intent, not this field, carries the children's homes"
    );
    assert_eq!(parent.epoch, Epoch::initial().next());

    let intent = parent.inplace_split.as_ref().expect("intent recorded");
    let mid = 0x8000_0000_0000_0000u64.to_be_bytes().to_vec();
    assert_eq!(intent.split_key, mid);
    assert_eq!(intent.children[0].id, TabletId(2));
    assert_eq!(intent.children[0].replicas, vec![nid(1), nid(2), nid(4)]);
    assert_eq!(intent.children[1].id, TabletId(3));
    assert_eq!(intent.children[1].replicas, vec![nid(2), nid(3), nid(5)]);

    assert!(!m.tablets.contains_key(&TabletId(2)));
    assert!(!m.tablets.contains_key(&TabletId(3)));
    assert!(!m.policies.contains_key(&TabletId(2)));
    assert!(!m.policies.contains_key(&TabletId(3)));

    assert!(m.next_free_tablet_id().0 >= 4);
    assert!(m.split_lineage.is_empty());
}

#[test]
fn begin_split_in_place_rejects_bad_epoch_state_and_child_ids() {
    let (mut m, cmd) = begin_split_in_place_fixture();
    let MetaCommand::BeginSplitInPlace {
        parent,
        split_key,
        children,
        ..
    } = cmd.clone()
    else {
        unreachable!()
    };

    assert_eq!(
        m.run(&MetaCommand::BeginSplitInPlace {
            parent,
            expected_epoch: Epoch::initial().next(),
            split_key: split_key.clone(),
            children: children.clone(),
        }),
        ApplyOutcome::Rejected("epoch mismatch")
    );
    assert_eq!(
        m.run(&MetaCommand::BeginSplitInPlace {
            parent,
            expected_epoch: Epoch::initial(),
            split_key: split_key.clone(),
            children: [(TabletId(2), vec![nid(4)]), (TabletId(2), vec![nid(5)])],
        }),
        ApplyOutcome::Rejected("child ids must be distinct")
    );
    assert_eq!(
        m.run(&MetaCommand::BeginSplitInPlace {
            parent,
            expected_epoch: Epoch::initial(),
            split_key: split_key.clone(),
            children: [(TabletId(1), vec![nid(4)]), (TabletId(9), vec![nid(5)])],
        }),
        ApplyOutcome::Rejected("child tablet id already exists")
    );

    assert_eq!(m.run(&cmd), ApplyOutcome::Applied);
    assert_eq!(
        m.run(&MetaCommand::BeginSplitInPlace {
            parent,
            expected_epoch: Epoch::initial().next(),
            split_key,
            children: [(TabletId(10), vec![nid(4)]), (TabletId(11), vec![nid(5)])],
        }),
        ApplyOutcome::Rejected("tablet is not Active"),
        "one split at a time — a re-split of an already-Splitting parent is rejected"
    );
}

#[test]
fn cutover_split_in_place_activates_both_children_from_the_intent() {
    let (mut m, cmd) = begin_split_in_place_fixture();

    assert_eq!(
        m.run(&MetaCommand::CutoverSplit {
            parent: TabletId(1),
            expected_epoch: Epoch::initial(),
            cutover_wall_ms: 99,
        }),
        ApplyOutcome::Rejected("tablet is not Splitting")
    );

    assert_eq!(m.run(&cmd), ApplyOutcome::Applied);
    let parent_epoch = (*m.tablets.get(&TabletId(1)).unwrap()).epoch;

    for epoch in [3u64, 7] {
        m.stream_shards.insert(
            (TabletId(1), epoch),
            StreamShardRow {
                table: "users".to_owned(),
                label: "L".to_owned(),
                view_type: default_stream_view_type(),
                hlc_range: (epoch * 10, epoch * 10 + 9),
                count: 1,
                seal_wall_ms: 0,
                replicas: vec![nid(1)],
                object_id: format!("users/L/1/{epoch}/x"),
                expired: false,
            },
        );
    }

    assert_eq!(
        m.run(&MetaCommand::CutoverSplit {
            parent: TabletId(1),
            expected_epoch: parent_epoch,
            cutover_wall_ms: 99,
        }),
        ApplyOutcome::Applied
    );

    assert!(!m.tablets.contains_key(&TabletId(1)), "parent removed");
    assert!(
        !m.policies.contains_key(&TabletId(1)),
        "parent policy removed"
    );

    let mid = 0x8000_0000_0000_0000u64.to_be_bytes().to_vec();
    let left = &(*m.tablets.get(&TabletId(2)).unwrap());
    assert_eq!(left.state, TabletState::Active);
    assert_eq!(left.table.as_deref(), Some("users"));
    assert_eq!(left.replicas, vec![nid(1), nid(2), nid(4)]);
    assert_eq!(left.range.end.as_deref(), Some(mid.as_slice()));
    assert_eq!(left.epoch, Epoch::initial().next());
    assert!(
        left.inplace_split.is_none(),
        "the intent does not persist onto the child"
    );

    let right = &(*m.tablets.get(&TabletId(3)).unwrap());
    assert_eq!(right.state, TabletState::Active);
    assert_eq!(right.replicas, vec![nid(2), nid(3), nid(5)]);
    assert_eq!(right.range.start, mid);

    assert!(m.policies.contains_key(&TabletId(2)));
    assert!(m.policies.contains_key(&TabletId(3)));

    for child in [TabletId(2), TabletId(3)] {
        let lineage = &(*m.split_lineage.get(&child).unwrap());
        assert_eq!(lineage.parent, TabletId(1));
        assert_eq!(
            lineage.parents_final_epoch,
            Some(7),
            "the chain's highest sealed epoch, not its first"
        );
        assert_eq!(lineage.cutover_wall_ms, 99);
    }

    assert_eq!(
        m.run(&MetaCommand::CutoverSplit {
            parent: TabletId(1),
            expected_epoch: parent_epoch,
            cutover_wall_ms: 100,
        }),
        ApplyOutcome::Rejected("no such tablet")
    );
}

#[test]
fn cutover_split_in_place_writes_no_placing_entry_when_already_satisfying() {
    let mut m = Metadata::default();
    for n in [1u64, 2, 3] {
        assert_eq!(
            m.run(&MetaCommand::UpsertMember {
                node: nid(n),
                labels: SortedMap::new(),
                status: NodeStatus::Active,
            }),
            ApplyOutcome::Applied
        );
    }
    assert_eq!(
        m.run(&MetaCommand::CreateTablet {
            tablet: TabletId(1),
            table: Some("users".to_owned()),
            range: KeyRange::whole(),
            replicas: vec![nid(1), nid(2), nid(3)],
        }),
        ApplyOutcome::Applied
    );
    assert_eq!(
        m.run(&MetaCommand::SetTabletPolicy {
            tablet: TabletId(1),
            policy: Some(PlacementPolicy::simple("users", 3)),
        }),
        ApplyOutcome::Applied
    );

    assert_eq!(
        m.run(&MetaCommand::BeginSplitInPlace {
            parent: TabletId(1),
            expected_epoch: Epoch::initial(),
            split_key: 0x8000_0000_0000_0000u64.to_be_bytes().to_vec(),
            children: [
                (TabletId(2), vec![nid(1), nid(2), nid(3)]),
                (TabletId(3), vec![nid(1), nid(2), nid(3)]),
            ],
        }),
        ApplyOutcome::Applied
    );
    assert_eq!(
        m.run(&MetaCommand::CutoverSplit {
            parent: TabletId(1),
            expected_epoch: Epoch::initial().next(),
            cutover_wall_ms: 1,
        }),
        ApplyOutcome::Applied
    );

    assert!(
        m.split_placing.is_empty(),
        "an already-satisfying fork needs no directed-Placing obligation"
    );
}

#[test]
fn cutover_split_in_place_writes_a_placing_target_when_a_better_placement_exists() {
    let mut m = Metadata::default();

    for n in [1u64, 2, 3, 4] {
        assert_eq!(
            m.run(&MetaCommand::UpsertMember {
                node: nid(n),
                labels: SortedMap::new(),
                status: NodeStatus::Active,
            }),
            ApplyOutcome::Applied
        );
    }
    assert_eq!(
        m.run(&MetaCommand::CreateTablet {
            tablet: TabletId(1),
            table: Some("users".to_owned()),
            range: KeyRange::whole(),
            replicas: vec![nid(2), nid(3), nid(4)],
        }),
        ApplyOutcome::Applied
    );
    assert_eq!(
        m.run(&MetaCommand::SetTabletPolicy {
            tablet: TabletId(1),
            policy: Some(PlacementPolicy::simple("users", 3)),
        }),
        ApplyOutcome::Applied
    );
    assert_eq!(
        m.run(&MetaCommand::BeginSplitInPlace {
            parent: TabletId(1),
            expected_epoch: Epoch::initial(),
            split_key: 0x8000_0000_0000_0000u64.to_be_bytes().to_vec(),
            children: [
                (TabletId(2), vec![nid(2), nid(3), nid(4)]),
                (TabletId(3), vec![nid(2), nid(3), nid(4)]),
            ],
        }),
        ApplyOutcome::Applied
    );
    assert_eq!(
        m.run(&MetaCommand::CutoverSplit {
            parent: TabletId(1),
            expected_epoch: Epoch::initial().next(),
            cutover_wall_ms: 1,
        }),
        ApplyOutcome::Applied
    );

    for child in [TabletId(2), TabletId(3)] {
        let entry = &(*m.split_placing.get(&child).unwrap());
        assert_eq!(entry.target, Some(vec![nid(1), nid(2), nid(3)]));
        assert!(!entry.done);
    }
}

#[test]
fn cutover_split_in_place_writes_a_pending_placing_entry_when_unsatisfiable() {
    let (mut m, cmd) = begin_split_in_place_fixture();
    assert_eq!(m.run(&cmd), ApplyOutcome::Applied);
    let parent_epoch = (*m.tablets.get(&TabletId(1)).unwrap()).epoch;
    assert_eq!(
        m.run(&MetaCommand::CutoverSplit {
            parent: TabletId(1),
            expected_epoch: parent_epoch,
            cutover_wall_ms: 1,
        }),
        ApplyOutcome::Applied
    );

    for child in [TabletId(2), TabletId(3)] {
        let entry = &(*m.split_placing.get(&child).unwrap());
        assert_eq!(entry.target, None);
        assert!(!entry.done);
    }
}

#[test]
fn mark_split_placing_done_happy_path() {
    let mut m = Metadata::default();
    m.run(&MetaCommand::CreateTablet {
        tablet: TabletId(2),
        table: Some("users".to_owned()),
        range: KeyRange::whole(),
        replicas: vec![nid(1)],
    });
    m.split_placing.insert(
        TabletId(2),
        SplitPlacing {
            target: Some(vec![nid(9)]),
            done: false,
        },
    );
    let epoch = (*m.tablets.get(&TabletId(2)).unwrap()).epoch;

    assert_eq!(
        m.run(&MetaCommand::MarkSplitPlacingDone {
            tablet: TabletId(2),
            expected_epoch: epoch,
        }),
        ApplyOutcome::Applied
    );
    assert!((*m.split_placing.get(&TabletId(2)).unwrap()).done);

    assert_eq!((*m.split_placing.get(&TabletId(2)).unwrap()).target, Some(vec![nid(9)]));
}

#[test]
fn mark_split_placing_done_rejects_epoch_mismatch() {
    let mut m = Metadata::default();
    m.run(&MetaCommand::CreateTablet {
        tablet: TabletId(2),
        table: Some("users".to_owned()),
        range: KeyRange::whole(),
        replicas: vec![nid(1)],
    });
    m.split_placing.insert(
        TabletId(2),
        SplitPlacing {
            target: Some(vec![nid(9)]),
            done: false,
        },
    );
    let stale_epoch = (*m.tablets.get(&TabletId(2)).unwrap()).epoch.next();

    assert_eq!(
        m.run(&MetaCommand::MarkSplitPlacingDone {
            tablet: TabletId(2),
            expected_epoch: stale_epoch,
        }),
        ApplyOutcome::Rejected("epoch mismatch")
    );
    assert!(!(*m.split_placing.get(&TabletId(2)).unwrap()).done);
}

#[test]
fn mark_split_placing_done_rejects_when_no_entry_exists() {
    let mut m = Metadata::default();
    m.run(&MetaCommand::CreateTablet {
        tablet: TabletId(2),
        table: Some("users".to_owned()),
        range: KeyRange::whole(),
        replicas: vec![nid(1)],
    });
    let epoch = (*m.tablets.get(&TabletId(2)).unwrap()).epoch;

    assert_eq!(
        m.run(&MetaCommand::MarkSplitPlacingDone {
            tablet: TabletId(2),
            expected_epoch: epoch,
        }),
        ApplyOutcome::Rejected("no split_placing entry for this tablet")
    );

    assert_eq!(
        m.run(&MetaCommand::MarkSplitPlacingDone {
            tablet: TabletId(999),
            expected_epoch: Epoch::initial(),
        }),
        ApplyOutcome::Rejected("no such tablet")
    );
}

#[test]
fn mark_split_placing_done_is_idempotent_on_an_already_done_entry() {
    let mut m = Metadata::default();
    m.run(&MetaCommand::CreateTablet {
        tablet: TabletId(2),
        table: Some("users".to_owned()),
        range: KeyRange::whole(),
        replicas: vec![nid(1)],
    });
    m.split_placing.insert(
        TabletId(2),
        SplitPlacing {
            target: Some(vec![nid(9)]),
            done: false,
        },
    );
    let epoch = (*m.tablets.get(&TabletId(2)).unwrap()).epoch;
    let cmd = MetaCommand::MarkSplitPlacingDone {
        tablet: TabletId(2),
        expected_epoch: epoch,
    };
    assert_eq!(m.run(&cmd), ApplyOutcome::Applied);
    assert_eq!(m.run(&cmd), ApplyOutcome::NoOp);
    assert!((*m.split_placing.get(&TabletId(2)).unwrap()).done);
}

#[test]
fn retarget_split_placing_happy_path() {
    let mut m = Metadata::default();
    m.run(&MetaCommand::CreateTablet {
        tablet: TabletId(2),
        table: Some("users".to_owned()),
        range: KeyRange::whole(),
        replicas: vec![nid(1)],
    });
    m.split_placing.insert(
        TabletId(2),
        SplitPlacing {
            target: Some(vec![nid(9)]),
            done: false,
        },
    );
    let epoch = (*m.tablets.get(&TabletId(2)).unwrap()).epoch;

    assert_eq!(
        m.run(&MetaCommand::RetargetSplitPlacing {
            tablet: TabletId(2),
            expected_epoch: epoch,
            target: Some(vec![nid(8)]),
        }),
        ApplyOutcome::Applied
    );
    assert_eq!((*m.split_placing.get(&TabletId(2)).unwrap()).target, Some(vec![nid(8)]));
    assert!(!(*m.split_placing.get(&TabletId(2)).unwrap()).done);
    assert_eq!((*m.tablets.get(&TabletId(2)).unwrap()).replicas, vec![nid(1)]);
    assert_eq!((*m.tablets.get(&TabletId(2)).unwrap()).epoch, epoch);
}

#[test]
fn retarget_split_placing_rejects_epoch_mismatch() {
    let mut m = Metadata::default();
    m.run(&MetaCommand::CreateTablet {
        tablet: TabletId(2),
        table: Some("users".to_owned()),
        range: KeyRange::whole(),
        replicas: vec![nid(1)],
    });
    m.split_placing.insert(
        TabletId(2),
        SplitPlacing {
            target: Some(vec![nid(9)]),
            done: false,
        },
    );
    let stale_epoch = (*m.tablets.get(&TabletId(2)).unwrap()).epoch.next();
    assert_eq!(
        m.run(&MetaCommand::RetargetSplitPlacing {
            tablet: TabletId(2),
            expected_epoch: stale_epoch,
            target: Some(vec![nid(8)]),
        }),
        ApplyOutcome::Rejected("epoch mismatch")
    );
    assert_eq!((*m.split_placing.get(&TabletId(2)).unwrap()).target, Some(vec![nid(9)]));
}

#[test]
fn retarget_split_placing_rejects_missing_entry_and_is_a_noop_once_done() {
    let mut m = Metadata::default();
    m.run(&MetaCommand::CreateTablet {
        tablet: TabletId(2),
        table: Some("users".to_owned()),
        range: KeyRange::whole(),
        replicas: vec![nid(1)],
    });
    let epoch = (*m.tablets.get(&TabletId(2)).unwrap()).epoch;
    assert_eq!(
        m.run(&MetaCommand::RetargetSplitPlacing {
            tablet: TabletId(2),
            expected_epoch: epoch,
            target: Some(vec![nid(8)]),
        }),
        ApplyOutcome::Rejected("no split_placing entry for this tablet")
    );
    assert_eq!(
        m.run(&MetaCommand::RetargetSplitPlacing {
            tablet: TabletId(999),
            expected_epoch: Epoch::initial(),
            target: Some(vec![nid(8)]),
        }),
        ApplyOutcome::Rejected("no such tablet")
    );

    m.split_placing.insert(
        TabletId(2),
        SplitPlacing {
            target: Some(vec![nid(9)]),
            done: true,
        },
    );
    assert_eq!(
        m.run(&MetaCommand::RetargetSplitPlacing {
            tablet: TabletId(2),
            expected_epoch: epoch,
            target: Some(vec![nid(8)]),
        }),
        ApplyOutcome::NoOp
    );
    assert_eq!((*m.split_placing.get(&TabletId(2)).unwrap()).target, Some(vec![nid(9)]));
}

#[test]
fn drop_table_tablets_removes_the_tables_tablets_and_policies() {
    let mut m = Metadata::default();
    let create = |id: u64, table: Option<&str>| MetaCommand::CreateTablet {
        tablet: TabletId(id),
        table: table.map(str::to_owned),
        range: KeyRange::whole(),
        replicas: vec![nid(1), nid(2), nid(3)],
    };
    assert_eq!(m.run(&create(1, Some("users"))), ApplyOutcome::Applied);
    assert_eq!(m.run(&create(2, Some("orders"))), ApplyOutcome::Applied);
    assert_eq!(m.run(&create(3, None)), ApplyOutcome::Applied);

    split_tablet(
        &mut m,
        TabletId(1),
        0x8000_0000_0000_0000u64.to_be_bytes().to_vec(),
        TabletId(4),
    );
    for id in [4u64, 5, 2] {
        assert_eq!(
            m.run(&MetaCommand::SetTabletPolicy {
                tablet: TabletId(id),
                policy: Some(PlacementPolicy::simple("cp-rf", 3)),
            }),
            ApplyOutcome::Applied
        );
    }

    let drop = MetaCommand::DropTableTablets {
        table: "users".to_owned(),
    };
    assert_eq!(m.run(&drop), ApplyOutcome::Applied);

    assert!(m.tablets_for_table("users").is_empty());
    assert!(!m.tablets.contains_key(&TabletId(4)));
    assert!(!m.tablets.contains_key(&TabletId(5)));
    assert!(!m.policies.contains_key(&TabletId(4)));
    assert!(!m.policies.contains_key(&TabletId(5)));

    assert!(m.tablets.contains_key(&TabletId(2)));
    assert!(m.policies.contains_key(&TabletId(2)));
    assert!(m.tablets.contains_key(&TabletId(3)));

    assert_eq!(m.run(&drop), ApplyOutcome::NoOp);

    assert_eq!(m.next_free_tablet_id(), TabletId(6));
}

#[test]
fn next_tablet_id_is_monotonic_across_create_and_split() {
    let mut m = Metadata::default();
    let create = |id: u64, table: &str| MetaCommand::CreateTablet {
        tablet: TabletId(id),
        table: Some(table.to_owned()),
        range: KeyRange::whole(),
        replicas: vec![nid(1), nid(2), nid(3)],
    };

    assert_eq!(m.next_free_tablet_id(), TabletId(1));

    assert_eq!(m.run(&create(1, "users")), ApplyOutcome::Applied);
    assert_eq!(m.next_free_tablet_id(), TabletId(2));
    assert_eq!(m.run(&create(2, "orders")), ApplyOutcome::Applied);
    assert_eq!(m.next_free_tablet_id(), TabletId(3));

    split_tablet(
        &mut m,
        TabletId(1),
        0x8000_0000_0000_0000u64.to_be_bytes().to_vec(),
        TabletId(3),
    );
    assert_eq!(m.next_free_tablet_id(), TabletId(5));

    let mut tablets = SortedMap::new();
    tablets.insert(
        TabletId(7),
        Tablet::new(TabletId(7), KeyRange::whole(), vec![nid(1)]),
    );
    let legacy = Metadata {
        tablets,
        next_tablet_id: 0,
        ..Metadata::default()
    };
    assert_eq!(legacy.next_free_tablet_id(), TabletId(8));
}
