//! Which placement commands the planner's answers become.
use animus_control::value::Key;
use animus_control::{
    Advice, ApplyOutcome, Candidate, Epoch, KeyRange, MetaCommand, Metadata, NodeId, NodeStatus,
    PlacementEntry, PlacementPolicy, SortedMap, SortedSet, SplitPlacing, TableSchema, TabletId,
};

fn nid(n: u64) -> NodeId {
    NodeId(format!("n{n}"))
}

/// A schema is well formed if it declares its key columns.
fn well_formed(schema: &TableSchema) -> bool {
    let declared = |name: &String| schema.columns.iter().any(|c| c.name == *name);
    declared(&schema.partition_key) && schema.sort_keys.iter().all(declared)
}

/// A planner that takes the first candidates there are.
fn select_replicas(candidates: &[Candidate], policy: &PlacementPolicy) -> Option<Vec<NodeId>> {
    let wanted = policy.replicas as usize;
    if candidates.len() < wanted {
        return None;
    }
    Some(candidates[..wanted].iter().map(|c| c.node.clone()).collect())
}

/// A planner that keeps what is alive of `current` and fills up with the first candidates.
fn replan(
    current: &[NodeId],
    candidates: &[Candidate],
    policy: &PlacementPolicy,
) -> Option<Vec<NodeId>> {
    let wanted = policy.replicas as usize;
    let mut chosen: Vec<NodeId> = Vec::new();
    for c in candidates {
        if current.contains(&c.node) && chosen.len() < wanted {
            chosen.push(c.node.clone());
        }
    }
    for c in candidates {
        if chosen.len() < wanted && !chosen.contains(&c.node) {
            chosen.push(c.node.clone());
        }
    }
    if chosen.len() < wanted {
        return None;
    }
    chosen.sort_by_key(|n| n.0.clone());
    Some(chosen)
}

/// A planner that moves one replica of a tablet with a full replica set off a node that carries at
/// least two more replicas than another.
fn rebalance_step(
    entries: &[PlacementEntry],
    candidates: &[Candidate],
) -> Option<(TabletId, Vec<NodeId>)> {
    let load = |n: &NodeId| entries.iter().filter(|e| e.replicas.contains(n)).count();
    for e in entries {
        if e.replicas.len() as u64 != e.policy.replicas {
            continue;
        }
        for from in &e.replicas {
            for to in candidates {
                if !e.replicas.contains(&to.node) && load(from) >= load(&to.node) + 2 {
                    let mut moved: Vec<NodeId> =
                        e.replicas.iter().filter(|n| *n != from).cloned().collect();
                    moved.push(to.node.clone());
                    moved.sort_by_key(|n| n.0.clone());
                    return Some((e.tablet, moved));
                }
            }
        }
    }
    None
}

fn advise(m: &Metadata, c: &MetaCommand) -> Advice {
    Advice {
        schema_valid: m.schema_to_validate(c).map_or(true, |s| well_formed(&s)),
        selection: m
            .placement_question(c)
            .and_then(|(candidates, policy)| select_replicas(&candidates, &policy)),
    }
}

/// Applies commands with the advice that the rest of the system would give.
trait Driver {
    fn run(&mut self, c: &MetaCommand) -> ApplyOutcome;
}

impl Driver for Metadata {
    fn run(&mut self, c: &MetaCommand) -> ApplyOutcome {
        let advice = advise(self, c);
        assert!(self.admits(c));
        self.apply(c, &advice)
    }
}

/// Asks the planner, and turns its answers into commands.
trait Reconciler {
    fn repair(&self) -> Vec<MetaCommand>;
    fn balance(&self) -> Option<MetaCommand>;
    fn place_children(&self, ready: &SortedSet<TabletId>) -> Vec<MetaCommand>;
}

impl Reconciler for Metadata {
    fn repair(&self) -> Vec<MetaCommand> {
        let candidates = self.placement_candidates();
        let mut desired = SortedMap::new();
        for e in self.placement_entries() {
            if let Some(set) = replan(&e.replicas, &candidates, &e.policy) {
                desired.insert(e.tablet, set);
            }
        }
        self.reconcile(&desired)
    }

    fn balance(&self) -> Option<MetaCommand> {
        let step = rebalance_step(&self.placement_entries(), &self.placement_candidates());
        self.rebalance(&step)
    }

    fn place_children(&self, ready: &SortedSet<TabletId>) -> Vec<MetaCommand> {
        let candidates = self.placement_candidates();
        let mut answers = SortedMap::new();
        for q in self.placing_questions(ready) {
            let answer = match &q.current {
                Some(current) => replan(current, &candidates, &q.policy),
                None => select_replicas(&candidates, &q.policy),
            };
            if let Some(set) = answer {
                answers.insert(q.tablet, set);
            }
        }
        self.split_placing_reconcile(ready, &answers)
    }
}

fn set_of<K: Key, const N: usize>(items: [K; N]) -> SortedSet<K> {
    let mut s = SortedSet::new();
    for k in items {
        s.insert(k);
    }
    s
}

fn split_placing_dwell_fixture() -> Metadata {
    let mut m = Metadata::default();
    for n in [1u64, 2, 3, 4] {
        assert_eq!(
            m.run(&MetaCommand::UpsertMember {
                node: nid(n),
                labels: SortedMap::new(),
                status: NodeStatus::Active,
            }),
            ApplyOutcome::Applied
        );
    }
    assert_eq!(
        m.run(&MetaCommand::CreateTablet {
            tablet: TabletId(2),
            table: Some("users".to_owned()),
            range: KeyRange::whole(),
            replicas: vec![nid(1), nid(2), nid(4)],
        }),
        ApplyOutcome::Applied
    );
    assert_eq!(
        m.run(&MetaCommand::SetTabletPolicy {
            tablet: TabletId(2),
            policy: Some(PlacementPolicy::simple("users", 3)),
        }),
        ApplyOutcome::Applied
    );
    m.split_placing.insert(
        TabletId(2),
        SplitPlacing {
            target: Some(vec![nid(1), nid(2), nid(3)]),
            done: false,
        },
    );
    m
}

#[test]
fn reconcile_with_insufficient_candidates_is_a_stable_noop() {
    let mut m = Metadata::default();
    assert_eq!(
        m.run(&MetaCommand::UpsertMember {
            node: nid(1),
            labels: SortedMap::new(),
            status: NodeStatus::Active,
        }),
        ApplyOutcome::Applied
    );
    assert_eq!(
        m.run(&MetaCommand::CreateTablet {
            tablet: TabletId(1),
            table: Some("t".to_owned()),
            range: KeyRange::whole(),
            replicas: vec![nid(1)],
        }),
        ApplyOutcome::Applied
    );

    assert_eq!(
        m.run(&MetaCommand::SetTabletPolicy {
            tablet: TabletId(1),
            policy: Some(PlacementPolicy::simple("cp-rf", 3)),
        }),
        ApplyOutcome::Applied
    );

    for tick in 0..5 {
        assert_eq!(
            m.repair(),
            Vec::new(),
            "tick {tick}: expected zero proposals with only 1 of 3 required \
             candidates Active — a proposal here would be a storm against a \
             policy that can never be satisfied yet"
        );
    }

    assert_eq!(
        m.run(&MetaCommand::UpsertMember {
            node: nid(2),
            labels: SortedMap::new(),
            status: NodeStatus::Active,
        }),
        ApplyOutcome::Applied
    );
    assert_eq!(
        m.run(&MetaCommand::UpsertMember {
            node: nid(3),
            labels: SortedMap::new(),
            status: NodeStatus::Active,
        }),
        ApplyOutcome::Applied
    );
    let proposals = m.repair();
    assert_eq!(
        proposals.len(),
        1,
        "expected exactly one CasTabletReplicas proposal now that 3 candidates exist: {proposals:?}"
    );
    assert!(matches!(
        &proposals[0],
        MetaCommand::CasTabletReplicas { tablet, replicas, .. }
            if *tablet == TabletId(1) && replicas.len() == 3
    ));
}

#[test]
fn split_placing_reconcile_does_not_retarget_on_a_flap() {
    let mut m = split_placing_dwell_fixture();
    let empty: SortedSet<TabletId> = SortedSet::new();

    let proposals = m.place_children(&empty);
    assert_eq!(proposals.len(), 1, "{proposals:?}");
    assert!(matches!(
        &proposals[0],
        MetaCommand::CasTabletReplicas { tablet, replicas, .. }
            if *tablet == TabletId(2) && *replicas == vec![nid(1), nid(2), nid(3)]
    ));

    assert_eq!(
        m.run(&MetaCommand::UpsertMember {
            node: nid(1),
            labels: SortedMap::new(),
            status: NodeStatus::Down,
        }),
        ApplyOutcome::Applied
    );
    let proposals = m.place_children(&empty);
    assert!(
        proposals.is_empty(),
        "expected a pause (no proposal) while n1 is down but not yet retarget-ready: {proposals:?}"
    );

    assert_eq!(
        m.run(&MetaCommand::UpsertMember {
            node: nid(1),
            labels: SortedMap::new(),
            status: NodeStatus::Active,
        }),
        ApplyOutcome::Applied
    );
    assert_eq!(
        (*m.split_placing.get(&TabletId(2)).unwrap()).target,
        Some(vec![nid(1), nid(2), nid(3)]),
        "the stored target must be untouched by a flap that never reached the dwell gate"
    );
    let proposals = m.place_children(&empty);
    assert_eq!(proposals.len(), 1, "{proposals:?}");
    assert!(matches!(
        &proposals[0],
        MetaCommand::CasTabletReplicas { tablet, replicas, .. }
            if *tablet == TabletId(2) && *replicas == vec![nid(1), nid(2), nid(3)]
    ));
}

#[test]
fn split_placing_reconcile_pauses_while_a_target_member_is_down_and_not_ready() {
    let mut m = split_placing_dwell_fixture();
    assert_eq!(
        m.run(&MetaCommand::UpsertMember {
            node: nid(2),
            labels: SortedMap::new(),
            status: NodeStatus::Down,
        }),
        ApplyOutcome::Applied
    );
    let proposals = m.place_children(&SortedSet::new());
    assert!(proposals.is_empty(), "{proposals:?}");

    assert_eq!(
        (*m.split_placing.get(&TabletId(2)).unwrap()).target,
        Some(vec![nid(1), nid(2), nid(3)])
    );
}

#[test]
fn split_placing_reconcile_retargets_once_ready_keeping_live_survivors() {
    let mut m = split_placing_dwell_fixture();
    assert_eq!(
        m.run(&MetaCommand::UpsertMember {
            node: nid(2),
            labels: SortedMap::new(),
            status: NodeStatus::Down,
        }),
        ApplyOutcome::Applied
    );
    let ready: SortedSet<TabletId> = set_of([TabletId(2)]);
    let proposals = m.place_children(&ready);
    assert_eq!(proposals.len(), 1, "{proposals:?}");
    assert!(matches!(
        &proposals[0],
        MetaCommand::RetargetSplitPlacing { tablet, target, .. }
            if *tablet == TabletId(2) && *target == Some(vec![nid(1), nid(3), nid(4)])
    ));
}

#[test]
fn reconcile_skips_an_undone_split_placing_tablet_even_with_a_down_replica() {
    let mut m = Metadata::default();
    for n in [1u64, 2, 3, 4] {
        assert_eq!(
            m.run(&MetaCommand::UpsertMember {
                node: nid(n),
                labels: SortedMap::new(),
                status: NodeStatus::Active,
            }),
            ApplyOutcome::Applied
        );
    }
    assert_eq!(
        m.run(&MetaCommand::CreateTablet {
            tablet: TabletId(2),
            table: Some("users".to_owned()),
            range: KeyRange::whole(),
            replicas: vec![nid(1), nid(2), nid(5)],
        }),
        ApplyOutcome::Applied
    );
    assert_eq!(
        m.run(&MetaCommand::SetTabletPolicy {
            tablet: TabletId(2),
            policy: Some(PlacementPolicy::simple("users", 3)),
        }),
        ApplyOutcome::Applied
    );
    m.split_placing.insert(
        TabletId(2),
        SplitPlacing {
            target: Some(vec![nid(1), nid(2), nid(3)]),
            done: false,
        },
    );

    let mut without_entry = m.clone();
    without_entry.split_placing.remove(&TabletId(2));
    assert!(
        !without_entry.repair().is_empty(),
        "expected the sanity baseline to actually repair the violation"
    );

    assert!(
        m.repair().is_empty(),
        "repair must not touch a tablet with an un-done split_placing entry"
    );

    let mut entry = m.split_placing.get(&TabletId(2)).unwrap().clone();
    entry.done = true;
    m.split_placing.insert(TabletId(2), entry);
    assert!(
        !m.repair().is_empty(),
        "a done split_placing entry must no longer exclude the tablet from repair"
    );
}

#[test]
fn placement_is_frozen_for_a_splitting_parent_with_an_in_place_intent() {
    let mut m = Metadata::default();
    for n in 1..=6u64 {
        assert_eq!(
            m.run(&MetaCommand::UpsertMember {
                node: nid(n),
                labels: SortedMap::new(),
                status: NodeStatus::Active,
            }),
            ApplyOutcome::Applied
        );
    }

    assert_eq!(
        m.run(&MetaCommand::CreateTablet {
            tablet: TabletId(1),
            table: Some("a".to_owned()),
            range: KeyRange::whole(),
            replicas: vec![nid(1)],
        }),
        ApplyOutcome::Applied
    );
    assert_eq!(
        m.run(&MetaCommand::SetTabletPolicy {
            tablet: TabletId(1),
            policy: Some(PlacementPolicy::simple("p", 3)),
        }),
        ApplyOutcome::Applied
    );

    assert_eq!(
        m.run(&MetaCommand::CreateTablet {
            tablet: TabletId(2),
            table: Some("b".to_owned()),
            range: KeyRange::whole(),
            replicas: vec![nid(2)],
        }),
        ApplyOutcome::Applied
    );
    assert_eq!(
        m.run(&MetaCommand::SetTabletPolicy {
            tablet: TabletId(2),
            policy: Some(PlacementPolicy::simple("p", 3)),
        }),
        ApplyOutcome::Applied
    );
    assert_eq!(
        m.run(&MetaCommand::BeginSplitInPlace {
            parent: TabletId(2),
            expected_epoch: Epoch::initial(),
            split_key: 0x8000_0000_0000_0000u64.to_be_bytes().to_vec(),
            children: [(TabletId(3), vec![nid(2)]), (TabletId(4), vec![nid(2)])],
        }),
        ApplyOutcome::Applied
    );

    let proposed = m.repair();
    let targets: Vec<TabletId> = proposed
        .iter()
        .map(|c| match c {
            MetaCommand::CasTabletReplicas { tablet, .. } => *tablet,
            other => panic!("unexpected command: {other:?}"),
        })
        .collect();
    assert_eq!(
        targets,
        vec![TabletId(1)],
        "repair touches only the Active tablet; the Splitting parent (in-place, no \
         Building rows at all) is frozen"
    );

    assert!(m.balance().is_none());
}
