//! Membership and the address books.
use animus_control::{
    Advice, ApplyOutcome, Candidate, KeyRange, MetaCommand, Metadata, NodeAddrs, NodeId,
    NodeStatus, PlacementPolicy, SortedMap, TableSchema, TabletId,
};

fn nid(n: u64) -> NodeId {
    NodeId(format!("n{n}"))
}

/// A schema is well formed if it declares its key columns.
fn well_formed(schema: &TableSchema) -> bool {
    let declared = |name: &String| schema.columns.iter().any(|c| c.name == *name);
    declared(&schema.partition_key) && schema.sort_keys.iter().all(declared)
}

/// A planner that takes the first candidates there are.
fn select_replicas(candidates: &[Candidate], policy: &PlacementPolicy) -> Option<Vec<NodeId>> {
    let wanted = policy.replicas as usize;
    if candidates.len() < wanted {
        return None;
    }
    Some(candidates[..wanted].iter().map(|c| c.node.clone()).collect())
}

fn advise(m: &Metadata, c: &MetaCommand) -> Advice {
    Advice {
        schema_valid: m.schema_to_validate(c).map_or(true, |s| well_formed(&s)),
        selection: m
            .placement_question(c)
            .and_then(|(candidates, policy)| select_replicas(&candidates, &policy)),
    }
}

/// Applies commands with the advice that the rest of the system would give.
trait Driver {
    fn run(&mut self, c: &MetaCommand) -> ApplyOutcome;
}

impl Driver for Metadata {
    fn run(&mut self, c: &MetaCommand) -> ApplyOutcome {
        let advice = advise(self, c);
        assert!(self.admits(c));
        self.apply(c, &advice)
    }
}

fn cas_addrs(suffix: u16) -> NodeAddrs {
    NodeAddrs {
        internal: format!("127.0.0.1:{}", 9300 + suffix),
        client: format!("127.0.0.1:{}", 9000 + suffix),
        admin: format!("127.0.0.1:{}", 9500 + suffix),
        intra: format!("127.0.0.1:{}", 9600 + suffix),
        role: "combined".to_string(),
    }
}

#[test]
fn register_cp_addr_records_updates_and_is_idempotent() {
    let mut m = Metadata::default();
    let reg = |id, addr: &str| MetaCommand::RegisterCpAddr {
        id,
        addr: addr.to_owned(),
        tablet: None,
    };

    assert_eq!(
        m.run(&reg(nid(301), "127.0.0.1:9001")),
        ApplyOutcome::Applied
    );
    assert_eq!(
        m.cp_member_addrs.get(&nid(301)).map(String::as_str),
        Some("127.0.0.1:9001")
    );

    assert_eq!(
        m.run(&reg(nid(301), "127.0.0.1:9001")),
        ApplyOutcome::NoOp
    );

    assert_eq!(
        m.run(&reg(nid(301), "127.0.0.1:9002")),
        ApplyOutcome::Applied
    );
    assert_eq!(
        m.cp_member_addrs.get(&nid(301)).map(String::as_str),
        Some("127.0.0.1:9002")
    );

    assert_eq!(
        m.run(&reg(nid(401), "127.0.0.1:9101")),
        ApplyOutcome::Applied
    );
    assert_eq!(m.cp_member_addrs.len(), 2);
}

#[test]
fn register_node_addrs_records_updates_and_is_idempotent() {
    let mut m = Metadata::default();
    let addrs = |suffix: u16| NodeAddrs {
        internal: format!("127.0.0.1:{}", 9300 + suffix),
        client: format!("127.0.0.1:{}", 9000 + suffix),
        admin: format!("127.0.0.1:{}", 9500 + suffix),
        intra: format!("127.0.0.1:{}", 9600 + suffix),
        role: "combined".to_string(),
    };
    for node in [300, 301] {
        m.run(&MetaCommand::UpsertMember {
            node: nid(node),
            labels: SortedMap::new(),
            status: NodeStatus::Active,
        });
    }

    assert_eq!(
        m.run(&MetaCommand::RegisterNodeAddrs {
            node: nid(300),
            addrs: addrs(0),
        }),
        ApplyOutcome::Applied
    );
    assert_eq!(m.node_addrs.get(&nid(300)), Some(&addrs(0)));

    assert_eq!(
        m.run(&MetaCommand::RegisterNodeAddrs {
            node: nid(300),
            addrs: addrs(0),
        }),
        ApplyOutcome::NoOp
    );

    assert_eq!(
        m.run(&MetaCommand::RegisterNodeAddrs {
            node: nid(300),
            addrs: addrs(1),
        }),
        ApplyOutcome::Applied
    );
    assert_eq!(m.node_addrs.get(&nid(300)), Some(&addrs(1)));

    assert_eq!(
        m.run(&MetaCommand::RegisterNodeAddrs {
            node: nid(301),
            addrs: addrs(2),
        }),
        ApplyOutcome::Applied
    );
    assert_eq!(m.node_addrs.len(), 2);
}

#[test]
fn register_node_addrs_records_the_role() {
    let mut m = Metadata::default();
    for (node, role) in [(0, "control"), (300, "data"), (301, "combined")] {
        m.run(&MetaCommand::UpsertMember {
            node: nid(node),
            labels: SortedMap::new(),
            status: NodeStatus::Active,
        });
        assert_eq!(
            m.run(&MetaCommand::RegisterNodeAddrs {
                node: nid(node),
                addrs: NodeAddrs {
                    internal: format!("127.0.0.1:{}", 9300 + node),
                    client: format!("127.0.0.1:{}", 9000 + node),
                    admin: format!("127.0.0.1:{}", 9500 + node),
                    intra: format!("127.0.0.1:{}", 9600 + node),
                    role: role.to_string(),
                },
            }),
            ApplyOutcome::Applied
        );
        assert_eq!(
            m.node_addrs.get(&nid(node)).map(|a| a.role.as_str()),
            Some(role)
        );
    }
}

#[test]
fn cp_member_addrs_are_pruned_when_their_tablet_leaves_the_map() {
    let commands = vec![
        MetaCommand::CreateTablet {
            tablet: TabletId(1),
            table: Some("users".to_owned()),
            range: KeyRange::whole(),
            replicas: vec![nid(1), nid(2), nid(3)],
        },
        MetaCommand::RegisterCpAddr {
            id: nid(1301),
            addr: "127.0.0.1:9301".to_owned(),
            tablet: Some(TabletId(1)),
        },
        MetaCommand::RegisterCpAddr {
            id: nid(1302),
            addr: "127.0.0.1:9302".to_owned(),
            tablet: Some(TabletId(1)),
        },
        MetaCommand::RegisterCpAddr {
            id: nid(301),
            addr: "127.0.0.1:9001".to_owned(),
            tablet: None,
        },
        MetaCommand::DropTableTablets {
            table: "users".to_owned(),
        },
    ];
    let replay = |cmds: &[MetaCommand]| {
        let mut m = Metadata::default();
        for c in cmds {
            m.run(c);
        }
        m
    };

    let m = replay(&commands);

    assert!(!m.cp_member_addrs.contains_key(&nid(1301)));
    assert!(!m.cp_member_addrs.contains_key(&nid(1302)));
    assert!(m.cp_member_tablets.is_empty());

    assert_eq!(
        m.cp_member_addrs.get(&nid(301)).map(String::as_str),
        Some("127.0.0.1:9001")
    );

    assert_eq!(replay(&commands), m);

    let mut m = m;
    assert_eq!(
        m.run(&MetaCommand::RegisterCpAddr {
            id: nid(1301),
            addr: "127.0.0.1:9301".to_owned(),
            tablet: Some(TabletId(1)),
        }),
        ApplyOutcome::Rejected("no such tablet for cp addr")
    );
    assert!(!m.cp_member_addrs.contains_key(&nid(1301)));
}

#[test]
fn remove_member_rejects_while_referenced_by_a_tablet() {
    let mut m = Metadata::default();
    m.run(&MetaCommand::UpsertMember {
        node: nid(301),
        labels: SortedMap::new(),
        status: NodeStatus::Leaving,
    });
    m.run(&MetaCommand::CreateTablet {
        tablet: TabletId(1),
        table: Some("users".to_owned()),
        range: KeyRange::whole(),
        replicas: vec![nid(300), nid(301), nid(302)],
    });
    assert_eq!(m.tablets_referencing(&nid(301)), 1);
    assert_eq!(
        m.run(&MetaCommand::RemoveMember { node: nid(301) }),
        ApplyOutcome::Rejected("still referenced by a tablet's replica set")
    );
    assert!(m.members.contains_key(&nid(301)));
}

#[test]
fn remove_member_rejects_while_active_or_joining() {
    for status in [NodeStatus::Active, NodeStatus::Joining] {
        let mut m = Metadata::default();
        m.run(&MetaCommand::UpsertMember {
            node: nid(301),
            labels: SortedMap::new(),
            status,
        });
        assert_eq!(
            m.run(&MetaCommand::RemoveMember { node: nid(301) }),
            ApplyOutcome::Rejected("not drained: member is Active or Joining"),
            "status {status:?} should block removal"
        );
        assert!(m.members.contains_key(&nid(301)));
    }
}

#[test]
fn remove_member_applies_after_drain_and_prunes_addrs_then_is_idempotent() {
    for status in [NodeStatus::Leaving, NodeStatus::Down] {
        let mut m = Metadata::default();
        m.run(&MetaCommand::UpsertMember {
            node: nid(301),
            labels: SortedMap::new(),
            status,
        });
        m.run(&MetaCommand::RegisterNodeAddrs {
            node: nid(301),
            addrs: NodeAddrs {
                internal: "127.0.0.1:9301".to_owned(),
                client: "127.0.0.1:9001".to_owned(),
                admin: "127.0.0.1:9501".to_owned(),
                intra: "127.0.0.1:9601".to_owned(),
                role: "combined".to_string(),
            },
        });
        m.run(&MetaCommand::RegisterCpAddr {
            id: nid(301),
            addr: "127.0.0.1:9301".to_owned(),
            tablet: None,
        });
        assert_eq!(m.tablets_referencing(&nid(301)), 0);

        assert_eq!(
            m.run(&MetaCommand::RemoveMember { node: nid(301) }),
            ApplyOutcome::Applied,
            "status {status:?} should allow removal"
        );
        assert!(!m.members.contains_key(&nid(301)));
        assert!(!m.node_addrs.contains_key(&nid(301)));
        assert!(!m.cp_member_addrs.contains_key(&nid(301)));
        assert!(!m.cp_member_tablets.contains_key(&nid(301)));

        assert_eq!(
            m.run(&MetaCommand::RemoveMember { node: nid(301) }),
            ApplyOutcome::NoOp
        );
    }
}

#[test]
fn remove_member_prunes_a_claim_without_a_members_row() {
    let mut m = Metadata::default();
    m.run(&MetaCommand::RegisterNode {
        node: nid(301),
        addrs: NodeAddrs {
            internal: "127.0.0.1:9301".to_owned(),
            client: "127.0.0.1:9001".to_owned(),
            admin: "127.0.0.1:9501".to_owned(),
            intra: "127.0.0.1:9601".to_owned(),
            role: "control".to_string(),
        },
        labels: SortedMap::new(),
    });
    assert!(m.node_addrs.contains_key(&nid(301)));
    assert!(
        !m.members.contains_key(&nid(301)),
        "test premise: a control-role registration never claims `members`"
    );

    assert_eq!(
        m.run(&MetaCommand::RemoveMember { node: nid(301) }),
        ApplyOutcome::Applied
    );
    assert!(!m.node_addrs.contains_key(&nid(301)));

    assert_eq!(
        m.run(&MetaCommand::RemoveMember { node: nid(301) }),
        ApplyOutcome::NoOp
    );
}

#[test]
fn remove_member_never_removes_a_member_that_activated_first_regardless_of_proposal_order() {
    let mut m = Metadata::default();
    m.run(&MetaCommand::UpsertMember {
        node: nid(301),
        labels: SortedMap::new(),
        status: NodeStatus::Down,
    });
    assert_eq!(
        m.run(&MetaCommand::UpsertMember {
            node: nid(301),
            labels: SortedMap::new(),
            status: NodeStatus::Active,
        }),
        ApplyOutcome::Applied
    );
    assert_eq!(
        m.run(&MetaCommand::RemoveMember { node: nid(301) }),
        ApplyOutcome::Rejected("not drained: member is Active or Joining"),
        "a stale removal proposal must never remove an already-Active member"
    );
    assert!(m.members.contains_key(&nid(301)));
    assert_eq!((*m.members.get(&nid(301)).unwrap()).status, NodeStatus::Active);

    let mut m2 = Metadata::default();
    m2.run(&MetaCommand::UpsertMember {
        node: nid(301),
        labels: SortedMap::new(),
        status: NodeStatus::Down,
    });
    assert_eq!(
        m2.run(&MetaCommand::RemoveMember { node: nid(301) }),
        ApplyOutcome::Applied
    );
    assert!(!m2.members.contains_key(&nid(301)));
}

#[test]
fn has_activated_is_sticky_once_the_member_is_ever_active() {
    let mut m = Metadata::default();

    m.run(&MetaCommand::UpsertMember {
        node: nid(301),
        labels: SortedMap::new(),
        status: NodeStatus::Active,
    });
    assert!((*m.members.get(&nid(301)).unwrap()).has_activated);

    m.run(&MetaCommand::UpsertMember {
        node: nid(301),
        labels: SortedMap::new(),
        status: NodeStatus::Down,
    });
    assert!((*m.members.get(&nid(301)).unwrap()).has_activated);

    m.run(&MetaCommand::UpsertMember {
        node: nid(302),
        labels: SortedMap::new(),
        status: NodeStatus::Down,
    });
    assert!(!(*m.members.get(&nid(302)).unwrap()).has_activated);
}

#[test]
fn orphan_sweep_candidates_covers_both_shapes_and_every_exclusion() {
    let mut m = Metadata::default();

    m.run(&MetaCommand::RegisterNode {
        node: nid(900),
        addrs: NodeAddrs {
            internal: "127.0.0.1:9900".to_owned(),
            client: "127.0.0.1:9000".to_owned(),
            admin: "127.0.0.1:9950".to_owned(),
            intra: "127.0.0.1:9960".to_owned(),
            role: "combined".to_string(),
        },
        labels: SortedMap::new(),
    });

    m.run(&MetaCommand::RegisterNode {
        node: nid(901),
        addrs: NodeAddrs {
            internal: "127.0.0.1:9901".to_owned(),
            client: "127.0.0.1:9001".to_owned(),
            admin: "127.0.0.1:9951".to_owned(),
            intra: "127.0.0.1:9961".to_owned(),
            role: "control".to_string(),
        },
        labels: SortedMap::new(),
    });

    m.run(&MetaCommand::UpsertMember {
        node: nid(902),
        labels: SortedMap::new(),
        status: NodeStatus::Active,
    });
    m.run(&MetaCommand::UpsertMember {
        node: nid(902),
        labels: SortedMap::new(),
        status: NodeStatus::Down,
    });
    m.run(&MetaCommand::RegisterNodeAddrs {
        node: nid(902),
        addrs: NodeAddrs {
            internal: "127.0.0.1:9902".to_owned(),
            client: "127.0.0.1:9002".to_owned(),
            admin: "127.0.0.1:9952".to_owned(),
            intra: "127.0.0.1:9962".to_owned(),
            role: "combined".to_string(),
        },
    });

    m.run(&MetaCommand::RegisterNode {
        node: nid(903),
        addrs: NodeAddrs {
            internal: "127.0.0.1:9903".to_owned(),
            client: "127.0.0.1:9003".to_owned(),
            admin: "127.0.0.1:9953".to_owned(),
            intra: "127.0.0.1:9963".to_owned(),
            role: "combined".to_string(),
        },
        labels: SortedMap::new(),
    });
    m.run(&MetaCommand::CreateTablet {
        tablet: TabletId(1),
        table: Some("users".to_owned()),
        range: KeyRange::whole(),
        replicas: vec![nid(903)],
    });

    m.run(&MetaCommand::UpsertMember {
        node: nid(904),
        labels: SortedMap::new(),
        status: NodeStatus::Down,
    });

    let candidates = m.orphan_sweep_candidates();
    assert!(candidates.contains(&nid(900)), "shape 1 missing");
    assert!(candidates.contains(&nid(901)), "shape 2 missing");
    assert!(
        !candidates.contains(&nid(902)),
        "activated-then-down member must never be a candidate"
    );
    assert!(
        !candidates.contains(&nid(903)),
        "tablet-referenced claim must never be a candidate"
    );
    assert!(candidates.contains(&nid(904)), "shape 3 missing");
}

#[test]
fn register_node_claims_an_unclaimed_id_with_member_and_addrs_atomically() {
    let mut m = Metadata::default();
    let mut labels = SortedMap::new();
    labels.insert("region".to_owned(), "eu-west".to_owned());

    assert_eq!(
        m.run(&MetaCommand::RegisterNode {
            node: nid(900),
            addrs: cas_addrs(0),
            labels: labels.clone(),
        }),
        ApplyOutcome::Applied
    );
    let member = m.members.get(&nid(900)).expect("member registered");
    assert_eq!(member.status, NodeStatus::Down);
    assert_eq!(member.labels, labels);
    assert_eq!(m.node_addrs.get(&nid(900)), Some(&cas_addrs(0)));
}

#[test]
fn register_node_rejects_a_different_registration_for_a_claimed_id_then_a_distinct_id_succeeds()
{
    let mut m = Metadata::default();
    assert_eq!(
        m.run(&MetaCommand::RegisterNode {
            node: nid(901),
            addrs: cas_addrs(1),
            labels: SortedMap::new(),
        }),
        ApplyOutcome::Applied
    );
    let before = m.clone();

    assert_eq!(
        m.run(&MetaCommand::RegisterNode {
            node: nid(901),
            addrs: cas_addrs(2),
            labels: SortedMap::new(),
        }),
        ApplyOutcome::Rejected("node id already claimed by a different registration")
    );
    assert_eq!(m, before, "a rejected collision must mutate nothing");

    let mut other_labels = SortedMap::new();
    other_labels.insert("region".to_owned(), "eu-west".to_owned());
    assert_eq!(
        m.run(&MetaCommand::RegisterNode {
            node: nid(901),
            addrs: cas_addrs(1),
            labels: other_labels,
        }),
        ApplyOutcome::NoOp
    );
    assert_eq!(
        m, before,
        "a labels-only mismatch must mutate nothing either"
    );

    assert_eq!(
        m.run(&MetaCommand::RegisterNode {
            node: nid(902),
            addrs: cas_addrs(2),
            labels: SortedMap::new(),
        }),
        ApplyOutcome::Applied
    );
    assert!(m.members.contains_key(&nid(901)) && m.members.contains_key(&nid(902)));
}

#[test]
fn register_node_identical_replay_is_idempotent() {
    let mut m = Metadata::default();
    let mut labels = SortedMap::new();
    labels.insert("az".to_owned(), "eu-west-1a".to_owned());
    let cmd = MetaCommand::RegisterNode {
        node: nid(903),
        addrs: cas_addrs(3),
        labels: labels.clone(),
    };
    assert_eq!(m.run(&cmd), ApplyOutcome::Applied);
    let after_first = m.clone();

    assert_eq!(m.run(&cmd), ApplyOutcome::NoOp);
    assert_eq!(m, after_first, "an identical replay must mutate nothing");
}

#[test]
fn register_node_agrees_with_a_claim_established_by_upsert_member_and_register_node_addrs() {
    let mut m = Metadata::default();
    let mut labels = SortedMap::new();
    labels.insert("region".to_owned(), "eu-west".to_owned());
    m.run(&MetaCommand::UpsertMember {
        node: nid(904),
        labels: labels.clone(),
        status: NodeStatus::Active,
    });
    m.run(&MetaCommand::RegisterNodeAddrs {
        node: nid(904),
        addrs: cas_addrs(4),
    });

    assert_eq!(
        m.run(&MetaCommand::RegisterNode {
            node: nid(904),
            addrs: cas_addrs(4),
            labels,
        }),
        ApplyOutcome::NoOp
    );
}

#[test]
fn register_node_claims_an_address_for_a_member_already_claimed_without_one() {
    let mut m = Metadata::default();
    let mut labels = SortedMap::new();
    labels.insert("region".to_owned(), "eu-west".to_owned());

    m.run(&MetaCommand::UpsertMember {
        node: nid(905),
        labels: labels.clone(),
        status: NodeStatus::Down,
    });
    assert!(!m.node_addrs.contains_key(&nid(905)));

    assert_eq!(
        m.run(&MetaCommand::RegisterNode {
            node: nid(905),
            addrs: cas_addrs(5),
            labels: SortedMap::new(),
        }),
        ApplyOutcome::Applied
    );
    assert_eq!(m.node_addrs.get(&nid(905)), Some(&cas_addrs(5)));

    let member = m.members.get(&nid(905)).expect("member still present");
    assert_eq!(
        member.labels, labels,
        "RegisterNode must never overwrite labels a different command already set"
    );
    assert_eq!(member.status, NodeStatus::Down);
}

#[test]
fn register_node_never_claims_membership_for_a_control_role_registration() {
    let mut m = Metadata::default();
    let control_addrs = NodeAddrs {
        internal: "127.0.0.1:9906".to_string(),
        client: "127.0.0.1:9006".to_string(),
        admin: "127.0.0.1:9506".to_string(),
        intra: "127.0.0.1:9606".to_string(),
        role: "control".to_string(),
    };
    assert_eq!(
        m.run(&MetaCommand::RegisterNode {
            node: nid(906),
            addrs: control_addrs.clone(),
            labels: SortedMap::new(),
        }),
        ApplyOutcome::Applied
    );
    assert_eq!(m.node_addrs.get(&nid(906)), Some(&control_addrs));
    assert!(
        !m.members.contains_key(&nid(906)),
        "a control-role registration must never create a members row"
    );

    assert_eq!(
        m.run(&MetaCommand::RegisterNode {
            node: nid(906),
            addrs: control_addrs,
            labels: SortedMap::new(),
        }),
        ApplyOutcome::NoOp
    );
    assert!(!m.members.contains_key(&nid(906)));
}

#[test]
fn register_node_addrs_repairs_a_control_only_registration_without_ever_colliding() {
    let mut m = Metadata::default();
    let original = NodeAddrs {
        internal: "127.0.0.1:9907".to_string(),
        client: "127.0.0.1:9007".to_string(),
        admin: "127.0.0.1:9507".to_string(),
        intra: "127.0.0.1:9607".to_string(),
        role: "control".to_string(),
    };
    assert_eq!(
        m.run(&MetaCommand::RegisterNode {
            node: nid(907),
            addrs: original.clone(),
            labels: SortedMap::new(),
        }),
        ApplyOutcome::Applied
    );
    assert!(
        !m.members.contains_key(&nid(907)),
        "test premise: a control-only registration must never claim membership"
    );

    let mut repaired = original.clone();
    repaired.internal = "127.0.0.1:9999".to_string();
    assert_eq!(
        m.run(&MetaCommand::RegisterNodeAddrs {
            node: nid(907),
            addrs: repaired.clone(),
        }),
        ApplyOutcome::Applied,
        "RegisterNodeAddrs must repair an existing control-only entry, never collide"
    );
    assert_eq!(m.node_addrs.get(&nid(907)), Some(&repaired));
    assert!(!m.members.contains_key(&nid(907)));

    assert_eq!(
        m.run(&MetaCommand::RegisterNodeAddrs {
            node: nid(907),
            addrs: repaired,
        }),
        ApplyOutcome::NoOp
    );
}

#[test]
fn register_node_addrs_rejects_an_unclaimed_id() {
    let mut m = Metadata::default();
    assert_eq!(
        m.run(&MetaCommand::RegisterNodeAddrs {
            node: nid(905),
            addrs: cas_addrs(5),
        }),
        ApplyOutcome::Rejected(
            "node id not yet a registered member — register it via \
             MetaCommand::RegisterNode first"
        )
    );
    assert!(!m.node_addrs.contains_key(&nid(905)));
}
