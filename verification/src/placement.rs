//! Where replicas belong: which tablets the planner is asked about, with which inputs, and which
//! commands its answers become.
use crate::command::MetaCommand;
use crate::ids::{Epoch, NodeId, TabletId};
use crate::meta::{Metadata, MetadataModel};
use crate::policy::{Candidate, CandidateModel, PlacementPolicy, PlacementPolicyModel};
use crate::rows::{Member, MemberModel, NodeStatus, SplitPlacing, SplitPlacingModel};
use crate::sorted_map::{
    in_order, listing, lists, select_done, select_none, select_step, selected, SortedMap,
    SortedSet,
};
use crate::tablet::{Tablet, TabletModel, TabletState};
use crate::value::Value;
use vstd::prelude::*;

verus! {

/// The part of the metadata that placement reads.
#[derive(Debug, PartialEq, Eq)]
pub struct PlacementView {
    /// Cluster membership.
    pub members: SortedMap<NodeId, Member>,
    /// The tablet map.
    pub tablets: SortedMap<TabletId, Tablet>,
    /// The placement policies of the tablets that have one.
    pub policies: SortedMap<TabletId, PlacementPolicy>,
    /// The placement obligations of split children.
    pub split_placing: SortedMap<TabletId, SplitPlacing>,
}

/// The mathematical value of a [`PlacementView`].
#[verifier::ext_equal]
pub struct PlacementViewModel {
    pub members: Map<Seq<char>, MemberModel>,
    pub tablets: Map<TabletId, TabletModel>,
    pub policies: Map<TabletId, PlacementPolicyModel>,
    pub split_placing: Map<TabletId, SplitPlacingModel>,
}

impl DeepView for PlacementView {
    type V = PlacementViewModel;

    open spec fn deep_view(&self) -> PlacementViewModel {
        PlacementViewModel {
            members: self.members.deep_view(),
            tablets: self.tablets.deep_view(),
            policies: self.policies.deep_view(),
            split_placing: self.split_placing.deep_view(),
        }
    }
}

impl Value for PlacementView {
    fn dup(&self) -> (r: Self) {
        PlacementView {
            members: self.members.dup(),
            tablets: self.tablets.dup(),
            policies: self.policies.dup(),
            split_placing: self.split_placing.dup(),
        }
    }

    fn same(&self, other: &Self) -> (b: bool) {
        self.members.same(&other.members)
            && self.tablets.same(&other.tablets)
            && self.policies.same(&other.policies)
            && self.split_placing.same(&other.split_placing)
    }
}

impl Clone for PlacementView {
    fn clone(&self) -> (r: Self)
        ensures
            r.deep_view() == self.deep_view(),
    {
        self.dup()
    }
}

/// A tablet that the planner may move: where it stands and the policy that it is held to.
#[derive(Debug, PartialEq, Eq)]
pub struct PlacementEntry {
    /// The tablet.
    pub tablet: TabletId,
    /// Its current replica set.
    pub replicas: Vec<NodeId>,
    /// Its policy.
    pub policy: PlacementPolicy,
}

/// The mathematical value of a [`PlacementEntry`].
#[verifier::ext_equal]
pub struct PlacementEntryModel {
    pub tablet: TabletId,
    pub replicas: Seq<Seq<char>>,
    pub policy: PlacementPolicyModel,
}

impl DeepView for PlacementEntry {
    type V = PlacementEntryModel;

    open spec fn deep_view(&self) -> PlacementEntryModel {
        PlacementEntryModel {
            tablet: self.tablet,
            replicas: self.replicas.deep_view(),
            policy: self.policy.deep_view(),
        }
    }
}

impl Value for PlacementEntry {
    fn dup(&self) -> (r: Self) {
        PlacementEntry {
            tablet: self.tablet,
            replicas: self.replicas.dup(),
            policy: self.policy.dup(),
        }
    }

    fn same(&self, other: &Self) -> (b: bool) {
        self.tablet == other.tablet
            && self.replicas.same(&other.replicas)
            && self.policy.same(&other.policy)
    }
}

impl Clone for PlacementEntry {
    fn clone(&self) -> (r: Self)
        ensures
            r.deep_view() == self.deep_view(),
    {
        self.dup()
    }
}

/// A split child whose placement the planner has to work out anew.
#[derive(Debug, PartialEq, Eq)]
pub struct PlacingQuestion {
    /// The split child.
    pub tablet: TabletId,
    /// The placement to repair, keeping what is alive; `None` to select one from nothing.
    pub current: Option<Vec<NodeId>>,
    /// The child's policy.
    pub policy: PlacementPolicy,
}

/// The mathematical value of a [`PlacingQuestion`].
#[verifier::ext_equal]
pub struct PlacingQuestionModel {
    pub tablet: TabletId,
    pub current: Option<Seq<Seq<char>>>,
    pub policy: PlacementPolicyModel,
}

impl DeepView for PlacingQuestion {
    type V = PlacingQuestionModel;

    open spec fn deep_view(&self) -> PlacingQuestionModel {
        PlacingQuestionModel {
            tablet: self.tablet,
            current: self.current.deep_view(),
            policy: self.policy.deep_view(),
        }
    }
}

impl Value for PlacingQuestion {
    fn dup(&self) -> (r: Self) {
        PlacingQuestion {
            tablet: self.tablet,
            current: self.current.dup(),
            policy: self.policy.dup(),
        }
    }

    fn same(&self, other: &Self) -> (b: bool) {
        self.tablet == other.tablet
            && self.current.same(&other.current)
            && self.policy.same(&other.policy)
    }
}

impl Clone for PlacingQuestion {
    fn clone(&self) -> (r: Self)
        ensures
            r.deep_view() == self.deep_view(),
    {
        self.dup()
    }
}

/// A placement command, by its content.
#[verifier::ext_equal]
pub enum MoveModel {
    /// Replace the replica set.
    Cas { tablet: TabletId, expected_epoch: Epoch, replicas: Seq<Seq<char>> },
    /// Replace the placement that a split child is to reach.
    Retarget { tablet: TabletId, expected_epoch: Epoch, target: Option<Seq<Seq<char>>> },
}

/// The placement command that `c` is, if it is one.
pub open spec fn move_of(c: MetaCommand) -> Option<MoveModel> {
    match c {
        MetaCommand::CasTabletReplicas { tablet, expected_epoch, replicas } => Some(
            MoveModel::Cas { tablet, expected_epoch, replicas: replicas.deep_view() },
        ),
        MetaCommand::RetargetSplitPlacing { tablet, expected_epoch, target } => Some(
            MoveModel::Retarget { tablet, expected_epoch, target: target.deep_view() },
        ),
        _ => None,
    }
}

/// Whether the commands are exactly the placement commands `moves`, in that order.
pub open spec fn are_moves(commands: Seq<MetaCommand>, moves: Seq<MoveModel>) -> bool {
    &&& commands.len() == moves.len()
    &&& forall|i: int|
        0 <= i < commands.len() ==> move_of(#[trigger] commands[i]) == Some(moves[i])
}

/// The part of the metadata that placement reads.
pub open spec fn placement_part(m: MetadataModel) -> PlacementViewModel {
    PlacementViewModel {
        members: m.members,
        tablets: m.tablets,
        policies: m.policies,
        split_placing: m.split_placing,
    }
}

/// Whether a node is an active member.
pub open spec fn active(members: Map<Seq<char>, MemberModel>) -> spec_fn(Seq<char>) -> bool {
    |n: Seq<char>| members[n].status == NodeStatus::Active
}

/// The nodes that replicas may be placed on: the active members, in ascending order.
pub open spec fn candidates(members: Map<Seq<char>, MemberModel>) -> Seq<CandidateModel> {
    let nodes = listing::<NodeId>(members.dom().filter(active(members)));
    Seq::new(
        nodes.len(),
        |i: int| CandidateModel { node: nodes[i], labels: members[nodes[i]].labels },
    )
}

/// Whether a policied tablet may be moved: it serves, and no placement obligation of its own
/// is under way.
pub open spec fn movable(v: PlacementViewModel) -> spec_fn(TabletId) -> bool {
    |t: TabletId|
        {
            &&& v.tablets.contains_key(t)
            &&& v.tablets[t].state == TabletState::Active
            &&& v.split_placing.contains_key(t) ==> v.split_placing[t].done
        }
}

/// The tablets that the planner is asked about, in ascending order.
pub open spec fn entries(v: PlacementViewModel) -> Seq<PlacementEntryModel> {
    let ids = listing::<TabletId>(v.policies.dom().filter(movable(v)));
    Seq::new(
        ids.len(),
        |i: int|
            PlacementEntryModel {
                tablet: ids[i],
                replicas: v.tablets[ids[i]].replicas,
                policy: v.policies[ids[i]],
            },
    )
}

/// Whether a movable tablet stands elsewhere than the planner wants it.
pub open spec fn misplaced(
    v: PlacementViewModel,
    desired: Map<TabletId, Seq<Seq<char>>>,
) -> spec_fn(TabletId) -> bool {
    |t: TabletId|
        movable(v)(t) && desired.contains_key(t) && desired[t] != v.tablets[t].replicas
}

/// The commands that repair placement, given the replica sets that the planner wants; a tablet
/// without one is left where it is.
pub open spec fn repairs(
    v: PlacementViewModel,
    desired: Map<TabletId, Seq<Seq<char>>>,
) -> Seq<MoveModel> {
    let ids = listing::<TabletId>(v.policies.dom().filter(misplaced(v, desired)));
    Seq::new(
        ids.len(),
        |i: int|
            MoveModel::Cas {
                tablet: ids[i],
                expected_epoch: v.tablets[ids[i]].epoch,
                replicas: desired[ids[i]],
            },
    )
}

/// The command that a balancing step becomes: a step of a tablet that is gone becomes none.
pub open spec fn balancing(
    v: PlacementViewModel,
    step: Option<(TabletId, Seq<Seq<char>>)>,
) -> Option<MoveModel> {
    match step {
        Some((tablet, replicas)) => if v.tablets.contains_key(tablet) {
            Some(
                MoveModel::Cas { tablet, expected_epoch: v.tablets[tablet].epoch, replicas },
            )
        } else {
            None
        },
        None => None,
    }
}

/// Whether every one of `nodes` is an active member.
pub open spec fn all_active(members: Map<Seq<char>, MemberModel>, nodes: Seq<Seq<char>>) -> bool {
    forall|i: int|
        0 <= i < nodes.len() ==> members.contains_key(#[trigger] nodes[i])
            && members[nodes[i]].status == NodeStatus::Active
}

/// Whether a split child still has a placement to reach, and a policy to reach it by.
pub open spec fn unplaced(v: PlacementViewModel, t: TabletId) -> bool {
    &&& v.split_placing.contains_key(t)
    &&& !v.split_placing[t].done
    &&& v.tablets.contains_key(t)
    &&& v.policies.contains_key(t)
}

/// What the planner is asked about an unplaced child, if anything: a child without a target
/// always, one whose target has lost a member only once `ready` holds it.
pub open spec fn question_of(
    v: PlacementViewModel,
    ready: Set<TabletId>,
    t: TabletId,
) -> Option<PlacingQuestionModel> {
    if !unplaced(v, t) {
        None
    } else {
        match v.split_placing[t].target {
            Some(target) => if !all_active(v.members, target) && ready.contains(t) {
                Some(
                    PlacingQuestionModel {
                        tablet: t,
                        current: Some(target),
                        policy: v.policies[t],
                    },
                )
            } else {
                None
            },
            None => Some(
                PlacingQuestionModel { tablet: t, current: None, policy: v.policies[t] },
            ),
        }
    }
}

/// Whether the planner is asked about a split child.
pub open spec fn asked(v: PlacementViewModel, ready: Set<TabletId>) -> spec_fn(TabletId) -> bool {
    |t: TabletId| question_of(v, ready, t) is Some
}

/// What the planner is asked about the split children, in ascending order.
pub open spec fn questions(v: PlacementViewModel, ready: Set<TabletId>) -> Seq<
    PlacingQuestionModel,
> {
    let ids = listing::<TabletId>(v.split_placing.dom().filter(asked(v, ready)));
    Seq::new(ids.len(), |i: int| question_of(v, ready, ids[i])->0)
}

/// The command for an unplaced child, if there is one. A target whose members are all active is
/// driven to as it stands; one that lost a member waits until the planner is asked, and a new
/// answer replaces the target first.
pub open spec fn placing_move(
    v: PlacementViewModel,
    ready: Set<TabletId>,
    answers: Map<TabletId, Seq<Seq<char>>>,
    t: TabletId,
) -> Option<MoveModel> {
    if !unplaced(v, t) {
        None
    } else {
        let expected_epoch = v.tablets[t].epoch;
        match v.split_placing[t].target {
            Some(target) => if all_active(v.members, target) {
                if target == v.tablets[t].replicas {
                    None
                } else {
                    Some(MoveModel::Cas { tablet: t, expected_epoch, replicas: target })
                }
            } else if ready.contains(t) && answers.contains_key(t) && answers[t] != target {
                Some(MoveModel::Retarget { tablet: t, expected_epoch, target: Some(answers[t]) })
            } else {
                None
            },
            None => if answers.contains_key(t) {
                Some(MoveModel::Retarget { tablet: t, expected_epoch, target: Some(answers[t]) })
            } else {
                None
            },
        }
    }
}

/// Whether there is a command for a split child.
pub open spec fn moved(
    v: PlacementViewModel,
    ready: Set<TabletId>,
    answers: Map<TabletId, Seq<Seq<char>>>,
) -> spec_fn(TabletId) -> bool {
    |t: TabletId| placing_move(v, ready, answers, t) is Some
}

/// The commands for the split children, in ascending order, at most one for each.
pub open spec fn placing_moves(
    v: PlacementViewModel,
    ready: Set<TabletId>,
    answers: Map<TabletId, Seq<Seq<char>>>,
) -> Seq<MoveModel> {
    let ids = listing::<TabletId>(v.split_placing.dom().filter(moved(v, ready, answers)));
    Seq::new(ids.len(), |i: int| placing_move(v, ready, answers, ids[i])->0)
}

/// The active members, with their labels, in ascending order.
pub(crate) fn active_candidates(members: &SortedMap<NodeId, Member>) -> (r: Vec<Candidate>)
    ensures
        r.deep_view() == candidates(members@),
{
    let n: usize = members.len();
    let ghost keys = members.keys();
    let ghost p = active(members@);
    let ghost mut nodes: Seq<Seq<char>> = Seq::empty();
    let mut out: Vec<Candidate> = Vec::new();
    let mut i: usize = 0;
    proof {
        select_none::<NodeId>(keys, p);
    }
    while i < n
        invariant
            i <= n,
            n == keys.len(),
            keys == members.keys(),
            in_order(*members),
            p == active(members@),
            lists::<NodeId>(nodes, selected::<NodeId>(keys, i as int, p)),
            out.deep_view().len() == nodes.len(),
            forall|j: int|
                0 <= j < nodes.len() ==> #[trigger] out.deep_view()[j] == (CandidateModel {
                    node: nodes[j],
                    labels: members@[nodes[j]].labels,
                }),
        decreases n - i,
    {
        let node: &NodeId = members.key_at(i);
        let member: &Member = members.value_at(i);
        proof {
            select_step::<NodeId>(keys, i as int, p, nodes);
            assert(members@[keys[i as int]] == member.deep_view());
        }
        if member.status == NodeStatus::Active {
            let ghost before = out.deep_view();
            let candidate = Candidate::new(node.dup(), member.labels.dup());
            let ghost added = candidate.deep_view();
            out.push(candidate);
            proof {
                assert(out.deep_view() =~= before.push(added));
                nodes = nodes.push(keys[i as int]);
            }
        }
        i = i + 1;
    }
    proof {
        select_done::<NodeId>(keys, members@.dom(), p, nodes);
        assert(out.deep_view() =~= candidates(members@));
    }
    out
}

impl Metadata {
    /// The part of the metadata that placement reads.
    #[must_use]
    pub fn placement_view(&self) -> (r: PlacementView)
        ensures
            r.deep_view() == placement_part(self@),
    {
        PlacementView {
            members: self.members.dup(),
            tablets: self.tablets.dup(),
            policies: self.policies.dup(),
            split_placing: self.split_placing.dup(),
        }
    }

    /// See [`PlacementView::placement_candidates`].
    #[must_use]
    pub fn placement_candidates(&self) -> (r: Vec<Candidate>)
        ensures
            r.deep_view() == candidates(self@.members),
    {
        active_candidates(&self.members)
    }

    /// See [`PlacementView::placement_entries`].
    #[must_use]
    pub fn placement_entries(&self) -> (r: Vec<PlacementEntry>)
        ensures
            r.deep_view() == entries(placement_part(self@)),
    {
        self.placement_view().placement_entries()
    }

    /// See [`PlacementView::reconcile`].
    #[must_use]
    pub fn reconcile(&self, desired: &SortedMap<TabletId, Vec<NodeId>>) -> (r: Vec<MetaCommand>)
        ensures
            are_moves(r@, repairs(placement_part(self@), desired@)),
    {
        self.placement_view().reconcile(desired)
    }

    /// See [`PlacementView::rebalance`].
    #[must_use]
    pub fn rebalance(&self, step: &Option<(TabletId, Vec<NodeId>)>) -> (r: Option<MetaCommand>)
        ensures
            match r {
                Some(c) => move_of(c) is Some && move_of(c) == balancing(
                    placement_part(self@),
                    step.deep_view(),
                ),
                None => balancing(placement_part(self@), step.deep_view()) is None,
            },
    {
        self.placement_view().rebalance(step)
    }

    /// See [`PlacementView::placing_questions`].
    #[must_use]
    pub fn placing_questions(&self, retarget_ready: &SortedSet<TabletId>) -> (r: Vec<
        PlacingQuestion,
    >)
        ensures
            r.deep_view() == questions(placement_part(self@), retarget_ready@),
    {
        self.placement_view().placing_questions(retarget_ready)
    }

    /// See [`PlacementView::split_placing_reconcile`].
    #[must_use]
    pub fn split_placing_reconcile(
        &self,
        retarget_ready: &SortedSet<TabletId>,
        answers: &SortedMap<TabletId, Vec<NodeId>>,
    ) -> (r: Vec<MetaCommand>)
        ensures
            are_moves(r@, placing_moves(placement_part(self@), retarget_ready@, answers@)),
    {
        self.placement_view().split_placing_reconcile(retarget_ready, answers)
    }
}

impl PlacementView {
    /// The nodes that the planner may place replicas on.
    #[must_use]
    pub fn placement_candidates(&self) -> (r: Vec<Candidate>)
        ensures
            r.deep_view() == candidates(self.deep_view().members),
    {
        active_candidates(&self.members)
    }

    /// The tablet, if the planner may move it.
    fn movable_tablet(&self, tablet: &TabletId) -> (r: Option<&Tablet>)
        ensures
            match r {
                Some(t) => movable(self.deep_view())(*tablet) && t.deep_view()
                    == self.tablets@[*tablet],
                None => !movable(self.deep_view())(*tablet),
            },
    {
        match self.tablets.get(tablet) {
            None => None,
            Some(t) => {
                if t.state != TabletState::Active {
                    return None;
                }
                if let Some(entry) = self.split_placing.get(tablet) {
                    if !entry.done {
                        return None;
                    }
                }
                Some(t)
            },
        }
    }

    /// The tablets that the planner may move: for repair it is asked where each belongs, for
    /// balance it picks one of them.
    #[must_use]
    pub fn placement_entries(&self) -> (r: Vec<PlacementEntry>)
        ensures
            r.deep_view() == entries(self.deep_view()),
    {
        let n: usize = self.policies.len();
        let ghost v = self.deep_view();
        let ghost keys = self.policies.keys();
        let ghost p = movable(v);
        let ghost mut ids: Seq<TabletId> = Seq::empty();
        let mut out: Vec<PlacementEntry> = Vec::new();
        let mut i: usize = 0;
        proof {
            select_none::<TabletId>(keys, p);
        }
        while i < n
            invariant
                i <= n,
                n == keys.len(),
                keys == self.policies.keys(),
                in_order(self.policies),
                v == self.deep_view(),
                p == movable(v),
                lists::<TabletId>(ids, selected::<TabletId>(keys, i as int, p)),
                out.deep_view().len() == ids.len(),
                forall|j: int|
                    0 <= j < ids.len() ==> #[trigger] out.deep_view()[j] == (PlacementEntryModel {
                        tablet: ids[j],
                        replicas: v.tablets[ids[j]].replicas,
                        policy: v.policies[ids[j]],
                    }),
            decreases n - i,
        {
            let tablet: TabletId = *self.policies.key_at(i);
            let policy: &PlacementPolicy = self.policies.value_at(i);
            proof {
                select_step::<TabletId>(keys, i as int, p, ids);
                assert(self.policies@[keys[i as int]] == policy.deep_view());
            }
            if let Some(t) = self.movable_tablet(&tablet) {
                let ghost before = out.deep_view();
                let entry = PlacementEntry {
                    tablet,
                    replicas: t.replicas.dup(),
                    policy: policy.dup(),
                };
                let ghost added = entry.deep_view();
                out.push(entry);
                proof {
                    assert(out.deep_view() =~= before.push(added));
                    ids = ids.push(tablet);
                }
            }
            i = i + 1;
        }
        proof {
            select_done::<TabletId>(keys, self.policies@.dom(), p, ids);
            assert(out.deep_view() =~= entries(v));
        }
        out
    }

    /// The commands that bring every policied tablet to the replica set that the planner wants
    /// for it. `desired` holds the planner's answers for [`Self::placement_entries`]; a tablet
    /// whose policy it could not satisfy has none, and stays where it is.
    #[must_use]
    pub fn reconcile(&self, desired: &SortedMap<TabletId, Vec<NodeId>>) -> (r: Vec<MetaCommand>)
        ensures
            are_moves(r@, repairs(self.deep_view(), desired@)),
    {
        let n: usize = self.policies.len();
        let ghost v = self.deep_view();
        let ghost keys = self.policies.keys();
        let ghost p = misplaced(v, desired@);
        let ghost mut ids: Seq<TabletId> = Seq::empty();
        let mut out: Vec<MetaCommand> = Vec::new();
        let mut i: usize = 0;
        proof {
            select_none::<TabletId>(keys, p);
        }
        while i < n
            invariant
                i <= n,
                n == keys.len(),
                keys == self.policies.keys(),
                in_order(self.policies),
                v == self.deep_view(),
                p == misplaced(v, desired@),
                lists::<TabletId>(ids, selected::<TabletId>(keys, i as int, p)),
                out@.len() == ids.len(),
                forall|j: int|
                    0 <= j < ids.len() ==> move_of(#[trigger] out@[j]) == Some(
                        MoveModel::Cas {
                            tablet: ids[j],
                            expected_epoch: v.tablets[ids[j]].epoch,
                            replicas: desired@[ids[j]],
                        },
                    ),
            decreases n - i,
        {
            let tablet: TabletId = *self.policies.key_at(i);
            proof {
                select_step::<TabletId>(keys, i as int, p, ids);
            }
            if let Some(t) = self.movable_tablet(&tablet) {
                if let Some(wanted) = desired.get(&tablet) {
                    if !wanted.same(&t.replicas) {
                        out.push(
                            MetaCommand::CasTabletReplicas {
                                tablet,
                                expected_epoch: t.epoch,
                                replicas: wanted.dup(),
                            },
                        );
                        proof {
                            ids = ids.push(tablet);
                        }
                    }
                }
            }
            i = i + 1;
        }
        proof {
            select_done::<TabletId>(keys, self.policies@.dom(), p, ids);
        }
        out
    }

    /// The command that a balancing step of the planner becomes: at most one move per call.
    #[must_use]
    pub fn rebalance(&self, step: &Option<(TabletId, Vec<NodeId>)>) -> (r: Option<MetaCommand>)
        ensures
            match r {
                Some(c) => move_of(c) is Some && move_of(c) == balancing(
                    self.deep_view(),
                    step.deep_view(),
                ),
                None => balancing(self.deep_view(), step.deep_view()) is None,
            },
    {
        match step {
            None => None,
            Some(moved) => {
                assert(step.deep_view() == Some((moved.0, moved.1.deep_view())));
                match self.tablets.get(&moved.0) {
                    None => None,
                    Some(t) => Some(
                        MetaCommand::CasTabletReplicas {
                            tablet: moved.0,
                            expected_epoch: t.epoch,
                            replicas: moved.1.dup(),
                        },
                    ),
                }
            },
        }
    }

    /// Whether every one of `nodes` is an active member.
    fn all_active(&self, nodes: &Vec<NodeId>) -> (b: bool)
        ensures
            b == all_active(self.deep_view().members, nodes.deep_view()),
    {
        let ghost all = nodes.deep_view();
        let mut i: usize = 0;
        while i < nodes.len()
            invariant
                i <= nodes@.len(),
                all == nodes.deep_view(),
                all.len() == nodes@.len(),
                forall|j: int|
                    0 <= j < i ==> self.members@.contains_key(#[trigger] all[j])
                        && self.members@[all[j]].status == NodeStatus::Active,
            decreases nodes@.len() - i,
        {
            assert(all[i as int] == nodes@[i as int].deep_view());
            match self.members.get(&nodes[i]) {
                None => {
                    return false;
                },
                Some(member) => {
                    if member.status != NodeStatus::Active {
                        return false;
                    }
                },
            }
            i = i + 1;
        }
        true
    }

    /// What the planner is asked about one split child.
    fn placing_question(&self, retarget_ready: &SortedSet<TabletId>, child: TabletId) -> (r: Option<
        PlacingQuestion,
    >)
        ensures
            r.deep_view() == question_of(self.deep_view(), retarget_ready@, child),
    {
        let entry: &SplitPlacing = match self.split_placing.get(&child) {
            None => {
                return None;
            },
            Some(entry) => entry,
        };
        if entry.done || !self.tablets.contains_key(&child) {
            return None;
        }
        match self.policies.get(&child) {
            None => None,
            Some(policy) => match &entry.target {
                Some(target) => {
                    if !self.all_active(target) && retarget_ready.contains(&child) {
                        Some(
                            PlacingQuestion {
                                tablet: child,
                                current: Some(target.dup()),
                                policy: policy.dup(),
                            },
                        )
                    } else {
                        None
                    }
                },
                None => Some(
                    PlacingQuestion { tablet: child, current: None, policy: policy.dup() },
                ),
            },
        }
    }

    /// The split children whose placement the planner has to work out before
    /// [`Self::split_placing_reconcile`] can go on. `retarget_ready` holds the children of whose
    /// target a member has been down for long enough.
    #[must_use]
    pub fn placing_questions(&self, retarget_ready: &SortedSet<TabletId>) -> (r: Vec<
        PlacingQuestion,
    >)
        ensures
            r.deep_view() == questions(self.deep_view(), retarget_ready@),
    {
        let n: usize = self.split_placing.len();
        let ghost v = self.deep_view();
        let ghost keys = self.split_placing.keys();
        let ghost p = asked(v, retarget_ready@);
        let ghost mut ids: Seq<TabletId> = Seq::empty();
        let mut out: Vec<PlacingQuestion> = Vec::new();
        let mut i: usize = 0;
        proof {
            select_none::<TabletId>(keys, p);
        }
        while i < n
            invariant
                i <= n,
                n == keys.len(),
                keys == self.split_placing.keys(),
                in_order(self.split_placing),
                v == self.deep_view(),
                p == asked(v, retarget_ready@),
                lists::<TabletId>(ids, selected::<TabletId>(keys, i as int, p)),
                out.deep_view().len() == ids.len(),
                forall|j: int|
                    0 <= j < ids.len() ==> #[trigger] out.deep_view()[j] == question_of(
                        v,
                        retarget_ready@,
                        ids[j],
                    )->0,
            decreases n - i,
        {
            let child: TabletId = *self.split_placing.key_at(i);
            proof {
                select_step::<TabletId>(keys, i as int, p, ids);
            }
            if let Some(question) = self.placing_question(retarget_ready, child) {
                let ghost before = out.deep_view();
                let ghost added = question.deep_view();
                out.push(question);
                proof {
                    assert(out.deep_view() =~= before.push(added));
                    ids = ids.push(child);
                }
            }
            i = i + 1;
        }
        proof {
            select_done::<TabletId>(keys, self.split_placing@.dom(), p, ids);
            assert(out.deep_view() =~= questions(v, retarget_ready@));
        }
        out
    }

    /// The command for one split child.
    fn placing_command(
        &self,
        retarget_ready: &SortedSet<TabletId>,
        answers: &SortedMap<TabletId, Vec<NodeId>>,
        child: TabletId,
    ) -> (r: Option<MetaCommand>)
        ensures
            match r {
                Some(c) => move_of(c) is Some && move_of(c) == placing_move(
                    self.deep_view(),
                    retarget_ready@,
                    answers@,
                    child,
                ),
                None => placing_move(self.deep_view(), retarget_ready@, answers@, child) is None,
            },
    {
        let entry: &SplitPlacing = match self.split_placing.get(&child) {
            None => {
                return None;
            },
            Some(entry) => entry,
        };
        if entry.done || !self.policies.contains_key(&child) {
            return None;
        }
        let t: &Tablet = match self.tablets.get(&child) {
            None => {
                return None;
            },
            Some(t) => t,
        };
        match &entry.target {
            Some(target) => {
                if self.all_active(target) {
                    if target.same(&t.replicas) {
                        return None;
                    }
                    return Some(
                        MetaCommand::CasTabletReplicas {
                            tablet: child,
                            expected_epoch: t.epoch,
                            replicas: target.dup(),
                        },
                    );
                }
                if !retarget_ready.contains(&child) {
                    return None;
                }
                match answers.get(&child) {
                    None => None,
                    Some(fresh) => {
                        if fresh.same(target) {
                            return None;
                        }
                        Some(
                            MetaCommand::RetargetSplitPlacing {
                                tablet: child,
                                expected_epoch: t.epoch,
                                target: Some(fresh.dup()),
                            },
                        )
                    },
                }
            },
            None => match answers.get(&child) {
                None => None,
                Some(fresh) => Some(
                    MetaCommand::RetargetSplitPlacing {
                        tablet: child,
                        expected_epoch: t.epoch,
                        target: Some(fresh.dup()),
                    },
                ),
            },
        }
    }

    /// The commands that bring the split children to their placement. `answers` holds the
    /// planner's answers for [`Self::placing_questions`]; a child whose policy it could not
    /// satisfy has none, and is asked about again.
    #[must_use]
    pub fn split_placing_reconcile(
        &self,
        retarget_ready: &SortedSet<TabletId>,
        answers: &SortedMap<TabletId, Vec<NodeId>>,
    ) -> (r: Vec<MetaCommand>)
        ensures
            are_moves(r@, placing_moves(self.deep_view(), retarget_ready@, answers@)),
    {
        let n: usize = self.split_placing.len();
        let ghost v = self.deep_view();
        let ghost keys = self.split_placing.keys();
        let ghost p = moved(v, retarget_ready@, answers@);
        let ghost mut ids: Seq<TabletId> = Seq::empty();
        let mut out: Vec<MetaCommand> = Vec::new();
        let mut i: usize = 0;
        proof {
            select_none::<TabletId>(keys, p);
        }
        while i < n
            invariant
                i <= n,
                n == keys.len(),
                keys == self.split_placing.keys(),
                in_order(self.split_placing),
                v == self.deep_view(),
                p == moved(v, retarget_ready@, answers@),
                lists::<TabletId>(ids, selected::<TabletId>(keys, i as int, p)),
                out@.len() == ids.len(),
                forall|j: int|
                    0 <= j < ids.len() ==> move_of(#[trigger] out@[j]) == Some(
                        placing_move(v, retarget_ready@, answers@, ids[j])->0,
                    ),
            decreases n - i,
        {
            let child: TabletId = *self.split_placing.key_at(i);
            proof {
                select_step::<TabletId>(keys, i as int, p, ids);
            }
            if let Some(command) = self.placing_command(retarget_ready, answers, child) {
                out.push(command);
                proof {
                    ids = ids.push(child);
                }
            }
            i = i + 1;
        }
        proof {
            select_done::<TabletId>(keys, self.split_placing@.dom(), p, ids);
        }
        out
    }
}

} // verus!
