//! What holds of every state that commands lead to from a fresh cluster.
use crate::advice::AdviceModel;
use crate::apply::{can_apply, step};
use crate::command::{ApplyOutcome, MetaCommand};
use crate::entity::{addressed, installed};
use crate::guard::lineage_rises;
use crate::ids::TabletId;
use crate::laws::{
    catalogs_begin_finite, catalogs_stay_finite, only_applied_commands_change_the_state,
};
use crate::lineage::acyclic;
use crate::meta::{empty_metadata, finite, MetadataModel};
use crate::mirror::{can_mirror, mirror_writes};
use crate::mirror_laws::{
    history, members_stay_addressed, replaying_the_mirror_applies_the_command,
};
use crate::split_laws::{
    ids_begin_unique, ids_stay_unique, ids_unique, promised, the_next_free_id_is_fresh,
    the_next_free_id_never_falls, unique_ids_bound_the_lineage,
};
use crate::tablet_map::{below_floor, ids_bounded, is_next_free};
use vstd::prelude::*;

verus! {

/// The state that commands lead to from a fresh cluster.
pub open spec fn reached(cs: Seq<(MetaCommand, AdviceModel)>) -> MetadataModel {
    history(empty_metadata(), cs)
}

/// Whether each command of a history could be applied to the state that it met.
pub open spec fn applicable(cs: Seq<(MetaCommand, AdviceModel)>) -> bool
    decreases cs.len(),
{
    cs.len() == 0 || (applicable(cs.drop_last()) && can_apply(
        reached(cs.drop_last()),
        cs.last().0,
    ))
}

/// Every reachable state is sound: its catalogs are finite, every member with a tablet has an
/// address, no tablet id was used twice, and the split lineage rises.
pub proof fn a_reachable_state_is_sound(cs: Seq<(MetaCommand, AdviceModel)>)
    requires
        applicable(cs),
    ensures
        finite(reached(cs)),
        addressed(reached(cs)),
        ids_unique(reached(cs)),
        ids_bounded(reached(cs)),
        lineage_rises(reached(cs)),
        acyclic(reached(cs).split_lineage),
    decreases cs.len(),
{
    if cs.len() == 0 {
        catalogs_begin_finite();
        ids_begin_unique();
    } else {
        a_reachable_state_is_sound(cs.drop_last());
        let pre = reached(cs.drop_last());
        let (c, a) = cs.last();
        catalogs_stay_finite(pre, c, a);
        members_stay_addressed(pre, c, a);
        ids_stay_unique(pre, c, a);
    }
    unique_ids_bound_the_lineage(reached(cs), MetaCommand::NoOp, arbitrary());
}

/// On every reachable state a command can be mirrored. What the mirror says, installed on the state
/// before the command, gives the state after it; a command that is not applied changes nothing and
/// mirrors nothing.
pub proof fn every_reachable_command_is_mirrored(
    cs: Seq<(MetaCommand, AdviceModel)>,
    c: MetaCommand,
    a: AdviceModel,
)
    requires
        applicable(cs),
        can_apply(reached(cs), c),
    ensures
        ({
            let pre = reached(cs);
            let (post, outcome) = step(pre, c, a);
            let writes = mirror_writes(pre, post, c, outcome);
            &&& can_mirror(pre, post, c)
            &&& installed(pre, writes) == post
            &&& outcome != ApplyOutcome::Applied ==> post == pre && writes.len() == 0
        }),
{
    a_reachable_state_is_sound(cs);
    unique_ids_bound_the_lineage(reached(cs), c, a);
    replaying_the_mirror_applies_the_command(reached(cs), c, a);
    only_applied_commands_change_the_state(reached(cs), c, a);
}

/// On every reachable state the next free id is positive and above every tablet and every child of
/// a split under way, and no command makes it fall.
pub proof fn the_next_free_id_of_a_reachable_state(
    cs: Seq<(MetaCommand, AdviceModel)>,
    c: MetaCommand,
    a: AdviceModel,
    before: TabletId,
    after: TabletId,
)
    requires
        applicable(cs),
        can_apply(reached(cs), c),
        is_next_free(reached(cs), before),
        is_next_free(step(reached(cs), c, a).0, after),
    ensures
        1 <= before.0 <= after.0,
        forall|t: TabletId| #[trigger] reached(cs).tablets.contains_key(t) ==> t.0 < before.0,
        forall|t: TabletId, x: TabletId| #[trigger]
            promised(reached(cs), t, x) ==> x.0 < before.0,
{
    a_reachable_state_is_sound(cs);
    the_next_free_id_is_fresh(reached(cs), before);
    the_next_free_id_never_falls(reached(cs), c, a, before, after);
    assert(!below_floor(reached(cs), before));
}

} // verus!
