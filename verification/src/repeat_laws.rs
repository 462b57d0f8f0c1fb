//! Repeating a command: what was done is not done again.
use crate::advice::AdviceModel;
use crate::apply::step;
use crate::command::{ApplyOutcome, MetaCommand};
use crate::ids::TabletId;
use crate::meta::MetadataModel;
use crate::pitr::marked_segments;
use crate::schema::{
    has_index, index_position, index_position_is, is_first_index, named_otherwise, IndexDefModel,
};
use crate::streams::marked_shards;
use crate::tablet_map::tablets_of;
use vstd::prelude::*;

verus! {

/// The commands that say what is to hold, and of which a repetition therefore finds it done.
pub open spec fn repeatable(c: MetaCommand) -> bool {
    ||| c is DropTableSchema || c is DropTableTablets || c is DropTableIndex
    ||| c is ReplaceTableSchema || c is SetIndexStatus || c is MarkIndexBackfilled
    ||| c is SetTableTtl || c is SetTableThroughput || c is TagResource || c is UntagResource
    ||| c is UpdateContinuousBackups
    ||| c is SealStreamShard || c is ExpireStreamShards
    ||| c is SealPitrSegment || c is ExpirePitrSegments
    ||| c is RegisterCpAddr || c is RegisterNodeAddrs || c is RegisterNode || c is RemoveMember
    ||| c is MarkSplitPlacingDone || c is RetargetSplitPlacing
    ||| c is RecordBackupTabletComplete || c is FailBackup || c is DeleteBackup
    ||| c is MarkBackupDeleted || c is FailRestore
}

/// A command that says what is to hold, applied once more, has nothing to change.
pub proof fn a_repetition_changes_nothing(m: MetadataModel, c: MetaCommand, a: AdviceModel)
    requires
        repeatable(c),
        step(m, c, a).1 == ApplyOutcome::Applied,
    ensures
        step(step(m, c, a).0, c, a) == (step(m, c, a).0, ApplyOutcome::NoOp),
{
    match c {
        MetaCommand::TagResource { .. } | MetaCommand::UntagResource { .. } => {
            tags_repeat(m, c, a);
        },
        MetaCommand::ExpireStreamShards { .. } | MetaCommand::ExpirePitrSegments { .. } => {
            expiry_repeats(m, c, a);
        },
        MetaCommand::DropTableTablets { .. } => {
            drop_repeats(m, c, a);
        },
        MetaCommand::RegisterCpAddr { .. }
        | MetaCommand::RegisterNodeAddrs { .. }
        | MetaCommand::RegisterNode { .. }
        | MetaCommand::RemoveMember { .. } => {
            members_repeat(m, c, a);
        },
        MetaCommand::SealStreamShard { .. } | MetaCommand::SealPitrSegment { .. } => {
            seals_repeat(m, c, a);
        },
        MetaCommand::DropTableIndex { .. } | MetaCommand::SetIndexStatus { .. } => {
            indexes_repeat(m, c, a);
        },
        _ => {
            rest_repeats(m, c, a);
        },
    }
}

proof fn indexes_repeat(m: MetadataModel, c: MetaCommand, a: AdviceModel)
    requires
        c is DropTableIndex || c is SetIndexStatus,
        step(m, c, a).1 == ApplyOutcome::Applied,
    ensures
        step(step(m, c, a).0, c, a) == (step(m, c, a).0, ApplyOutcome::NoOp),
{
    let n = step(m, c, a).0;
    match c {
        MetaCommand::DropTableIndex { table, index } => {
            let all = m.schemas[table@].indexes;
            let kept = n.schemas[table@].indexes;
            assert forall|i: int| 0 <= i < kept.len() implies #[trigger] kept[i].name != index@ by {
                all.lemma_filter_pred(named_otherwise(index@), i);
            }
            assert(!has_index(kept, index@));
        },
        MetaCommand::SetIndexStatus { table, index, .. } => {
            let before = m.schemas[table@].indexes;
            let i = index_position(before, index@);
            a_first_index_exists(before, index@);
            index_position_is(n.schemas[table@].indexes, index@, i);
        },
        _ => {},
    }
}

proof fn tags_repeat(m: MetadataModel, c: MetaCommand, a: AdviceModel)
    requires
        c is TagResource || c is UntagResource,
        step(m, c, a).1 == ApplyOutcome::Applied,
    ensures
        step(step(m, c, a).0, c, a) == (step(m, c, a).0, ApplyOutcome::NoOp),
{
    let n = step(m, c, a).0;
    match c {
        MetaCommand::TagResource { table, tags } => {
            let now = n.schemas[table@].tags;
            assert(now.union_prefer_right(tags@) =~= now);
        },
        MetaCommand::UntagResource { table, tag_keys } => {
            let now = n.schemas[table@].tags;
            assert(now.remove_keys(tag_keys.deep_view().to_set()) =~= now);
        },
        _ => {},
    }
}

proof fn expiry_repeats(m: MetadataModel, c: MetaCommand, a: AdviceModel)
    requires
        c is ExpireStreamShards || c is ExpirePitrSegments,
        step(m, c, a).1 == ApplyOutcome::Applied,
    ensures
        step(step(m, c, a).0, c, a) == (step(m, c, a).0, ApplyOutcome::NoOp),
{
    let n = step(m, c, a).0;
    match c {
        MetaCommand::ExpireStreamShards { rows, remove } => {
            let ids = rows.deep_view().to_set();
            assert(n.stream_shards.remove_keys(ids) =~= n.stream_shards || !remove);
            assert(marked_shards(n.stream_shards, ids) =~= n.stream_shards || remove);
        },
        MetaCommand::ExpirePitrSegments { rows, remove } => {
            let ids = rows.deep_view().to_set();
            assert(n.pitr_segments.remove_keys(ids) =~= n.pitr_segments || !remove);
            assert(marked_segments(n.pitr_segments, ids) =~= n.pitr_segments || remove);
        },
        _ => {},
    }
}

proof fn drop_repeats(m: MetadataModel, c: MetaCommand, a: AdviceModel)
    requires
        c is DropTableTablets,
        step(m, c, a).1 == ApplyOutcome::Applied,
    ensures
        step(step(m, c, a).0, c, a) == (step(m, c, a).0, ApplyOutcome::NoOp),
{
    let n = step(m, c, a).0;
    let table = c->DropTableTablets_table@;
    assert(tablets_of(n, table) =~= Set::empty()) by {
        assert forall|t: TabletId| !tablets_of(n, table).contains(t) by {
            if tablets_of(n, table).contains(t) {
                assert(tablets_of(m, table).contains(t));
            }
        }
    }
}

proof fn members_repeat(m: MetadataModel, c: MetaCommand, a: AdviceModel)
    requires
        c is RegisterCpAddr || c is RegisterNodeAddrs || c is RegisterNode || c is RemoveMember,
        step(m, c, a).1 == ApplyOutcome::Applied,
    ensures
        step(step(m, c, a).0, c, a) == (step(m, c, a).0, ApplyOutcome::NoOp),
{
}

proof fn seals_repeat(m: MetadataModel, c: MetaCommand, a: AdviceModel)
    requires
        c is SealStreamShard || c is SealPitrSegment,
        step(m, c, a).1 == ApplyOutcome::Applied,
    ensures
        step(step(m, c, a).0, c, a) == (step(m, c, a).0, ApplyOutcome::NoOp),
{
}

proof fn rest_repeats(m: MetadataModel, c: MetaCommand, a: AdviceModel)
    requires
        repeatable(c),
        c !is TagResource,
        c !is UntagResource,
        c !is ExpireStreamShards,
        c !is ExpirePitrSegments,
        c !is DropTableTablets,
        c !is RegisterCpAddr,
        c !is RegisterNodeAddrs,
        c !is RegisterNode,
        c !is RemoveMember,
        c !is SealStreamShard,
        c !is SealPitrSegment,
        c !is DropTableIndex,
        c !is SetIndexStatus,
        step(m, c, a).1 == ApplyOutcome::Applied,
    ensures
        step(step(m, c, a).0, c, a) == (step(m, c, a).0, ApplyOutcome::NoOp),
{
}

/// Where there is an index of a name, there is a first one.
proof fn a_first_index_exists(indexes: Seq<IndexDefModel>, name: Seq<char>)
    requires
        has_index(indexes, name),
    ensures
        is_first_index(indexes, name, index_position(indexes, name)),
{
    let i = choose|i: int| 0 <= i < indexes.len() && #[trigger] indexes[i].name == name;
    first_index_at_or_before(indexes, name, i);
}

proof fn first_index_at_or_before(indexes: Seq<IndexDefModel>, name: Seq<char>, i: int)
    requires
        0 <= i < indexes.len(),
        indexes[i].name == name,
    ensures
        exists|j: int| is_first_index(indexes, name, j),
    decreases i,
{
    if !is_first_index(indexes, name, i) {
        let j = choose|j: int| 0 <= j < i && #[trigger] indexes[j].name == name;
        first_index_at_or_before(indexes, name, j);
    }
}

} // verus!
