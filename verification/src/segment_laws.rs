//! What sealing, expiring and reading segments gives, field by field.
use crate::advice::AdviceModel;
use crate::apply::step;
use crate::command::{ApplyOutcome, MetaCommand};
use crate::ids::TabletId;
use crate::meta::MetadataModel;
use crate::pitr::{
    generation_licensed, last_pitr_seal, marked_segments, pitr_watermark, segments_for_generation,
};
use crate::rows::{PitrSegmentRowModel, StreamShardRowModel};
use crate::segments::{is_last_epoch, last_epoch, last_epoch_is};
use crate::streams::{
    label_licensed, last_stream_seal, marked_shards, shards_for_label, stream_watermark,
};
use vstd::prelude::*;

verus! {

proof fn a_higher_epoch_is_last<R>(
    rows: Map<(TabletId, u64), R>,
    tablet: TabletId,
    epoch: u64,
) -> (last: u64)
    requires
        rows.contains_key((tablet, epoch)),
    ensures
        is_last_epoch(rows, tablet, last),
    decreases u64::MAX - epoch,
{
    if exists|e: u64| #[trigger] rows.contains_key((tablet, e)) && e > epoch {
        let e = choose|e: u64| #[trigger] rows.contains_key((tablet, e)) && e > epoch;
        a_higher_epoch_is_last(rows, tablet, e)
    } else {
        epoch
    }
}

/// The last epoch of a tablet is the highest of those that it sealed; only a tablet that sealed
/// nothing has none.
pub proof fn the_last_epoch_is_the_highest<R>(rows: Map<(TabletId, u64), R>, tablet: TabletId)
    ensures
        match last_epoch(rows, tablet) {
            Some(last) => rows.contains_key((tablet, last)) && forall|e: u64| #[trigger]
                rows.contains_key((tablet, e)) ==> e <= last,
            None => forall|e: u64| !(#[trigger] rows.contains_key((tablet, e))),
        },
{
    if exists|e: u64| #[trigger] rows.contains_key((tablet, e)) {
        let e = choose|e: u64| #[trigger] rows.contains_key((tablet, e));
        let last = a_higher_epoch_is_last(rows, tablet, e);
        last_epoch_is(rows, tablet, last);
    } else if exists|e: u64| is_last_epoch(rows, tablet, e) {
        let e = choose|e: u64| is_last_epoch(rows, tablet, e);
        assert(rows.contains_key((tablet, e)));
    }
}

/// Whether a stream segment may be sealed under a label: the table has it now, or a segment that is
/// still in the catalog does.
pub open spec fn stream_licensed(m: MetadataModel, table: Seq<char>, label: Seq<char>) -> bool {
    ||| m.schemas.contains_key(table) && m.schemas[table].stream is Some
        && m.schemas[table].stream->0.label == label
    ||| exists|k: (TabletId, u64)| #[trigger]
        m.stream_shards.contains_key(k) && m.stream_shards[k].table == table
            && m.stream_shards[k].label == label
}

/// A stream segment that is new is sealed exactly if its label is licensed and it is the first of
/// its tablet or follows one that is there; it is then recorded with everything that was given, not
/// expired.
pub proof fn a_new_stream_segment_is_sealed_as_given(
    m: MetadataModel,
    c: MetaCommand,
    a: AdviceModel,
)
    requires
        c is SealStreamShard,
        !m.stream_shards.contains_key((c->SealStreamShard_tablet, c->SealStreamShard_epoch)),
    ensures
        ({
            let (n, outcome) = step(m, c, a);
            let (tablet, epoch) = (c->SealStreamShard_tablet, c->SealStreamShard_epoch);
            let row = n.stream_shards[(tablet, epoch)];
            &&& outcome == ApplyOutcome::Applied <==> stream_licensed(
                m,
                c->SealStreamShard_table@,
                c->SealStreamShard_label@,
            ) && (epoch == 0 || m.stream_shards.contains_key((tablet, (epoch - 1) as u64)))
            &&& outcome != ApplyOutcome::NoOp
            &&& outcome == ApplyOutcome::Applied ==> {
                &&& n.stream_shards.contains_key((tablet, epoch))
                &&& row.table == c->SealStreamShard_table@
                &&& row.label == c->SealStreamShard_label@
                &&& row.view_type == c->SealStreamShard_view_type
                &&& row.hlc_range == c->SealStreamShard_hlc_range
                &&& row.count == c->SealStreamShard_count
                &&& row.seal_wall_ms == c->SealStreamShard_seal_wall_ms
                &&& row.replicas == c->SealStreamShard_replicas.deep_view()
                &&& row.object_id == c->SealStreamShard_object_id@
                &&& !row.expired
            }
            &&& n.stream_shards.remove((tablet, epoch)) == m.stream_shards.remove((tablet, epoch))
            &&& n == MetadataModel { stream_shards: n.stream_shards, ..m }
        }),
{
    let n = step(m, c, a).0;
    let k = (c->SealStreamShard_tablet, c->SealStreamShard_epoch);
    let table = c->SealStreamShard_table@;
    let label = c->SealStreamShard_label@;
    assert(n.stream_shards.remove(k) =~= m.stream_shards.remove(k));
    stream_license(m, table, label);
}

/// What licenses a label is the stream that has it, or a segment that is still there.
pub proof fn stream_license(m: MetadataModel, table: Seq<char>, label: Seq<char>)
    ensures
        label_licensed(m, table, label) == stream_licensed(m, table, label),
{
    let set = shards_for_label(m, table, label);
    if exists|k: (TabletId, u64)| set.contains(k) {
        let k = choose|k: (TabletId, u64)| set.contains(k);
        assert(m.stream_shards.contains_key(k));
    }
    if exists|k: (TabletId, u64)| #[trigger]
        m.stream_shards.contains_key(k) && m.stream_shards[k].table == table
            && m.stream_shards[k].label == label {
        let k = choose|k: (TabletId, u64)| #[trigger]
            m.stream_shards.contains_key(k) && m.stream_shards[k].table == table
                && m.stream_shards[k].label == label;
        assert(set.contains(k));
    }
}

/// A stream segment that is there stays: a proposal that agrees with it in all but the replicas
/// moves the replicas, and no other changes anything or is refused.
pub proof fn a_sealed_stream_segment_moves_its_replicas_only(
    m: MetadataModel,
    c: MetaCommand,
    a: AdviceModel,
)
    requires
        c is SealStreamShard,
        m.stream_shards.contains_key((c->SealStreamShard_tablet, c->SealStreamShard_epoch)),
    ensures
        ({
            let (n, outcome) = step(m, c, a);
            let k = (c->SealStreamShard_tablet, c->SealStreamShard_epoch);
            let sealed = m.stream_shards[k];
            let agrees = sealed.table == c->SealStreamShard_table@ && sealed.label
                == c->SealStreamShard_label@ && sealed.view_type == c->SealStreamShard_view_type
                && sealed.hlc_range == c->SealStreamShard_hlc_range && sealed.count
                    == c->SealStreamShard_count
                && sealed.seal_wall_ms == c->SealStreamShard_seal_wall_ms && sealed.object_id
                == c->SealStreamShard_object_id@;
            &&& outcome !is Rejected
            &&& outcome == ApplyOutcome::Applied <==> agrees && sealed.replicas
                != c->SealStreamShard_replicas.deep_view()
            &&& n.stream_shards.contains_key(k)
            &&& agrees ==> n.stream_shards[k] == (StreamShardRowModel {
                replicas: c->SealStreamShard_replicas.deep_view(),
                ..sealed
            })
            &&& !agrees ==> n.stream_shards[k] == sealed
            &&& n.stream_shards.remove(k) == m.stream_shards.remove(k)
            &&& n == MetadataModel { stream_shards: n.stream_shards, ..m }
        }),
{
    let n = step(m, c, a).0;
    let k = (c->SealStreamShard_tablet, c->SealStreamShard_epoch);
    assert(n.stream_shards.remove(k) =~= m.stream_shards.remove(k));
}

/// Expiring stream segments marks those that are named, or takes them out; every other stays as it
/// is, and nothing of a marked one changes but the mark.
pub proof fn named_stream_segments_expire(
    m: MetadataModel,
    c: MetaCommand,
    a: AdviceModel,
    k: (TabletId, u64),
)
    requires
        c is ExpireStreamShards,
    ensures
        ({
            let (n, outcome) = step(m, c, a);
            let named = c->ExpireStreamShards_rows.deep_view().contains(k);
            let remove = c->ExpireStreamShards_remove;
            &&& outcome !is Rejected
            &&& outcome == ApplyOutcome::Applied ==> n != m
            &&& n.stream_shards.contains_key(k) <==> m.stream_shards.contains_key(k)
                && !(named && remove)
            &&& n.stream_shards.contains_key(k) ==> n.stream_shards[k] == (StreamShardRowModel {
                expired: m.stream_shards[k].expired || (named && !remove),
                ..m.stream_shards[k]
            })
            &&& n == MetadataModel { stream_shards: n.stream_shards, ..m }
        }),
{
    let ids = c->ExpireStreamShards_rows.deep_view();
    let n = step(m, c, a).0;
    assert(ids.to_set().contains(k) <==> ids.contains(k));
    let rows = if c->ExpireStreamShards_remove {
        m.stream_shards.remove_keys(ids.to_set())
    } else {
        marked_shards(m.stream_shards, ids.to_set())
    };
    assert(n.stream_shards == rows);
    if n.stream_shards.contains_key(k) {
        assert(n.stream_shards[k] =~= (StreamShardRowModel {
            expired: m.stream_shards[k].expired || (ids.contains(k)
                && !c->ExpireStreamShards_remove),
            ..m.stream_shards[k]
        }));
    }
}

/// Whether a recovery segment may be sealed under a generation: the table has it now, or a segment
/// that is still in the catalog does.
pub open spec fn recovery_licensed(m: MetadataModel, table: Seq<char>, generation: u64) -> bool {
    ||| m.schemas.contains_key(table) && m.schemas[table].pitr is Some
        && m.schemas[table].pitr->0.generation == generation
    ||| exists|k: (TabletId, u64)| #[trigger]
        m.pitr_segments.contains_key(k) && m.pitr_segments[k].table == table
            && m.pitr_segments[k].generation == generation
}

/// A recovery segment that is new is sealed exactly if its generation is licensed and it is the
/// first of its tablet or follows one that is there; it is then recorded with everything that was
/// given, not expired.
pub proof fn a_new_recovery_segment_is_sealed_as_given(
    m: MetadataModel,
    c: MetaCommand,
    a: AdviceModel,
)
    requires
        c is SealPitrSegment,
        !m.pitr_segments.contains_key((c->SealPitrSegment_tablet, c->SealPitrSegment_epoch)),
    ensures
        ({
            let (n, outcome) = step(m, c, a);
            let (tablet, epoch) = (c->SealPitrSegment_tablet, c->SealPitrSegment_epoch);
            let row = n.pitr_segments[(tablet, epoch)];
            &&& outcome == ApplyOutcome::Applied <==> recovery_licensed(
                m,
                c->SealPitrSegment_table@,
                c->SealPitrSegment_generation,
            ) && (epoch == 0 || m.pitr_segments.contains_key((tablet, (epoch - 1) as u64)))
            &&& outcome != ApplyOutcome::NoOp
            &&& outcome == ApplyOutcome::Applied ==> {
                &&& n.pitr_segments.contains_key((tablet, epoch))
                &&& row.table == c->SealPitrSegment_table@
                &&& row.generation == c->SealPitrSegment_generation
                &&& row.hlc_range == c->SealPitrSegment_hlc_range
                &&& row.count == c->SealPitrSegment_count
                &&& row.seal_wall_ms == c->SealPitrSegment_seal_wall_ms
                &&& row.replicas == c->SealPitrSegment_replicas.deep_view()
                &&& row.object_id == c->SealPitrSegment_object_id@
                &&& !row.expired
            }
            &&& n.pitr_segments.remove((tablet, epoch)) == m.pitr_segments.remove((tablet, epoch))
            &&& n == MetadataModel { pitr_segments: n.pitr_segments, ..m }
        }),
{
    let n = step(m, c, a).0;
    let k = (c->SealPitrSegment_tablet, c->SealPitrSegment_epoch);
    let table = c->SealPitrSegment_table@;
    let generation = c->SealPitrSegment_generation;
    assert(n.pitr_segments.remove(k) =~= m.pitr_segments.remove(k));
    recovery_license(m, table, generation);
}

/// What licenses a generation is the recovery that is at it, or a segment that is still there.
pub proof fn recovery_license(m: MetadataModel, table: Seq<char>, generation: u64)
    ensures
        generation_licensed(m, table, generation) == recovery_licensed(m, table, generation),
{
    let set = segments_for_generation(m, table, generation);
    if exists|k: (TabletId, u64)| set.contains(k) {
        let k = choose|k: (TabletId, u64)| set.contains(k);
        assert(m.pitr_segments.contains_key(k));
    }
    if exists|k: (TabletId, u64)| #[trigger]
        m.pitr_segments.contains_key(k) && m.pitr_segments[k].table == table
            && m.pitr_segments[k].generation == generation {
        let k = choose|k: (TabletId, u64)| #[trigger]
            m.pitr_segments.contains_key(k) && m.pitr_segments[k].table == table
                && m.pitr_segments[k].generation == generation;
        assert(set.contains(k));
    }
}

/// A recovery segment that is there stays: a proposal that agrees with it in all but the replicas
/// moves the replicas, and no other changes anything or is refused.
pub proof fn a_sealed_recovery_segment_moves_its_replicas_only(
    m: MetadataModel,
    c: MetaCommand,
    a: AdviceModel,
)
    requires
        c is SealPitrSegment,
        m.pitr_segments.contains_key((c->SealPitrSegment_tablet, c->SealPitrSegment_epoch)),
    ensures
        ({
            let (n, outcome) = step(m, c, a);
            let k = (c->SealPitrSegment_tablet, c->SealPitrSegment_epoch);
            let sealed = m.pitr_segments[k];
            let agrees = sealed.table == c->SealPitrSegment_table@ && sealed.generation
                == c->SealPitrSegment_generation
                && sealed.hlc_range == c->SealPitrSegment_hlc_range && sealed.count
                    == c->SealPitrSegment_count
                && sealed.seal_wall_ms == c->SealPitrSegment_seal_wall_ms && sealed.object_id
                == c->SealPitrSegment_object_id@;
            &&& outcome !is Rejected
            &&& outcome == ApplyOutcome::Applied <==> agrees && sealed.replicas
                != c->SealPitrSegment_replicas.deep_view()
            &&& n.pitr_segments.contains_key(k)
            &&& agrees ==> n.pitr_segments[k] == (PitrSegmentRowModel {
                replicas: c->SealPitrSegment_replicas.deep_view(),
                ..sealed
            })
            &&& !agrees ==> n.pitr_segments[k] == sealed
            &&& n.pitr_segments.remove(k) == m.pitr_segments.remove(k)
            &&& n == MetadataModel { pitr_segments: n.pitr_segments, ..m }
        }),
{
    let n = step(m, c, a).0;
    let k = (c->SealPitrSegment_tablet, c->SealPitrSegment_epoch);
    assert(n.pitr_segments.remove(k) =~= m.pitr_segments.remove(k));
}

/// Expiring recovery segments marks those that are named, or takes them out; every other stays as
/// it is, and nothing of a marked one changes but the mark.
pub proof fn named_recovery_segments_expire(
    m: MetadataModel,
    c: MetaCommand,
    a: AdviceModel,
    k: (TabletId, u64),
)
    requires
        c is ExpirePitrSegments,
    ensures
        ({
            let (n, outcome) = step(m, c, a);
            let named = c->ExpirePitrSegments_rows.deep_view().contains(k);
            let remove = c->ExpirePitrSegments_remove;
            &&& outcome !is Rejected
            &&& outcome == ApplyOutcome::Applied ==> n != m
            &&& n.pitr_segments.contains_key(k) <==> m.pitr_segments.contains_key(k)
                && !(named && remove)
            &&& n.pitr_segments.contains_key(k) ==> n.pitr_segments[k] == (PitrSegmentRowModel {
                expired: m.pitr_segments[k].expired || (named && !remove),
                ..m.pitr_segments[k]
            })
            &&& n == MetadataModel { pitr_segments: n.pitr_segments, ..m }
        }),
{
    let ids = c->ExpirePitrSegments_rows.deep_view();
    let n = step(m, c, a).0;
    assert(ids.to_set().contains(k) <==> ids.contains(k));
    let rows = if c->ExpirePitrSegments_remove {
        m.pitr_segments.remove_keys(ids.to_set())
    } else {
        marked_segments(m.pitr_segments, ids.to_set())
    };
    assert(n.pitr_segments == rows);
    if n.pitr_segments.contains_key(k) {
        assert(n.pitr_segments[k] =~= (PitrSegmentRowModel {
            expired: m.pitr_segments[k].expired || (ids.contains(k)
                && !c->ExpirePitrSegments_remove),
            ..m.pitr_segments[k]
        }));
    }
}

/// How far a tablet's log is sealed, and when it was last sealed, is what the segment of the
/// highest epoch says; a tablet that sealed nothing has neither.
pub proof fn the_last_segment_tells_how_far(m: MetadataModel, tablet: TabletId)
    ensures
        forall|e: u64|
            (#[trigger] m.stream_shards.contains_key((tablet, e)) && forall|f: u64| #[trigger]
                m.stream_shards.contains_key((tablet, f)) ==> f <= e)
                    ==> stream_watermark(m, tablet)
                == Some(m.stream_shards[(tablet, e)].hlc_range.1) && last_stream_seal(m, tablet)
                == Some(m.stream_shards[(tablet, e)].seal_wall_ms),
        (forall|e: u64| !(#[trigger] m.stream_shards.contains_key((tablet, e))))
            ==> stream_watermark(m, tablet) is None && last_stream_seal(m, tablet) is None,
        forall|e: u64|
            (#[trigger] m.pitr_segments.contains_key((tablet, e)) && forall|f: u64| #[trigger]
                m.pitr_segments.contains_key((tablet, f)) ==> f <= e) ==> pitr_watermark(m, tablet)
                == Some(m.pitr_segments[(tablet, e)].hlc_range.1) && last_pitr_seal(m, tablet)
                == Some(m.pitr_segments[(tablet, e)].seal_wall_ms),
        (forall|e: u64| !(#[trigger] m.pitr_segments.contains_key((tablet, e)))) ==> pitr_watermark(
            m,
            tablet,
        ) is None && last_pitr_seal(m, tablet) is None,
{
    the_last_epoch_is_the_highest(m.stream_shards, tablet);
    the_last_epoch_is_the_highest(m.pitr_segments, tablet);
    assert forall|e: u64|
        (#[trigger] m.stream_shards.contains_key((tablet, e)) && forall|f: u64| #[trigger]
            m.stream_shards.contains_key((tablet, f))
                ==> f <= e) implies stream_watermark(m, tablet)
        == Some(m.stream_shards[(tablet, e)].hlc_range.1) && last_stream_seal(m, tablet) == Some(
        m.stream_shards[(tablet, e)].seal_wall_ms,
    ) by {
        last_epoch_is(m.stream_shards, tablet, e);
    }
    assert forall|e: u64|
        (#[trigger] m.pitr_segments.contains_key((tablet, e)) && forall|f: u64| #[trigger]
            m.pitr_segments.contains_key((tablet, f)) ==> f <= e) implies pitr_watermark(m, tablet)
        == Some(m.pitr_segments[(tablet, e)].hlc_range.1) && last_pitr_seal(m, tablet) == Some(
        m.pitr_segments[(tablet, e)].seal_wall_ms,
    ) by {
        last_epoch_is(m.pitr_segments, tablet, e);
    }
}

} // verus!
