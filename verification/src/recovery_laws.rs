//! Which instants a table can be recovered to, and from which snapshots.
use crate::ids::TabletId;
use crate::meta::MetadataModel;
use crate::pitr::{
    base_keys, base_rows, base_times, bases_of, greatest, is_base_of, is_greatest, is_least,
    last_pitr_seal, last_seal_times, least, restore_window, seal_times, segments_for_generation,
};
use crate::rows::BackupId;
use crate::segment_laws::the_last_epoch_is_the_highest;
use crate::sorted_map::lists;
use crate::value::Key;
use vstd::prelude::*;

verus! {

proof fn a_lower_one_is_least(s: Set<u64>, v: u64)
    requires
        s.contains(v),
    ensures
        exists|w: u64| is_least(s, w),
    decreases v,
{
    if exists|w: u64| #[trigger] s.contains(w) && w < v {
        let w = choose|w: u64| #[trigger] s.contains(w) && w < v;
        a_lower_one_is_least(s, w);
    } else {
        assert(is_least(s, v));
    }
}

proof fn a_higher_one_is_greatest(s: Set<u64>, v: u64)
    requires
        s.contains(v),
    ensures
        exists|w: u64| is_greatest(s, w),
    decreases u64::MAX - v,
{
    if exists|w: u64| #[trigger] s.contains(w) && w > v {
        let w = choose|w: u64| #[trigger] s.contains(w) && w > v;
        a_higher_one_is_greatest(s, w);
    } else {
        assert(is_greatest(s, v));
    }
}

/// The least and the greatest of some numbers are among them, with none below or above; no numbers
/// have neither.
pub proof fn the_ends_of_a_set(s: Set<u64>)
    ensures
        match least(s) {
            Some(v) => s.contains(v) && forall|w: u64| #[trigger] s.contains(w) ==> v <= w,
            None => forall|w: u64| !(#[trigger] s.contains(w)),
        },
        match greatest(s) {
            Some(v) => s.contains(v) && forall|w: u64| #[trigger] s.contains(w) ==> w <= v,
            None => forall|w: u64| !(#[trigger] s.contains(w)),
        },
{
    if exists|w: u64| #[trigger] s.contains(w) {
        let w = choose|w: u64| #[trigger] s.contains(w);
        a_lower_one_is_least(s, w);
        a_higher_one_is_greatest(s, w);
    }
}

/// Whether the backup is a base snapshot of the table that was taken under the generation.
pub open spec fn snapshot_of(
    m: MetadataModel,
    table: Seq<char>,
    generation: u64,
    id: Seq<char>,
) -> bool {
    &&& m.pitr_base_backups.contains(id)
    &&& m.backups.contains_key(id)
    &&& m.backups[id].table == table
    &&& m.backups[id].manifest.schema.pitr is Some
    &&& m.backups[id].manifest.schema.pitr->0.generation == generation
}

/// Whether the segment is one of the table under the generation.
pub open spec fn segment_of(
    m: MetadataModel,
    table: Seq<char>,
    generation: u64,
    k: (TabletId, u64),
) -> bool {
    &&& m.pitr_segments.contains_key(k)
    &&& m.pitr_segments[k].table == table
    &&& m.pitr_segments[k].generation == generation
}

/// Whether recovery of the table is enabled now.
pub open spec fn recovers(m: MetadataModel, table: Seq<char>) -> bool {
    m.schemas.contains_key(table) && m.schemas[table].pitr is Some
}

/// The latest generation of the table's name, or zero if it never had one.
pub open spec fn latest_generation(m: MetadataModel, table: Seq<char>) -> u64 {
    if recovers(m, table) {
        m.schemas[table].pitr->0.generation
    } else if m.pitr_generation.contains_key(table) {
        m.pitr_generation[table]
    } else {
        0
    }
}

/// A table can be recovered exactly if its name has a generation, and recovery is enabled or left a
/// snapshot or a segment of that generation behind. The window is that of the latest generation,
/// and never ends before it starts.
pub proof fn a_window_is_of_the_latest_generation(m: MetadataModel, table: Seq<char>)
    ensures
        ({
            let g = latest_generation(m, table);
            let w = restore_window(m, table);
            &&& w is Some <==> g > 0 && (recovers(m, table) || (exists|id: Seq<char>|
                snapshot_of(m, table, g, id)) || (exists|k: (TabletId, u64)|
                segment_of(m, table, g, k)))
            &&& w is Some ==> w->0.generation == g && w->0.earliest_ms <= w->0.latest_ms
        }),
{
    let g = latest_generation(m, table);
    ends_of_the_snapshots(m, table, g);
    ends_of_the_seals(m, table, g);
    ends_of_the_last_seals(m, table, g);
    segments_of_a_generation(m, table, g);
}

proof fn ends_of_the_snapshots(m: MetadataModel, table: Seq<char>, g: u64)
    ensures
        match least(base_times(m, table, g)) {
            Some(v) => exists|id: Seq<char>|
                snapshot_of(m, table, g, id) && m.backups[id].manifest.created_wall_ms == v,
            None => forall|id: Seq<char>| !snapshot_of(m, table, g, id),
        },
        forall|id: Seq<char>|
            snapshot_of(m, table, g, id) ==> least(base_times(m, table, g)) is Some && least(
                base_times(m, table, g),
            )->0 <= m.backups[id].manifest.created_wall_ms,
        match greatest(base_times(m, table, g)) {
            Some(v) => exists|id: Seq<char>|
                snapshot_of(m, table, g, id) && m.backups[id].manifest.created_wall_ms == v,
            None => forall|id: Seq<char>| !snapshot_of(m, table, g, id),
        },
        forall|id: Seq<char>|
            snapshot_of(m, table, g, id) ==> greatest(base_times(m, table, g)) is Some
                && m.backups[id].manifest.created_wall_ms <= greatest(base_times(m, table, g))->0,
{
    let bases = base_times(m, table, g);
    the_ends_of_a_set(bases);
    assert forall|id: Seq<char>| snapshot_of(m, table, g, id) implies bases.contains(
        m.backups[id].manifest.created_wall_ms,
    ) by {
        assert(is_base_of(m, table, id));
    }
    assert forall|v: u64| #[trigger] bases.contains(v) implies exists|id: Seq<char>|
        snapshot_of(m, table, g, id) && m.backups[id].manifest.created_wall_ms == v by {
        let id = choose|id: Seq<char>| #[trigger]
            is_base_of(m, table, id) && crate::pitr::taken_under(m.backups[id], g)
                && m.backups[id].manifest.created_wall_ms == v;
        assert(snapshot_of(m, table, g, id));
    }
}

proof fn segments_of_a_generation(m: MetadataModel, table: Seq<char>, g: u64)
    ensures
        forall|k: (TabletId, u64)| #[trigger]
            segment_of(m, table, g, k) <==> segments_for_generation(m, table, g).contains(k),
        (exists|k: (TabletId, u64)| segments_for_generation(m, table, g).contains(k)) <==> exists|
            k: (TabletId, u64),
        |
            segment_of(m, table, g, k),
{
    let set = segments_for_generation(m, table, g);
    assert forall|k: (TabletId, u64)| #[trigger]
        segment_of(m, table, g, k) <==> set.contains(k) by {}
    if exists|k: (TabletId, u64)| segment_of(m, table, g, k) {
        let k = choose|k: (TabletId, u64)| segment_of(m, table, g, k);
        assert(set.contains(k));
    }
    if exists|k: (TabletId, u64)| set.contains(k) {
        let k = choose|k: (TabletId, u64)| set.contains(k);
        assert(segment_of(m, table, g, k));
    }
}

proof fn ends_of_the_seals(m: MetadataModel, table: Seq<char>, g: u64)
    ensures
        match least(seal_times(m, table, g)) {
            Some(v) => exists|k: (TabletId, u64)|
                segment_of(m, table, g, k) && m.pitr_segments[k].seal_wall_ms == v,
            None => forall|k: (TabletId, u64)| !segment_of(m, table, g, k),
        },
        forall|k: (TabletId, u64)|
            segment_of(m, table, g, k) ==> least(seal_times(m, table, g)) is Some && least(
                seal_times(m, table, g),
            )->0 <= m.pitr_segments[k].seal_wall_ms,
{
    let seals = seal_times(m, table, g);
    let set = segments_for_generation(m, table, g);
    the_ends_of_a_set(seals);
    segments_of_a_generation(m, table, g);
    assert forall|k: (TabletId, u64)| segment_of(m, table, g, k) implies seals.contains(
        m.pitr_segments[k].seal_wall_ms,
    ) by {
        assert(set.contains(k));
    }
    assert forall|v: u64| #[trigger] seals.contains(v) implies exists|k: (TabletId, u64)|
        segment_of(m, table, g, k) && m.pitr_segments[k].seal_wall_ms == v by {
        let k = choose|k: (TabletId, u64)| #[trigger]
            set.contains(k) && m.pitr_segments[k].seal_wall_ms == v;
        assert(segment_of(m, table, g, k));
    }
}

proof fn ends_of_the_last_seals(m: MetadataModel, table: Seq<char>, g: u64)
    ensures
        match least(last_seal_times(m, table, g)) {
            Some(v) => exists|k: (TabletId, u64)|
                segment_of(m, table, g, k) && last_pitr_seal(m, k.0) == Some(v),
            None => forall|k: (TabletId, u64)| !segment_of(m, table, g, k),
        },
        forall|k: (TabletId, u64)|
            segment_of(m, table, g, k) ==> last_pitr_seal(m, k.0) is Some && least(
                last_seal_times(m, table, g),
            ) is Some && least(last_seal_times(m, table, g))->0 <= last_pitr_seal(m, k.0)->0,
{
    let lasts = last_seal_times(m, table, g);
    let set = segments_for_generation(m, table, g);
    the_ends_of_a_set(lasts);
    segments_of_a_generation(m, table, g);
    assert forall|k: (TabletId, u64)| segment_of(m, table, g, k) implies last_pitr_seal(
        m,
        k.0,
    ) is Some && lasts.contains(last_pitr_seal(m, k.0)->0) by {
        assert(set.contains(k));
        the_last_epoch_is_the_highest(m.pitr_segments, k.0);
        assert(m.pitr_segments.contains_key((k.0, k.1)));
    }
    assert forall|v: u64| #[trigger] lasts.contains(v) implies exists|k: (TabletId, u64)|
        segment_of(m, table, g, k) && last_pitr_seal(m, k.0) == Some(v) by {
        let k = choose|k: (TabletId, u64)| #[trigger]
            set.contains(k) && last_pitr_seal(m, k.0) == Some(v);
        assert(segment_of(m, table, g, k));
    }
}

/// The window starts when recovery was enabled, while it is enabled. Once it is not, the window
/// starts with the first snapshot of the generation, or if there is none with the first seal.
pub proof fn a_window_starts_with_its_generation(m: MetadataModel, table: Seq<char>)
    requires
        restore_window(m, table) is Some,
    ensures
        ({
            let g = latest_generation(m, table);
            let start = restore_window(m, table)->0.earliest_ms;
            let snapshots = exists|id: Seq<char>| snapshot_of(m, table, g, id);
            &&& recovers(m, table) ==> start == m.schemas[table].pitr->0.enabled_wall_ms
            &&& !recovers(m, table) && snapshots ==> {
                &&& exists|id: Seq<char>|
                    snapshot_of(m, table, g, id) && m.backups[id].manifest.created_wall_ms == start
                &&& forall|id: Seq<char>|
                    snapshot_of(m, table, g, id) ==> start
                        <= m.backups[id].manifest.created_wall_ms
            }
            &&& !recovers(m, table) && !snapshots ==> {
                &&& exists|k: (TabletId, u64)|
                    segment_of(m, table, g, k) && m.pitr_segments[k].seal_wall_ms == start
                &&& forall|k: (TabletId, u64)|
                    segment_of(m, table, g, k) ==> start <= m.pitr_segments[k].seal_wall_ms
            }
        }),
{
    let g = latest_generation(m, table);
    ends_of_the_snapshots(m, table, g);
    ends_of_the_seals(m, table, g);
    ends_of_the_last_seals(m, table, g);
    segments_of_a_generation(m, table, g);
}

/// Whether `ms` is when `tablet` sealed its segment of the highest epoch.
pub open spec fn last_sealed_at(m: MetadataModel, tablet: TabletId, ms: u64) -> bool {
    exists|e: u64|
        {
            &&& #[trigger] m.pitr_segments.contains_key((tablet, e))
            &&& m.pitr_segments[(tablet, e)].seal_wall_ms == ms
            &&& forall|f: u64| #[trigger] m.pitr_segments.contains_key((tablet, f)) ==> f <= e
        }
}

proof fn last_seals(m: MetadataModel, tablet: TabletId)
    ensures
        forall|ms: u64| last_pitr_seal(m, tablet) == Some(ms) <==> last_sealed_at(m, tablet, ms),
{
    the_last_epoch_is_the_highest(m.pitr_segments, tablet);
    assert forall|ms: u64|
        last_pitr_seal(m, tablet) == Some(ms) <==> last_sealed_at(m, tablet, ms) by {
        if last_sealed_at(m, tablet, ms) {
            let e = choose|e: u64|
                {
                    &&& #[trigger] m.pitr_segments.contains_key((tablet, e))
                    &&& m.pitr_segments[(tablet, e)].seal_wall_ms == ms
                    &&& forall|f: u64| #[trigger]
                        m.pitr_segments.contains_key((tablet, f)) ==> f <= e
                };
            assert(crate::segments::is_last_epoch(m.pitr_segments, tablet, e));
            crate::segments::last_epoch_is(m.pitr_segments, tablet, e);
        }
    }
}

/// The window reaches as far as the tablet that lags most has sealed, of those that sealed a
/// segment of the generation; where nothing is sealed, to the last snapshot of the generation; and
/// without that no further than its start.
pub proof fn a_window_reaches_as_far_as_the_slowest(m: MetadataModel, table: Seq<char>)
    requires
        restore_window(m, table) is Some,
    ensures
        ({
            let g = latest_generation(m, table);
            let w = restore_window(m, table)->0;
            let snapshots = exists|id: Seq<char>| snapshot_of(m, table, g, id);
            let sealed = exists|k: (TabletId, u64)| segment_of(m, table, g, k);
            &&& sealed ==> {
                &&& forall|k: (TabletId, u64), ms: u64|
                    segment_of(m, table, g, k) && last_sealed_at(m, k.0, ms) ==> w.latest_ms <= ms
                        || w.latest_ms == w.earliest_ms
                &&& w.latest_ms == w.earliest_ms || exists|k: (TabletId, u64)|
                    segment_of(m, table, g, k) && last_sealed_at(m, k.0, w.latest_ms)
                &&& (forall|k: (TabletId, u64), ms: u64|
                    segment_of(m, table, g, k) && last_sealed_at(m, k.0, ms) ==> w.earliest_ms
                        < ms) ==> w.earliest_ms < w.latest_ms
            }
            &&& !sealed && snapshots ==> {
                &&& forall|id: Seq<char>|
                    snapshot_of(m, table, g, id) ==> m.backups[id].manifest.created_wall_ms
                        <= w.latest_ms
                &&& w.latest_ms == w.earliest_ms || exists|id: Seq<char>|
                    snapshot_of(m, table, g, id) && m.backups[id].manifest.created_wall_ms
                        == w.latest_ms
            }
            &&& !sealed && !snapshots ==> w.latest_ms == w.earliest_ms
        }),
{
    let g = latest_generation(m, table);
    let w = restore_window(m, table)->0;
    ends_of_the_snapshots(m, table, g);
    ends_of_the_last_seals(m, table, g);
    segments_of_a_generation(m, table, g);
    assert forall|t: TabletId, ms: u64|
        last_pitr_seal(m, t) == Some(ms) <==> last_sealed_at(m, t, ms) by {
        last_seals(m, t);
    }
    if exists|k: (TabletId, u64)| segment_of(m, table, g, k) {
        let end = least(last_seal_times(m, table, g))->0;
        let k = choose|k: (TabletId, u64)|
            segment_of(m, table, g, k) && last_pitr_seal(m, k.0) == Some(end);
        assert(segment_of(m, table, g, k) && last_sealed_at(m, k.0, end));
    }
}

/// The base snapshots of a table are listed in the order in which they were taken, each once,
/// beside the rows that the catalog has; all that are tagged and in the catalog are listed.
pub proof fn base_snapshots_are_listed_as_they_are(m: MetadataModel, table: Seq<char>)
    requires
        lists::<(u64, BackupId)>(bases_of(m, table), base_keys(m, table)),
    ensures
        ({
            let rows = base_rows(m, bases_of(m, table));
            &&& forall|i: int|
                0 <= i < rows.len() ==> {
                    let (id, row) = #[trigger] rows[i];
                    m.pitr_base_backups.contains(id) && m.backups.contains_key(id) && row
                        == m.backups[id] && row.table == table
                }
            &&& forall|i: int, j: int|
                0 <= i < j < rows.len() ==> (#[trigger] rows[i]).0 != (#[trigger] rows[j]).0
                    && rows[i].1.manifest.created_wall_ms <= rows[j].1.manifest.created_wall_ms
            &&& forall|id: Seq<char>| #[trigger]
                m.pitr_base_backups.contains(id) && m.backups.contains_key(id)
                    && m.backups[id].table == table ==> exists|i: int|
                    0 <= i < rows.len() && (#[trigger] rows[i]).0 == id
        }),
{
    let keys = bases_of(m, table);
    let rows = base_rows(m, keys);
    assert forall|i: int| 0 <= i < rows.len() implies ({
        let (id, row) = #[trigger] rows[i];
        m.pitr_base_backups.contains(id) && m.backups.contains_key(id) && row == m.backups[id]
            && row.table == table
    }) by {
        assert(keys.contains(keys[i]));
    }
    assert forall|i: int, j: int| 0 <= i < j < rows.len() implies (#[trigger] rows[i]).0 != (
    #[trigger] rows[j]).0 && rows[i].1.manifest.created_wall_ms
        <= rows[j].1.manifest.created_wall_ms by {
        assert(keys.contains(keys[i]) && keys.contains(keys[j]));
        assert(<(u64, BackupId)>::before(keys[i], keys[j]));
        <(u64, BackupId)>::before_irreflexive(keys[i]);
    }
    assert forall|id: Seq<char>| #[trigger]
        m.pitr_base_backups.contains(id) && m.backups.contains_key(id) && m.backups[id].table
            == table implies exists|i: int| 0 <= i < rows.len() && (#[trigger] rows[i]).0 == id by {
        let k = (m.backups[id].manifest.created_wall_ms, id);
        assert(base_keys(m, table).contains(k));
        assert(keys.contains(k));
        let i = choose|i: int| 0 <= i < keys.len() && keys[i] == k;
        assert(rows[i].0 == id);
    }
}

} // verus!
