//! The mirror is faithful: the keyspace that it writes is the metadata, and leads back to it.
use crate::advice::AdviceModel;
use crate::apply::{can_apply, step};
use crate::backups::progress_of;
use crate::command::{ApplyOutcome, MetaCommand};
use crate::entity::{
    addressed, entity_at, held, image, install, installed, key_of, write_at, write_to, writes_at,
    written, EntityKeyModel, EntityModel, EntityWriteModel,
};
use crate::ids::{NodeId, TabletId};
use crate::laws::{
    catalogs_begin_finite, catalogs_stay_finite, only_applied_commands_change_the_state,
};
use crate::lineage::children;
use crate::meta::{empty_metadata, finite, MetadataModel};
use crate::mirror::{
    backfill_keys, child_key, child_keys, doomed, mirror_writes, named, orphaned, placing_keys,
    placing_of_tablets, puts, tablet_keys, touched,
};
use crate::rows::BackupId;
use crate::sorted_map::{listing, listing_exists};
use crate::tables::index_backfill_of;
use crate::tablet_map::{backfill_of, dead_members, tablets_of};
use vstd::prelude::*;

verus! {

/// Whether two keyspaces hold the same under `k`.
pub open spec fn agree(
    a: Map<EntityKeyModel, EntityModel>,
    b: Map<EntityKeyModel, EntityModel>,
    k: EntityKeyModel,
) -> bool {
    a.contains_key(k) == b.contains_key(k) && (a.contains_key(k) ==> a[k] == b[k])
}

/// Changes toward a state bring the keys that they touch there and leave the others alone.
proof fn writes_settle(
    space: Map<EntityKeyModel, EntityModel>,
    m: MetadataModel,
    keys: Seq<EntityKeyModel>,
)
    ensures
        forall|k: EntityKeyModel|
            keys.contains(k) ==> #[trigger] agree(
                written(space, writes_at(m, keys)),
                image(m),
                k,
            ),
        forall|k: EntityKeyModel|
            !keys.contains(k) ==> #[trigger] agree(
                written(space, writes_at(m, keys)),
                space,
                k,
            ),
    decreases keys.len(),
{
    let ws = writes_at(m, keys);
    if keys.len() > 0 {
        let rest = keys.drop_last();
        let last = keys.last();
        writes_settle(space, m, rest);
        assert(ws.drop_last() =~= writes_at(m, rest));
        assert(ws.last() == write_at(m, last));
        assert(key_of(entity_at(m, last)) == last);
        assert(keys =~= rest.push(last));
        assert forall|k: EntityKeyModel| keys.contains(k) implies agree(
            written(space, ws),
            image(m),
            k,
        ) by {
            if k != last {
                let i = choose|i: int| 0 <= i < keys.len() && keys[i] == k;
                assert(rest[i] == k);
                assert(rest.contains(k));
                assert(agree(written(space, writes_at(m, rest)), image(m), k));
            }
        }
        assert forall|k: EntityKeyModel| !keys.contains(k) implies agree(
            written(space, ws),
            space,
            k,
        ) by {
            assert(keys[rest.len() as int] == last);
            if rest.contains(k) {
                let i = choose|i: int| 0 <= i < rest.len() && rest[i] == k;
                assert(keys[i] == k);
            }
            assert(agree(written(space, writes_at(m, rest)), space, k));
        }
    }
}

/// A key that is not touched is in none of the three parts.
proof fn not_touched(m: MetadataModel, post: MetadataModel, c: MetaCommand, k: EntityKeyModel)
    requires
        !touched(m, post, c).contains(k),
    ensures
        !named(post, c).contains(k),
        !doomed(m, c).contains(k),
        !orphaned(m, post, c).contains(k),
{
    let s = touched(m, post, c);
    let n = named(post, c);
    let d = doomed(m, c);
    let o = orphaned(m, post, c);
    if n.contains(k) {
        let i = choose|i: int| 0 <= i < n.len() && n[i] == k;
        assert(s[i] == k);
    }
    if d.contains(k) {
        let i = choose|i: int| 0 <= i < d.len() && d[i] == k;
        assert(s[n.len() + i] == k);
    }
    if o.contains(k) {
        let i = choose|i: int| 0 <= i < o.len() && o[i] == k;
        assert(s[n.len() + d.len() + i] == k);
    }
}

proof fn members_touch_what_they_change(
    m: MetadataModel,
    c: MetaCommand,
    a: AdviceModel,
    k: EntityKeyModel,
)
    requires
        c is UpsertMember || c is RegisterCpAddr || c is RegisterNodeAddrs || c is RemoveMember
            || c is RegisterNode,
        step(m, c, a).1 == ApplyOutcome::Applied,
        !touched(m, step(m, c, a).0, c).contains(k),
    ensures
        agree(image(m), image(step(m, c, a).0), k),
{
    let s = named(step(m, c, a).0, c);
    not_touched(m, step(m, c, a).0, c, k);
    if s.len() > 0 {
        assert(s[0] != k);
    }
    if s.len() > 1 {
        assert(s[1] != k);
    }
    if s.len() > 2 {
        assert(s[2] != k);
    }
}

proof fn tablets_touch_what_they_change(
    m: MetadataModel,
    c: MetaCommand,
    a: AdviceModel,
    k: EntityKeyModel,
)
    requires
        c is CreateTablet || c is CasTabletReplicas || c is SetTabletPolicy,
        step(m, c, a).1 == ApplyOutcome::Applied,
        !touched(m, step(m, c, a).0, c).contains(k),
    ensures
        agree(image(m), image(step(m, c, a).0), k),
{
    let s = named(step(m, c, a).0, c);
    not_touched(m, step(m, c, a).0, c, k);
    if s.len() > 0 {
        assert(s[0] != k);
    }
    if s.len() > 1 {
        assert(s[1] != k);
    }
    if s.len() > 2 {
        assert(s[2] != k);
    }
}

proof fn splits_touch_what_they_change(
    m: MetadataModel,
    c: MetaCommand,
    a: AdviceModel,
    k: EntityKeyModel,
)
    requires
        c is BeginSplitInPlace || c is MarkSplitPlacingDone || c is RetargetSplitPlacing,
        step(m, c, a).1 == ApplyOutcome::Applied,
        !touched(m, step(m, c, a).0, c).contains(k),
    ensures
        agree(image(m), image(step(m, c, a).0), k),
{
    let s = named(step(m, c, a).0, c);
    not_touched(m, step(m, c, a).0, c, k);
    if s.len() > 0 {
        assert(s[0] != k);
    }
    if s.len() > 1 {
        assert(s[1] != k);
    }
    if s.len() > 2 {
        assert(s[2] != k);
    }
}

proof fn tables_touch_what_they_change(
    m: MetadataModel,
    c: MetaCommand,
    a: AdviceModel,
    k: EntityKeyModel,
)
    requires
        c is CreateTableSchema || c is DropTableSchema || c is ReplaceTableSchema
            || c is CreateTableIndex || c is SetIndexStatus || c is MarkIndexBackfilled,
        step(m, c, a).1 == ApplyOutcome::Applied,
        !touched(m, step(m, c, a).0, c).contains(k),
    ensures
        agree(image(m), image(step(m, c, a).0), k),
{
    let s = named(step(m, c, a).0, c);
    not_touched(m, step(m, c, a).0, c, k);
    if s.len() > 0 {
        assert(s[0] != k);
    }
    if s.len() > 1 {
        assert(s[1] != k);
    }
    if s.len() > 2 {
        assert(s[2] != k);
    }
}

proof fn settings_touch_what_they_change(
    m: MetadataModel,
    c: MetaCommand,
    a: AdviceModel,
    k: EntityKeyModel,
)
    requires
        c is SetTableStream || c is SetTableTtl || c is SetTableThroughput || c is TagResource
            || c is UntagResource || c is UpdateContinuousBackups,
        step(m, c, a).1 == ApplyOutcome::Applied,
        !touched(m, step(m, c, a).0, c).contains(k),
    ensures
        agree(image(m), image(step(m, c, a).0), k),
{
    let s = named(step(m, c, a).0, c);
    not_touched(m, step(m, c, a).0, c, k);
    if s.len() > 0 {
        assert(s[0] != k);
    }
    if s.len() > 1 {
        assert(s[1] != k);
    }
    if s.len() > 2 {
        assert(s[2] != k);
    }
}

proof fn seals_touch_what_they_change(
    m: MetadataModel,
    c: MetaCommand,
    a: AdviceModel,
    k: EntityKeyModel,
)
    requires
        c is SealStreamShard || c is SealPitrSegment,
        step(m, c, a).1 == ApplyOutcome::Applied,
        !touched(m, step(m, c, a).0, c).contains(k),
    ensures
        agree(image(m), image(step(m, c, a).0), k),
{
    let s = named(step(m, c, a).0, c);
    not_touched(m, step(m, c, a).0, c, k);
    if s.len() > 0 {
        assert(s[0] != k);
    }
    if s.len() > 1 {
        assert(s[1] != k);
    }
    if s.len() > 2 {
        assert(s[2] != k);
    }
}

proof fn backups_touch_what_they_change(
    m: MetadataModel,
    c: MetaCommand,
    a: AdviceModel,
    k: EntityKeyModel,
)
    requires
        c is BeginBackup || c is RecordBackupTabletComplete || c is CompleteBackup
            || c is FailBackup || c is MarkBackupDeleted,
        step(m, c, a).1 == ApplyOutcome::Applied,
        !touched(m, step(m, c, a).0, c).contains(k),
    ensures
        agree(image(m), image(step(m, c, a).0), k),
{
    let s = named(step(m, c, a).0, c);
    not_touched(m, step(m, c, a).0, c, k);
    if s.len() > 0 {
        assert(s[0] != k);
    }
    if s.len() > 1 {
        assert(s[1] != k);
    }
    if s.len() > 2 {
        assert(s[2] != k);
    }
}

proof fn restores_touch_what_they_change(
    m: MetadataModel,
    c: MetaCommand,
    a: AdviceModel,
    k: EntityKeyModel,
)
    requires
        c is BeginRestore || c is CompleteRestore || c is FailRestore,
        step(m, c, a).1 == ApplyOutcome::Applied,
        !touched(m, step(m, c, a).0, c).contains(k),
    ensures
        agree(image(m), image(step(m, c, a).0), k),
{
    let s = named(step(m, c, a).0, c);
    not_touched(m, step(m, c, a).0, c, k);
    if s.len() > 0 {
        assert(s[0] != k);
    }
    if s.len() > 1 {
        assert(s[1] != k);
    }
    if s.len() > 2 {
        assert(s[2] != k);
    }
}

/// What one child came with is among what the children came with.
proof fn child_keys_has(
    m: MetadataModel,
    ids: Seq<TabletId>,
    child: TabletId,
    k: EntityKeyModel,
)
    requires
        ids.contains(child),
        child_key(m, child).contains(k),
    ensures
        child_keys(m, ids).contains(k),
    decreases ids.len(),
{
    let rest = child_keys(m, ids.drop_last());
    let own = child_key(m, ids.last());
    if ids.last() == child {
        let i = choose|i: int| 0 <= i < own.len() && own[i] == k;
        assert(child_keys(m, ids)[rest.len() + i] == k);
    } else {
        let j = choose|j: int| 0 <= j < ids.len() && ids[j] == child;
        assert(ids.drop_last()[j] == child);
        child_keys_has(m, ids.drop_last(), child, k);
        let i = choose|i: int| 0 <= i < rest.len() && rest[i] == k;
        assert(child_keys(m, ids)[i] == k);
    }
}

/// The keys of a child that are touched by its cutover.
proof fn cutover_touches_child(
    m: MetadataModel,
    post: MetadataModel,
    c: MetaCommand,
    child: TabletId,
    k: EntityKeyModel,
)
    requires
        post.split_lineage.dom().finite(),
        c is CutoverSplit,
        children(post.split_lineage, c->CutoverSplit_parent).contains(child),
        !touched(m, post, c).contains(k),
    ensures
        k != EntityKeyModel::Tablet(child),
        k != EntityKeyModel::SplitLineage(child),
        post.policies.contains_key(child) ==> k != EntityKeyModel::Policy(child),
        post.split_placing.contains_key(child) ==> k != EntityKeyModel::SplitPlacing(child),
{
    not_touched(m, post, c, k);
    let kids = children(post.split_lineage, c->CutoverSplit_parent);
    post.split_lineage.dom().lemma_len_filter(
        crate::lineage::split_from(post.split_lineage, c->CutoverSplit_parent),
    );
    listing_exists::<TabletId>(kids);
    let ids = listing::<TabletId>(kids);
    assert(ids.contains(child));
    let s = named(post, c);
    let tail = child_keys(post, ids);
    assert(!tail.contains(k)) by {
        if tail.contains(k) {
            let i = choose|i: int| 0 <= i < tail.len() && tail[i] == k;
            assert(s[2 + i] == k);
        }
    }
    let ck = child_key(post, child);
    if ck.contains(k) {
        child_keys_has(post, ids, child, k);
    }
    assert(ck[0] == EntityKeyModel::Tablet(child));
    assert(ck[1] == EntityKeyModel::SplitLineage(child));
    if post.policies.contains_key(child) {
        assert(ck[2] == EntityKeyModel::Policy(child));
    }
    if post.split_placing.contains_key(child) {
        assert(ck[ck.len() - 1] == EntityKeyModel::SplitPlacing(child));
    }
}

proof fn cutover_touches_what_it_changes(
    m: MetadataModel,
    c: MetaCommand,
    a: AdviceModel,
    k: EntityKeyModel,
)
    requires
        finite(m),
        c is CutoverSplit,
        step(m, c, a).1 == ApplyOutcome::Applied,
        !touched(m, step(m, c, a).0, c).contains(k),
    ensures
        agree(image(m), image(step(m, c, a).0), k),
{
    let post = step(m, c, a).0;
    reveal(finite);
    let s = named(post, c);
    not_touched(m, post, c, k);
    let parent = c->CutoverSplit_parent;
    let intent = m.tablets[parent].inplace_split->0;
    assert(s[0] == EntityKeyModel::Tablet(parent));
    assert(s[1] == EntityKeyModel::Policy(parent));
    cutover_touches_child(m, post, c, intent.left.id, k);
    cutover_touches_child(m, post, c, intent.right.id, k);
}

/// The keys of each of `ids` are among the keys of the tablets.
proof fn tablet_keys_has(ids: Seq<TabletId>, t: TabletId)
    requires
        ids.contains(t),
    ensures
        tablet_keys(ids).contains(EntityKeyModel::Tablet(t)),
        tablet_keys(ids).contains(EntityKeyModel::Policy(t)),
    decreases ids.len(),
{
    let rest = tablet_keys(ids.drop_last());
    let s = tablet_keys(ids);
    if ids.last() == t {
        assert(s[rest.len() as int] == EntityKeyModel::Tablet(t));
        assert(s[rest.len() as int + 1] == EntityKeyModel::Policy(t));
    } else {
        let j = choose|j: int| 0 <= j < ids.len() && ids[j] == t;
        assert(ids.drop_last()[j] == t);
        tablet_keys_has(ids.drop_last(), t);
        let i = choose|i: int| 0 <= i < rest.len() && rest[i] == EntityKeyModel::Tablet(t);
        assert(s[i] == EntityKeyModel::Tablet(t));
        let i = choose|i: int| 0 <= i < rest.len() && rest[i] == EntityKeyModel::Policy(t);
        assert(s[i] == EntityKeyModel::Policy(t));
    }
}

proof fn dropping_touches_what_it_changes(
    m: MetadataModel,
    c: MetaCommand,
    a: AdviceModel,
    k: EntityKeyModel,
)
    requires
        finite(m),
        addressed(m),
        c is DropTableTablets,
        step(m, c, a).1 == ApplyOutcome::Applied,
        !touched(m, step(m, c, a).0, c).contains(k),
    ensures
        agree(image(m), image(step(m, c, a).0), k),
{
    let post = step(m, c, a).0;
    reveal(finite);
    not_touched(m, post, c, k);
    let table = c->DropTableTablets_table@;
    let dropped = tablets_of(m, table);
    m.tablets.dom().lemma_len_filter(crate::tablet_map::scoped(m, table));
    listing_exists::<TabletId>(dropped);
    let ids = listing::<TabletId>(dropped);
    let d = doomed(m, c);
    let d1 = tablet_keys(ids);
    let b = backfill_of(m, dropped);
    m.index_backfill.dom().lemma_len_filter(crate::tablet_map::backfills(dropped, None));
    listing_exists::<(TabletId, String)>(b);
    let bs = listing::<(TabletId, String)>(b);
    let d2 = backfill_keys(bs);
    let p = placing_of_tablets(m, dropped);
    m.split_placing.dom().lemma_len_filter(crate::mirror::among(dropped));
    listing_exists::<TabletId>(p);
    let ps = listing::<TabletId>(p);
    let d3 = placing_keys(ps);
    assert(d =~= d1 + d2 + d3);
    let dead = dead_members(m.cp_member_tablets, post.tablets);
    m.cp_member_tablets.dom().lemma_len_filter(
        crate::tablet_map::dead_member(m.cp_member_tablets, post.tablets),
    );
    listing_exists::<NodeId>(dead);
    let ns = listing::<NodeId>(dead);
    let o = orphaned(m, post, c);
    match k {
        EntityKeyModel::Tablet(t) | EntityKeyModel::Policy(t) => {
            if dropped.contains(t) {
                assert(ids.contains(t));
                tablet_keys_has(ids, t);
                let i = choose|i: int| 0 <= i < d1.len() && d1[i] == k;
                assert(d[i] == k);
            }
        },
        EntityKeyModel::IndexBackfill(x) => {
            if b.contains(x) {
                assert(bs.contains(x));
                let i = choose|i: int| 0 <= i < bs.len() && bs[i] == x;
                assert(d[d1.len() + i] == k);
            }
        },
        EntityKeyModel::SplitPlacing(t) => {
            if p.contains(t) {
                assert(ps.contains(t));
                let i = choose|i: int| 0 <= i < ps.len() && ps[i] == t;
                assert(d[d1.len() + d2.len() + i] == k);
            }
        },
        EntityKeyModel::CpMemberAddr(n) => {
            if dead.contains(n) {
                assert(ns.contains(n));
                let i = choose|i: int| 0 <= i < ns.len() && ns[i] == n;
                assert(o[i] == k);
            }
        },
        _ => {},
    }
}

proof fn index_drop_touches_what_it_changes(
    m: MetadataModel,
    c: MetaCommand,
    a: AdviceModel,
    k: EntityKeyModel,
)
    requires
        finite(m),
        c is DropTableIndex,
        step(m, c, a).1 == ApplyOutcome::Applied,
        !touched(m, step(m, c, a).0, c).contains(k),
    ensures
        agree(image(m), image(step(m, c, a).0), k),
{
    let post = step(m, c, a).0;
    reveal(finite);
    not_touched(m, post, c, k);
    assert(named(post, c)[0] != k);
    let table = c->DropTableIndex_table@;
    let index = c->DropTableIndex_index@;
    let b = index_backfill_of(m, table, index);
    m.index_backfill.dom().lemma_len_filter(
        crate::tablet_map::backfills(tablets_of(m, table), Some(index)),
    );
    listing_exists::<(TabletId, String)>(b);
    let bs = listing::<(TabletId, String)>(b);
    match k {
        EntityKeyModel::IndexBackfill(x) => {
            if b.contains(x) {
                assert(bs.contains(x));
                let i = choose|i: int| 0 <= i < bs.len() && bs[i] == x;
                assert(doomed(m, c)[i] == k);
            }
        },
        _ => {},
    }
}

proof fn backup_delete_touches_what_it_changes(
    m: MetadataModel,
    c: MetaCommand,
    a: AdviceModel,
    k: EntityKeyModel,
)
    requires
        finite(m),
        c is DeleteBackup,
        step(m, c, a).1 == ApplyOutcome::Applied,
        !touched(m, step(m, c, a).0, c).contains(k),
    ensures
        agree(image(m), image(step(m, c, a).0), k),
{
    let post = step(m, c, a).0;
    reveal(finite);
    not_touched(m, post, c, k);
    assert(named(post, c)[0] != k);
    let id = c->DeleteBackup_backup_id@;
    let b = progress_of(m, id);
    m.backup_tablet_progress.dom().lemma_len_filter(crate::backups::captured_for(id));
    listing_exists::<(BackupId, TabletId)>(b);
    let bs = listing::<(BackupId, TabletId)>(b);
    let d = doomed(m, c);
    match k {
        EntityKeyModel::BackupProgress(x) => {
            if b.contains(x) {
                assert(bs.contains(x));
                let i = choose|i: int| 0 <= i < bs.len() && bs[i] == x;
                assert(d[i] == k);
            }
        },
        EntityKeyModel::PitrBaseBackup(x) => {
            if x == id && m.pitr_base_backups.contains(id) {
                assert(d[bs.len() as int] == k);
            }
        },
        _ => {},
    }
}

proof fn expiry_touches_what_it_changes(
    m: MetadataModel,
    c: MetaCommand,
    a: AdviceModel,
    k: EntityKeyModel,
)
    requires
        c is ExpireStreamShards || c is ExpirePitrSegments,
        step(m, c, a).1 == ApplyOutcome::Applied,
        !touched(m, step(m, c, a).0, c).contains(k),
    ensures
        agree(image(m), image(step(m, c, a).0), k),
{
    let post = step(m, c, a).0;
    not_touched(m, post, c, k);
    let s = named(post, c);
    match c {
        MetaCommand::ExpireStreamShards { rows, .. } => {
            let ids = rows.deep_view();
            match k {
                EntityKeyModel::StreamShard(x) => {
                    if ids.contains(x) {
                        let i = choose|i: int| 0 <= i < ids.len() && ids[i] == x;
                        assert(s[i] == k);
                    }
                },
                _ => {},
            }
        },
        MetaCommand::ExpirePitrSegments { rows, .. } => {
            let ids = rows.deep_view();
            match k {
                EntityKeyModel::PitrSegment(x) => {
                    if ids.contains(x) {
                        let i = choose|i: int| 0 <= i < ids.len() && ids[i] == x;
                        assert(s[i] == k);
                    }
                },
                _ => {},
            }
        },
        _ => {},
    }
}

/// A key that an applied command does not touch holds what it held.
proof fn untouched_keys_are_unchanged(
    m: MetadataModel,
    c: MetaCommand,
    a: AdviceModel,
    k: EntityKeyModel,
)
    requires
        finite(m),
        addressed(m),
        step(m, c, a).1 == ApplyOutcome::Applied,
        !touched(m, step(m, c, a).0, c).contains(k),
    ensures
        agree(image(m), image(step(m, c, a).0), k),
{
    match c {
        MetaCommand::NoOp => {},
        MetaCommand::UpsertMember { .. }
        | MetaCommand::RegisterCpAddr { .. }
        | MetaCommand::RegisterNodeAddrs { .. }
        | MetaCommand::RemoveMember { .. }
        | MetaCommand::RegisterNode { .. } => {
            members_touch_what_they_change(m, c, a, k);
        },
        MetaCommand::CreateTablet { .. }
        | MetaCommand::CasTabletReplicas { .. }
        | MetaCommand::SetTabletPolicy { .. } => {
            tablets_touch_what_they_change(m, c, a, k);
        },
        MetaCommand::BeginSplitInPlace { .. }
        | MetaCommand::MarkSplitPlacingDone { .. }
        | MetaCommand::RetargetSplitPlacing { .. } => {
            splits_touch_what_they_change(m, c, a, k);
        },
        MetaCommand::CreateTableSchema { .. }
        | MetaCommand::DropTableSchema { .. }
        | MetaCommand::ReplaceTableSchema { .. }
        | MetaCommand::CreateTableIndex { .. }
        | MetaCommand::SetIndexStatus { .. }
        | MetaCommand::MarkIndexBackfilled { .. } => {
            tables_touch_what_they_change(m, c, a, k);
        },
        MetaCommand::SetTableStream { .. }
        | MetaCommand::SetTableTtl { .. }
        | MetaCommand::SetTableThroughput { .. }
        | MetaCommand::TagResource { .. }
        | MetaCommand::UntagResource { .. }
        | MetaCommand::UpdateContinuousBackups { .. } => {
            settings_touch_what_they_change(m, c, a, k);
        },
        MetaCommand::SealStreamShard { .. }
        | MetaCommand::SealPitrSegment { .. } => {
            seals_touch_what_they_change(m, c, a, k);
        },
        MetaCommand::BeginBackup { .. }
        | MetaCommand::RecordBackupTabletComplete { .. }
        | MetaCommand::CompleteBackup { .. }
        | MetaCommand::FailBackup { .. }
        | MetaCommand::MarkBackupDeleted { .. } => {
            backups_touch_what_they_change(m, c, a, k);
        },
        MetaCommand::BeginRestore { .. }
        | MetaCommand::CompleteRestore { .. }
        | MetaCommand::FailRestore { .. } => {
            restores_touch_what_they_change(m, c, a, k);
        },
        MetaCommand::CutoverSplit { .. } => {
            cutover_touches_what_it_changes(m, c, a, k);
        },
        MetaCommand::DropTableTablets { .. } => {
            dropping_touches_what_it_changes(m, c, a, k);
        },
        MetaCommand::DropTableIndex { .. } => {
            index_drop_touches_what_it_changes(m, c, a, k);
        },
        MetaCommand::DeleteBackup { .. } => {
            backup_delete_touches_what_it_changes(m, c, a, k);
        },
        MetaCommand::ExpireStreamShards { .. } | MetaCommand::ExpirePitrSegments { .. } => {
            expiry_touches_what_it_changes(m, c, a, k);
        },
    }
}

/// The mirror tracks the state: a keyspace that holds the metadata before a command, with the
/// changes that the command implies written to it, holds the metadata after the command.
pub proof fn mirror_tracks_the_state(m: MetadataModel, c: MetaCommand, a: AdviceModel)
    requires
        finite(m),
        addressed(m),
    ensures
        ({
            let (post, outcome) = step(m, c, a);
            written(image(m), mirror_writes(m, post, c, outcome)) == image(post)
        }),
{
    let (post, outcome) = step(m, c, a);
    only_applied_commands_change_the_state(m, c, a);
    if outcome == ApplyOutcome::Applied {
        let keys = touched(m, post, c);
        let result = written(image(m), mirror_writes(m, post, c, outcome));
        writes_settle(image(m), post, keys);
        assert forall|k: EntityKeyModel| agree(result, image(post), k) by {
            if !keys.contains(k) {
                untouched_keys_are_unchanged(m, c, a, k);
                assert(agree(result, image(m), k));
            }
        }
        assert forall|k: EntityKeyModel| #[trigger]
            result.contains_key(k) == image(post).contains_key(k) by {
            assert(agree(result, image(post), k));
        }
        assert forall|k: EntityKeyModel| result.contains_key(k) implies result[k]
            == image(post)[k] by {
            assert(agree(result, image(post), k));
        }
        assert(result =~= image(post));
    }
}

/// A fresh cluster records no tablet for a member without an address.
pub proof fn members_begin_addressed()
    ensures
        addressed(empty_metadata()),
{
}

/// A tablet is never recorded for a member without an address.
pub proof fn members_stay_addressed(m: MetadataModel, c: MetaCommand, a: AdviceModel)
    requires
        addressed(m),
    ensures
        addressed(step(m, c, a).0),
{
}

/// Two states that hold the same under every key are the same.
pub proof fn image_determines_the_state(a: MetadataModel, b: MetadataModel)
    requires
        addressed(a),
        addressed(b),
        image(a) == image(b),
    ensures
        a == b,
{
    assert forall|k: EntityKeyModel| #[trigger] held(a, k) == held(b, k) by {
        assert(image(a).dom().contains(k) == held(a, k));
        assert(image(b).dom().contains(k) == held(b, k));
    }
    assert forall|k: EntityKeyModel| #[trigger] held(a, k) implies entity_at(a, k) == entity_at(
        b,
        k,
    ) by {
        assert(image(a).dom().contains(k));
        assert(image(a)[k] == entity_at(a, k));
        assert(image(b)[k] == entity_at(b, k));
    }
    assert forall|k: TabletId| #[trigger]
        a.tablets.dom().contains(k) == b.tablets.dom().contains(k) by {
        assert(held(a, EntityKeyModel::Tablet(k)) == held(b, EntityKeyModel::Tablet(k)));
    }
    assert forall|k: TabletId|
        a.tablets.dom().contains(k) implies #[trigger] a.tablets[k] == b.tablets[k] by {
        assert(held(a, EntityKeyModel::Tablet(k)));
    }
    assert(a.tablets =~= b.tablets);
    assert forall|k: Seq<char>| #[trigger]
        a.members.dom().contains(k) == b.members.dom().contains(k) by {
        assert(held(a, EntityKeyModel::Member(k)) == held(b, EntityKeyModel::Member(k)));
    }
    assert forall|k: Seq<char>|
        a.members.dom().contains(k) implies #[trigger] a.members[k] == b.members[k] by {
        assert(held(a, EntityKeyModel::Member(k)));
    }
    assert(a.members =~= b.members);
    assert forall|k: Seq<char>| #[trigger]
        a.schemas.dom().contains(k) == b.schemas.dom().contains(k) by {
        assert(held(a, EntityKeyModel::Schema(k)) == held(b, EntityKeyModel::Schema(k)));
    }
    assert forall|k: Seq<char>|
        a.schemas.dom().contains(k) implies #[trigger] a.schemas[k] == b.schemas[k] by {
        assert(held(a, EntityKeyModel::Schema(k)));
    }
    assert(a.schemas =~= b.schemas);
    assert forall|k: TabletId| #[trigger]
        a.policies.dom().contains(k) == b.policies.dom().contains(k) by {
        assert(held(a, EntityKeyModel::Policy(k)) == held(b, EntityKeyModel::Policy(k)));
    }
    assert forall|k: TabletId|
        a.policies.dom().contains(k) implies #[trigger] a.policies[k] == b.policies[k] by {
        assert(held(a, EntityKeyModel::Policy(k)));
    }
    assert(a.policies =~= b.policies);
    assert forall|k: Seq<char>| #[trigger]
        a.node_addrs.dom().contains(k) == b.node_addrs.dom().contains(k) by {
        assert(held(a, EntityKeyModel::NodeAddrs(k)) == held(b, EntityKeyModel::NodeAddrs(k)));
    }
    assert forall|k: Seq<char>|
        a.node_addrs.dom().contains(k) implies #[trigger] a.node_addrs[k] == b.node_addrs[k] by {
        assert(held(a, EntityKeyModel::NodeAddrs(k)));
    }
    assert(a.node_addrs =~= b.node_addrs);
    assert forall|k: Seq<char>| #[trigger]
        a.pitr_generation.dom().contains(k) == b.pitr_generation.dom().contains(k) by {
        assert(held(a, EntityKeyModel::PitrGeneration(k))
            == held(b, EntityKeyModel::PitrGeneration(k)));
    }
    assert forall|k: Seq<char>| a.pitr_generation.dom().contains(k) implies #[trigger]
        a.pitr_generation[k] == b.pitr_generation[k] by {
        assert(held(a, EntityKeyModel::PitrGeneration(k)));
    }
    assert(a.pitr_generation =~= b.pitr_generation);
    assert forall|k: (TabletId, u64)| #[trigger]
        a.stream_shards.dom().contains(k) == b.stream_shards.dom().contains(k) by {
        assert(held(a, EntityKeyModel::StreamShard(k)) == held(b, EntityKeyModel::StreamShard(k)));
    }
    assert forall|k: (TabletId, u64)| a.stream_shards.dom().contains(k) implies #[trigger]
        a.stream_shards[k] == b.stream_shards[k] by {
        assert(held(a, EntityKeyModel::StreamShard(k)));
    }
    assert(a.stream_shards =~= b.stream_shards);
    assert forall|k: (TabletId, Seq<char>)| #[trigger]
        a.index_backfill.dom().contains(k) == b.index_backfill.dom().contains(k) by {
        assert(held(a, EntityKeyModel::IndexBackfill(k))
            == held(b, EntityKeyModel::IndexBackfill(k)));
    }
    assert forall|k: (TabletId, Seq<char>)| a.index_backfill.dom().contains(k) implies #[trigger]
        a.index_backfill[k] == b.index_backfill[k] by {
        assert(held(a, EntityKeyModel::IndexBackfill(k)));
    }
    assert(a.index_backfill =~= b.index_backfill);
    assert forall|k: TabletId| #[trigger]
        a.split_lineage.dom().contains(k) == b.split_lineage.dom().contains(k) by {
        assert(held(a, EntityKeyModel::SplitLineage(k))
            == held(b, EntityKeyModel::SplitLineage(k)));
    }
    assert forall|k: TabletId| a.split_lineage.dom().contains(k) implies #[trigger]
        a.split_lineage[k] == b.split_lineage[k] by {
        assert(held(a, EntityKeyModel::SplitLineage(k)));
    }
    assert(a.split_lineage =~= b.split_lineage);
    assert forall|k: TabletId| #[trigger]
        a.split_placing.dom().contains(k) == b.split_placing.dom().contains(k) by {
        assert(held(a, EntityKeyModel::SplitPlacing(k))
            == held(b, EntityKeyModel::SplitPlacing(k)));
    }
    assert forall|k: TabletId| a.split_placing.dom().contains(k) implies #[trigger]
        a.split_placing[k] == b.split_placing[k] by {
        assert(held(a, EntityKeyModel::SplitPlacing(k)));
    }
    assert(a.split_placing =~= b.split_placing);
    assert forall|k: Seq<char>| #[trigger]
        a.backups.dom().contains(k) == b.backups.dom().contains(k) by {
        assert(held(a, EntityKeyModel::Backup(k)) == held(b, EntityKeyModel::Backup(k)));
    }
    assert forall|k: Seq<char>|
        a.backups.dom().contains(k) implies #[trigger] a.backups[k] == b.backups[k] by {
        assert(held(a, EntityKeyModel::Backup(k)));
    }
    assert(a.backups =~= b.backups);
    assert forall|k: (Seq<char>, TabletId)| #[trigger]
        a.backup_tablet_progress.dom().contains(k)
            == b.backup_tablet_progress.dom().contains(k) by {
        assert(held(a, EntityKeyModel::BackupProgress(k))
            == held(b, EntityKeyModel::BackupProgress(k)));
    }
    assert forall|k: (Seq<char>, TabletId)|
        a.backup_tablet_progress.dom().contains(k) implies #[trigger] a.backup_tablet_progress[k]
        == b.backup_tablet_progress[k] by {
        assert(held(a, EntityKeyModel::BackupProgress(k)));
    }
    assert(a.backup_tablet_progress =~= b.backup_tablet_progress);
    assert forall|k: Seq<char>| #[trigger]
        a.restores.dom().contains(k) == b.restores.dom().contains(k) by {
        assert(held(a, EntityKeyModel::Restore(k)) == held(b, EntityKeyModel::Restore(k)));
    }
    assert forall|k: Seq<char>|
        a.restores.dom().contains(k) implies #[trigger] a.restores[k] == b.restores[k] by {
        assert(held(a, EntityKeyModel::Restore(k)));
    }
    assert(a.restores =~= b.restores);
    assert forall|k: (TabletId, u64)| #[trigger]
        a.pitr_segments.dom().contains(k) == b.pitr_segments.dom().contains(k) by {
        assert(held(a, EntityKeyModel::PitrSegment(k)) == held(b, EntityKeyModel::PitrSegment(k)));
    }
    assert forall|k: (TabletId, u64)| a.pitr_segments.dom().contains(k) implies #[trigger]
        a.pitr_segments[k] == b.pitr_segments[k] by {
        assert(held(a, EntityKeyModel::PitrSegment(k)));
    }
    assert(a.pitr_segments =~= b.pitr_segments);
    assert(a.pitr_base_backups =~= b.pitr_base_backups) by {
        assert forall|k: Seq<char>|
            a.pitr_base_backups.contains(k) == b.pitr_base_backups.contains(k) by {
            let key = EntityKeyModel::PitrBaseBackup(k);
            assert(held(a, key) == held(b, key));
        }
    }
    assert(a.next_tablet_id == b.next_tablet_id) by {
        let key = EntityKeyModel::NextTabletId;
        assert(held(a, key) == held(b, key));
    }
    assert forall|k: Seq<char>| #[trigger]
        a.cp_member_addrs.dom().contains(k) == b.cp_member_addrs.dom().contains(k) by {
        let key = EntityKeyModel::CpMemberAddr(k);
        assert(held(a, key) == held(b, key));
    }
    assert forall|k: Seq<char>| a.cp_member_addrs.dom().contains(k) implies #[trigger]
        a.cp_member_addrs[k] == b.cp_member_addrs[k] by {
        assert(held(a, EntityKeyModel::CpMemberAddr(k)));
    }
    assert(a.cp_member_addrs =~= b.cp_member_addrs);
    assert forall|k: Seq<char>| #[trigger]
        a.cp_member_tablets.dom().contains(k) == b.cp_member_tablets.dom().contains(k) by {
        assert(held(a, EntityKeyModel::CpMemberAddr(k)) == a.cp_member_addrs.dom().contains(k));
    }
    assert forall|k: Seq<char>| a.cp_member_tablets.dom().contains(k) implies #[trigger]
        a.cp_member_tablets[k] == b.cp_member_tablets[k] by {
        assert(held(a, EntityKeyModel::CpMemberAddr(k)));
    }
    assert(a.cp_member_tablets =~= b.cp_member_tablets);
}

/// Whether a change to the keyspace and its installation on the metadata come to the same. They do
/// not where the allocator floor is set to zero and where a counter is deleted, neither of which
/// any command implies.
pub open spec fn tracks(w: EntityWriteModel) -> bool {
    match w {
        EntityWriteModel::Put(EntityModel::NextTabletId(v)) => v > 0,
        EntityWriteModel::Delete(EntityKeyModel::NextTabletId) => false,
        EntityWriteModel::Delete(EntityKeyModel::PitrGeneration(_)) => false,
        _ => true,
    }
}

/// Installing one change is writing it to the keyspace.
pub proof fn installation_tracks_the_keyspace(m: MetadataModel, w: EntityWriteModel)
    requires
        addressed(m),
        tracks(w),
    ensures
        image(install(m, w)) == write_to(image(m), w),
        addressed(install(m, w)),
{
    let space = write_to(image(m), w);
    let n = install(m, w);
    assert forall|k: EntityKeyModel| agree(image(n), space, k) by {}
    assert forall|k: EntityKeyModel| #[trigger]
        image(n).contains_key(k) == space.contains_key(k) by {
        assert(agree(image(n), space, k));
    }
    assert forall|k: EntityKeyModel| image(n).contains_key(k) implies image(n)[k] == space[k] by {
        assert(agree(image(n), space, k));
    }
    assert(image(n) =~= space);
}

/// Installing changes one by one is writing them to the keyspace.
proof fn installations_track_the_keyspace(m: MetadataModel, ws: Seq<EntityWriteModel>)
    requires
        addressed(m),
        forall|i: int| 0 <= i < ws.len() ==> tracks(#[trigger] ws[i]),
    ensures
        image(installed(m, ws)) == written(image(m), ws),
        addressed(installed(m, ws)),
    decreases ws.len(),
{
    if ws.len() > 0 {
        let rest = ws.drop_last();
        assert forall|i: int| 0 <= i < rest.len() implies tracks(#[trigger] rest[i]) by {
            assert(tracks(ws[i]));
        }
        installations_track_the_keyspace(m, rest);
        assert(tracks(ws[ws.len() - 1]));
        installation_tracks_the_keyspace(installed(m, rest), ws.last());
    }
}

/// A key of no counter.
spec fn plain(k: EntityKeyModel) -> bool {
    k !is NextTabletId && k !is PitrGeneration
}

proof fn child_keys_are_plain(m: MetadataModel, ids: Seq<TabletId>)
    ensures
        forall|i: int| 0 <= i < child_keys(m, ids).len() ==> plain(
            #[trigger] child_keys(m, ids)[i],
        ),
    decreases ids.len(),
{
    if ids.len() > 0 {
        child_keys_are_plain(m, ids.drop_last());
        let rest = child_keys(m, ids.drop_last());
        let own = child_key(m, ids.last());
        assert forall|i: int| 0 <= i < child_keys(m, ids).len() implies plain(
            #[trigger] child_keys(m, ids)[i],
        ) by {
            if i < rest.len() {
                assert(child_keys(m, ids)[i] == rest[i]);
            } else {
                assert(child_keys(m, ids)[i] == own[i - rest.len()]);
            }
        }
    }
}

proof fn tablet_keys_are_plain(ids: Seq<TabletId>)
    ensures
        forall|i: int| 0 <= i < tablet_keys(ids).len() ==> plain(#[trigger] tablet_keys(ids)[i]),
    decreases ids.len(),
{
    if ids.len() > 0 {
        tablet_keys_are_plain(ids.drop_last());
        let rest = tablet_keys(ids.drop_last());
        assert forall|i: int| 0 <= i < tablet_keys(ids).len() implies plain(
            #[trigger] tablet_keys(ids)[i],
        ) by {
            if i < rest.len() {
                assert(tablet_keys(ids)[i] == rest[i]);
            }
        }
    }
}

/// What a key that a command names must be for its change to track the keyspace.
spec fn sound_key(post: MetadataModel, k: EntityKeyModel) -> bool {
    match k {
        EntityKeyModel::NextTabletId => post.next_tablet_id > 0,
        EntityKeyModel::PitrGeneration(_) => held(post, k),
        _ => true,
    }
}

proof fn named_keys_are_sound(m: MetadataModel, c: MetaCommand, a: AdviceModel, i: int)
    requires
        can_apply(m, c),
        step(m, c, a).1 == ApplyOutcome::Applied,
        0 <= i < named(step(m, c, a).0, c).len(),
    ensures
        sound_key(step(m, c, a).0, named(step(m, c, a).0, c)[i]),
{
    let post = step(m, c, a).0;
    match c {
        MetaCommand::CutoverSplit { parent, .. } => {
            let ids = listing::<TabletId>(children(post.split_lineage, parent));
            child_keys_are_plain(post, ids);
            if i >= 2 {
                assert(named(post, c)[i] == child_keys(post, ids)[i - 2]);
                assert(plain(child_keys(post, ids)[i - 2]));
            } else {
                assert(named(post, c)[0] == EntityKeyModel::Tablet(parent));
                assert(named(post, c)[1] == EntityKeyModel::Policy(parent));
            }
        },
        _ => {},
    }
}

proof fn pruned_keys_are_sound(m: MetadataModel, c: MetaCommand, a: AdviceModel, k: EntityKeyModel)
    requires
        doomed(m, c).contains(k) || orphaned(m, step(m, c, a).0, c).contains(k),
    ensures
        sound_key(step(m, c, a).0, k),
{
    match c {
        MetaCommand::DropTableTablets { table } => {
            let ids = listing::<TabletId>(tablets_of(m, table@));
            tablet_keys_are_plain(ids);
            let d = doomed(m, c);
            if d.contains(k) {
                let i = choose|i: int| 0 <= i < d.len() && d[i] == k;
                if i < tablet_keys(ids).len() {
                    assert(d[i] == tablet_keys(ids)[i]);
                }
            }
        },
        _ => {},
    }
}

/// Replaying the mirror is applying the command: the changes that a command implies, installed on
/// the state before it, give the state after it.
pub proof fn replaying_the_mirror_applies_the_command(
    m: MetadataModel,
    c: MetaCommand,
    a: AdviceModel,
)
    requires
        can_apply(m, c),
        finite(m),
        addressed(m),
    ensures
        ({
            let (post, outcome) = step(m, c, a);
            installed(m, mirror_writes(m, post, c, outcome)) == post
        }),
{
    let (post, outcome) = step(m, c, a);
    let ws = mirror_writes(m, post, c, outcome);
    only_applied_commands_change_the_state(m, c, a);
    if outcome == ApplyOutcome::Applied {
        let keys = touched(m, post, c);
        assert forall|i: int| 0 <= i < ws.len() implies tracks(#[trigger] ws[i]) by {
            let n = named(post, c);
            let d = doomed(m, c);
            let o = orphaned(m, post, c);
            assert(ws[i] == write_at(post, keys[i]));
            assert(sound_key(post, keys[i])) by {
                if i < n.len() {
                    named_keys_are_sound(m, c, a, i);
                } else {
                    if i < n.len() + d.len() {
                        assert(d[i - n.len()] == keys[i]);
                    } else {
                        assert(o[i - n.len() - d.len()] == keys[i]);
                    }
                    pruned_keys_are_sound(m, c, a, keys[i]);
                }
            }
        }
        installations_track_the_keyspace(m, ws);
        mirror_tracks_the_state(m, c, a);
        members_stay_addressed(m, c, a);
        image_determines_the_state(installed(m, ws), post);
    }
}

/// Whether the entities are those of the keyspace, each once, in any order.
pub open spec fn enumerates(
    es: Seq<EntityModel>,
    space: Map<EntityKeyModel, EntityModel>,
) -> bool {
    &&& forall|i: int|
        0 <= i < es.len() ==> space.contains_key(key_of(#[trigger] es[i])) && space[key_of(es[i])]
            == es[i]
    &&& forall|i: int, j: int|
        0 <= i < j < es.len() ==> key_of(#[trigger] es[i]) != key_of(#[trigger] es[j])
    &&& forall|k: EntityKeyModel| #[trigger]
        space.contains_key(k) ==> exists|i: int| 0 <= i < es.len() && key_of(#[trigger] es[i]) == k
}

/// What the first of some entities with keys of their own make of an empty keyspace.
proof fn puts_fill(es: Seq<EntityModel>, n: int, k: EntityKeyModel)
    requires
        0 <= n <= es.len(),
        forall|i: int, j: int|
            0 <= i < j < es.len() ==> key_of(#[trigger] es[i]) != key_of(#[trigger] es[j]),
    ensures
        written(Map::empty(), puts(es.take(n))).contains_key(k) <==> exists|i: int|
            0 <= i < n && key_of(#[trigger] es[i]) == k,
        forall|i: int|
            0 <= i < n && key_of(#[trigger] es[i]) == k ==> written(
                Map::empty(),
                puts(es.take(n)),
            )[k] == es[i],
    decreases n,
{
    let none: Map<EntityKeyModel, EntityModel> = Map::empty();
    let ws = puts(es.take(n));
    if n > 0 {
        puts_fill(es, n - 1, k);
        assert(ws.drop_last() =~= puts(es.take(n - 1)));
        assert(ws.last() == EntityWriteModel::Put(es[n - 1]));
        let before = written(none, puts(es.take(n - 1)));
        let after = written(none, ws);
        assert(after == before.insert(key_of(es[n - 1]), es[n - 1]));
        if key_of(es[n - 1]) == k {
            assert(after.contains_key(k));
            assert forall|i: int| 0 <= i < n && key_of(#[trigger] es[i]) == k implies after[k]
                == es[i] by {
                if i < n - 1 {
                    assert(key_of(es[i]) != key_of(es[n - 1]));
                }
            }
        } else {
            assert(after.contains_key(k) == before.contains_key(k));
            if exists|i: int| 0 <= i < n && key_of(#[trigger] es[i]) == k {
                let i = choose|i: int| 0 <= i < n && key_of(#[trigger] es[i]) == k;
                assert(0 <= i < n - 1 && key_of(es[i]) == k);
            }
        }
    } else {
        assert(ws =~= Seq::empty());
    }
}

/// Rebuilding restores the metadata: the entities of its keyspace, in whatever order they are
/// scanned, make up the metadata again.
pub proof fn rebuilding_restores_the_metadata(m: MetadataModel, es: Seq<EntityModel>)
    requires
        addressed(m),
        enumerates(es, image(m)),
    ensures
        installed(empty_metadata(), puts(es)) == m,
{
    let none: Map<EntityKeyModel, EntityModel> = Map::empty();
    let start = empty_metadata();
    let ws = puts(es);
    let space = image(m);
    assert(image(start) =~= none) by {
        assert forall|k: EntityKeyModel| !image(start).dom().contains(k) by {}
    }
    assert forall|n: int| 0 <= n <= es.len() implies image(
        #[trigger] installed(start, ws.take(n)),
    ) == written(none, ws.take(n)) && addressed(installed(start, ws.take(n))) by {
        filling_tracks(m, es, n);
    }
    assert(ws.take(es.len() as int) =~= ws);
    assert(es.take(es.len() as int) =~= es);
    let full = written(none, ws);
    assert(image(installed(start, ws)) == full) by {
        assert(image(installed(start, ws.take(es.len() as int))) == written(
            none,
            ws.take(es.len() as int),
        ));
    }
    assert(addressed(installed(start, ws.take(es.len() as int))));
    assert(full =~= space) by {
        assert forall|k: EntityKeyModel| #[trigger]
            full.dom().contains(k) == space.dom().contains(k) by {
            puts_fill(es, es.len() as int, k);
            if space.contains_key(k) {
                let i = choose|i: int| 0 <= i < es.len() && key_of(#[trigger] es[i]) == k;
                assert(key_of(es[i]) == k);
            }
        }
        assert forall|k: EntityKeyModel| full.dom().contains(k) implies #[trigger] full[k]
            == space[k] by {
            puts_fill(es, es.len() as int, k);
            let i = choose|i: int| 0 <= i < es.len() && key_of(#[trigger] es[i]) == k;
            assert(key_of(es[i]) == k);
        }
    }
    image_determines_the_state(installed(start, ws), m);
}

/// As entities are put one by one, the metadata so far is the keyspace so far.
proof fn filling_tracks(m: MetadataModel, es: Seq<EntityModel>, n: int)
    requires
        addressed(m),
        enumerates(es, image(m)),
        0 <= n <= es.len(),
    ensures
        image(installed(empty_metadata(), puts(es).take(n))) == written(
            Map::empty(),
            puts(es).take(n),
        ),
        addressed(installed(empty_metadata(), puts(es).take(n))),
    decreases n,
{
    let none: Map<EntityKeyModel, EntityModel> = Map::empty();
    let start = empty_metadata();
    let ws = puts(es).take(n);
    assert(image(start) =~= none) by {
        assert forall|k: EntityKeyModel| !image(start).dom().contains(k) by {}
    }
    if n > 0 {
        filling_tracks(m, es, n - 1);
        let rest = puts(es).take(n - 1);
        let e = es[n - 1];
        assert(ws.drop_last() =~= rest);
        assert(ws.last() == EntityWriteModel::Put(e));
        let before = installed(start, rest);
        assert(tracks(EntityWriteModel::Put(e))) by {
            assert(image(m).contains_key(key_of(e)) && image(m)[key_of(e)] == e);
            assert(held(m, key_of(e)));
        }
        installation_tracks_the_keyspace(before, EntityWriteModel::Put(e));
    } else {
        assert(ws =~= Seq::empty());
    }
}

/// The state that a history of commands leads to.
pub open spec fn history(m: MetadataModel, cs: Seq<(MetaCommand, AdviceModel)>) -> MetadataModel
    decreases cs.len(),
{
    if cs.len() == 0 {
        m
    } else {
        step(history(m, cs.drop_last()), cs.last().0, cs.last().1).0
    }
}

/// The keyspace that the mirror of a history of commands leads to.
pub open spec fn mirrored(
    space: Map<EntityKeyModel, EntityModel>,
    m: MetadataModel,
    cs: Seq<(MetaCommand, AdviceModel)>,
) -> Map<EntityKeyModel, EntityModel>
    decreases cs.len(),
{
    if cs.len() == 0 {
        space
    } else {
        let pre = history(m, cs.drop_last());
        let (post, outcome) = step(pre, cs.last().0, cs.last().1);
        written(mirrored(space, m, cs.drop_last()), mirror_writes(pre, post, cs.last().0, outcome))
    }
}

/// The keyspace that mirrors every command of a history from a fresh cluster on is the metadata of
/// that moment, and rebuilding from it restores that metadata.
pub proof fn the_mirror_of_a_history_rebuilds_its_state(
    cs: Seq<(MetaCommand, AdviceModel)>,
    es: Seq<EntityModel>,
)
    requires
        enumerates(es, mirrored(Map::empty(), empty_metadata(), cs)),
    ensures
        mirrored(Map::empty(), empty_metadata(), cs) == image(history(empty_metadata(), cs)),
        installed(empty_metadata(), puts(es)) == history(empty_metadata(), cs),
{
    mirror_of_history(cs);
    rebuilding_restores_the_metadata(history(empty_metadata(), cs), es);
}

proof fn mirror_of_history(cs: Seq<(MetaCommand, AdviceModel)>)
    ensures
        mirrored(Map::empty(), empty_metadata(), cs) == image(history(empty_metadata(), cs)),
        addressed(history(empty_metadata(), cs)),
        finite(history(empty_metadata(), cs)),
    decreases cs.len(),
{
    let none: Map<EntityKeyModel, EntityModel> = Map::empty();
    if cs.len() == 0 {
        catalogs_begin_finite();
        assert(image(empty_metadata()) =~= none) by {
            assert forall|k: EntityKeyModel| !image(empty_metadata()).dom().contains(k) by {}
        }
    } else {
        mirror_of_history(cs.drop_last());
        let pre = history(empty_metadata(), cs.drop_last());
        let (c, a) = cs.last();
        mirror_tracks_the_state(pre, c, a);
        members_stay_addressed(pre, c, a);
        catalogs_stay_finite(pre, c, a);
    }
}

/// Every mirrored change is true of the state after the command: what is put is what the state
/// holds under its key, and what is deleted the state does not hold.
pub proof fn every_mirrored_change_is_true(m: MetadataModel, c: MetaCommand, a: AdviceModel, i: int)
    requires
        0 <= i < mirror_writes(m, step(m, c, a).0, c, step(m, c, a).1).len(),
    ensures
        ({
            let post = step(m, c, a).0;
            match mirror_writes(m, post, c, step(m, c, a).1)[i] {
                EntityWriteModel::Put(e) => held(post, key_of(e)) && entity_at(post, key_of(e))
                    == e,
                EntityWriteModel::Delete(k) => !held(post, k),
            }
        }),
{
    let post = step(m, c, a).0;
    let k = touched(m, post, c)[i];
    assert(mirror_writes(m, post, c, step(m, c, a).1)[i] == write_at(post, k));
}

} // verus!
