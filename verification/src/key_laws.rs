//! What stands where in the key of an entity, and which names are kept for the keyspace.
use crate::big_endian::{be_value, u64_bytes, u64_bytes_give_the_number};
use crate::entity::EntityKeyModel;
use crate::ids::TabletId;
use crate::mirror::NEXT_TABLET_ID_COUNTER;
use crate::syskv::{
    key_bytes, kind_of, namespace, reserved, PITR_GENERATION_COUNTER, RESERVED_NAMESPACE,
};
use vstd::prelude::*;
use vstd::utf8::encode_utf8;

verus! {

/// What follows the namespace and the kind in the key of an entity.
pub open spec fn id_part(k: EntityKeyModel) -> Seq<u8> {
    key_bytes(k).skip(namespace().len() as int + 1)
}

/// A key starts with the namespace, and the byte after it tells the kind of the entity.
pub proof fn a_key_starts_with_its_kind(a: EntityKeyModel, b: EntityKeyModel)
    ensures
        namespace().is_prefix_of(key_bytes(a)),
        key_bytes(a).len() == namespace().len() + 1 + id_part(a).len(),
        key_bytes(a)[namespace().len() as int] == key_bytes(b)[namespace().len() as int]
            <==> kind_of(a) == kind_of(b),
{
    let n = namespace().len() as int;
    assert(key_bytes(a).subrange(0, n) =~= namespace());
}

/// A name stands in the key as its UTF-8 bytes, and nothing else does.
pub proof fn a_name_stands_as_its_text(name: Seq<char>)
    ensures
        id_part(EntityKeyModel::Member(name)) == encode_utf8(name),
        id_part(EntityKeyModel::Schema(name)) == encode_utf8(name),
        id_part(EntityKeyModel::NodeAddrs(name)) == encode_utf8(name),
        id_part(EntityKeyModel::CpMemberAddr(name)) == encode_utf8(name),
        id_part(EntityKeyModel::Backup(name)) == encode_utf8(name),
        id_part(EntityKeyModel::Restore(name)) == encode_utf8(name),
        id_part(EntityKeyModel::PitrBaseBackup(name)) == encode_utf8(name),
{
}

/// A counter stands under its name; that of a table's generation ends in the table's name.
pub proof fn a_counter_stands_under_its_name(table: Seq<char>)
    ensures
        id_part(EntityKeyModel::NextTabletId) == encode_utf8(NEXT_TABLET_ID_COUNTER@),
        id_part(EntityKeyModel::PitrGeneration(table)) == encode_utf8(PITR_GENERATION_COUNTER@)
            + encode_utf8(table),
{
}

/// A tablet stands in the key as the eight big-endian bytes of its number, and nothing else does.
pub proof fn a_tablet_stands_as_its_number(t: TabletId)
    ensures
        id_part(EntityKeyModel::Tablet(t)).len() == 8,
        be_value(id_part(EntityKeyModel::Tablet(t))) == t.0,
        id_part(EntityKeyModel::Policy(t)) == id_part(EntityKeyModel::Tablet(t)),
        id_part(EntityKeyModel::SplitLineage(t)) == id_part(EntityKeyModel::Tablet(t)),
        id_part(EntityKeyModel::SplitPlacing(t)) == id_part(EntityKeyModel::Tablet(t)),
{
    u64_bytes_give_the_number(t.0);
    assert(id_part(EntityKeyModel::Tablet(t)) =~= u64_bytes(t.0));
    assert(id_part(EntityKeyModel::Policy(t)) =~= u64_bytes(t.0));
    assert(id_part(EntityKeyModel::SplitLineage(t)) =~= u64_bytes(t.0));
    assert(id_part(EntityKeyModel::SplitPlacing(t)) =~= u64_bytes(t.0));
}

/// A segment stands in the key by its tablet and then its epoch, eight bytes each.
pub proof fn a_segment_stands_by_tablet_and_epoch(t: TabletId, epoch: u64)
    ensures
        id_part(EntityKeyModel::StreamShard((t, epoch))).len() == 16,
        be_value(id_part(EntityKeyModel::StreamShard((t, epoch))).take(8)) == t.0,
        be_value(id_part(EntityKeyModel::StreamShard((t, epoch))).skip(8)) == epoch,
        id_part(EntityKeyModel::PitrSegment((t, epoch))) == id_part(
            EntityKeyModel::StreamShard((t, epoch)),
        ),
{
    u64_bytes_give_the_number(t.0);
    u64_bytes_give_the_number(epoch);
    let id = u64_bytes(t.0) + u64_bytes(epoch);
    assert(id_part(EntityKeyModel::StreamShard((t, epoch))) =~= id);
    assert(id_part(EntityKeyModel::PitrSegment((t, epoch))) =~= id);
    assert(id.take(8) =~= u64_bytes(t.0));
    assert(id.skip(8) =~= u64_bytes(epoch));
}

/// What is kept by tablet and name stands in the key by the eight bytes of the tablet and then the
/// UTF-8 bytes of the name.
pub proof fn a_tablet_stands_before_a_name(t: TabletId, name: Seq<char>)
    ensures
        id_part(EntityKeyModel::IndexBackfill((t, name))).len() == 8 + encode_utf8(name).len(),
        be_value(id_part(EntityKeyModel::IndexBackfill((t, name))).take(8)) == t.0,
        id_part(EntityKeyModel::IndexBackfill((t, name))).skip(8) == encode_utf8(name),
        id_part(EntityKeyModel::BackupProgress((name, t))) == id_part(
            EntityKeyModel::IndexBackfill((t, name)),
        ),
{
    u64_bytes_give_the_number(t.0);
    let id = u64_bytes(t.0) + encode_utf8(name);
    assert(id_part(EntityKeyModel::IndexBackfill((t, name))) =~= id);
    assert(id_part(EntityKeyModel::BackupProgress((name, t))) =~= id);
    assert(id.take(8) =~= u64_bytes(t.0));
}

/// A name is reserved exactly if it is the namespace with anything, or nothing, behind it.
pub proof fn names_behind_the_namespace_are_reserved(name: Seq<char>, rest: Seq<char>)
    ensures
        reserved(RESERVED_NAMESPACE@ + rest),
        reserved(name) ==> name == RESERVED_NAMESPACE@ + name.skip(
            RESERVED_NAMESPACE@.len() as int,
        ),
{
    assert(RESERVED_NAMESPACE@.is_prefix_of(RESERVED_NAMESPACE@ + rest)) by {
        assert((RESERVED_NAMESPACE@ + rest).subrange(0, RESERVED_NAMESPACE@.len() as int)
            =~= RESERVED_NAMESPACE@);
    }
}

} // verus!
