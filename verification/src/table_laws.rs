//! What the commands on table schemas do, field by field.
use crate::advice::AdviceModel;
use crate::apply::{step, stored_schema};
use crate::command::{ApplyOutcome, MetaCommand};
use crate::ids::TabletId;
use crate::meta::MetadataModel;
use crate::schema::{bare_schema, has_index, index_position, index_position_is, is_first_index};
use crate::schema::{ColumnDefModel, IndexDefModel, IndexStatus, TableSchemaModel};
use crate::syskv::RESERVED_NAMESPACE;
use crate::tablet_laws::is_tablet_of;
use crate::tables::{indexes_of, pitr_of, stream_of, tags_of, throughput_of, ttl_of};
use vstd::prelude::*;

verus! {

/// A table is registered exactly if its name may be given, is free, and its schema is well formed;
/// it then has the schema that was given, and nothing else changes.
pub proof fn a_table_is_registered_as_given(m: MetadataModel, c: MetaCommand, a: AdviceModel)
    requires
        c is CreateTableSchema,
    ensures
        ({
            let (n, outcome) = step(m, c, a);
            let table = c->CreateTableSchema_table@;
            &&& outcome == ApplyOutcome::Applied <==> {
                &&& !RESERVED_NAMESPACE@.is_prefix_of(table)
                &&& !table.contains('$')
                &&& !m.schemas.contains_key(table)
                &&& a.schema_valid
            }
            &&& outcome != ApplyOutcome::NoOp
            &&& outcome == ApplyOutcome::Applied ==> n.schemas.contains_key(table)
                && n.schemas[table] == c->CreateTableSchema_schema.deep_view()
            &&& n.schemas.remove(table) == m.schemas.remove(table)
            &&& n == MetadataModel { schemas: n.schemas, ..m }
        }),
{
    let n = step(m, c, a).0;
    let table = c->CreateTableSchema_table@;
    assert(n.schemas.remove(table) =~= m.schemas.remove(table));
}

/// Dropping a schema takes the schema away, and nothing else.
pub proof fn a_dropped_schema_is_gone(m: MetadataModel, c: MetaCommand, a: AdviceModel)
    requires
        c is DropTableSchema,
    ensures
        ({
            let (n, outcome) = step(m, c, a);
            let table = c->DropTableSchema_table@;
            &&& outcome == ApplyOutcome::Applied <==> m.schemas.contains_key(table)
            &&& outcome !is Rejected
            &&& !n.schemas.contains_key(table)
            &&& n.schemas.remove(table) == m.schemas.remove(table)
            &&& n == MetadataModel { schemas: n.schemas, ..m }
        }),
{
    let n = step(m, c, a).0;
    let table = c->DropTableSchema_table@;
    assert(n.schemas.remove(table) =~= m.schemas.remove(table));
}

/// A schema that is there is replaced by a well-formed one, as it was given.
pub proof fn a_schema_is_replaced_as_given(m: MetadataModel, c: MetaCommand, a: AdviceModel)
    requires
        c is ReplaceTableSchema,
    ensures
        ({
            let (n, outcome) = step(m, c, a);
            let table = c->ReplaceTableSchema_table@;
            let schema = c->ReplaceTableSchema_schema.deep_view();
            &&& outcome is Rejected <==> !m.schemas.contains_key(table) || !a.schema_valid
            &&& outcome == ApplyOutcome::Applied <==> m.schemas.contains_key(table)
                && a.schema_valid && m.schemas[table] != schema
            &&& outcome !is Rejected ==> n.schemas.contains_key(table) && n.schemas[table] == schema
            &&& n.schemas.remove(table) == m.schemas.remove(table)
            &&& n == MetadataModel { schemas: n.schemas, ..m }
        }),
{
    let n = step(m, c, a).0;
    let table = c->ReplaceTableSchema_table@;
    assert(n.schemas.remove(table) =~= m.schemas.remove(table));
}

/// Whether nothing changed but one part of the schema of one table, which is there before and
/// after: the schema `now` differs from the one before as `now` itself says.
pub open spec fn only_schema_changed(m: MetadataModel, n: MetadataModel, table: Seq<char>) -> bool {
    &&& n.schemas.contains_key(table) <==> m.schemas.contains_key(table)
    &&& n.schemas.remove(table) == m.schemas.remove(table)
    &&& n == MetadataModel { schemas: n.schemas, ..m }
}

/// Whether the indexes have one of the name.
pub open spec fn names_index(indexes: Seq<IndexDefModel>, name: Seq<char>) -> bool {
    exists|i: int| 0 <= i < indexes.len() && (#[trigger] indexes[i]).name == name
}

proof fn first_of_a_name(indexes: Seq<IndexDefModel>, name: Seq<char>, n: int) -> (i: int)
    requires
        0 <= n < indexes.len(),
        indexes[n].name == name,
    ensures
        is_first_index(indexes, name, i),
        i <= n,
    decreases n,
{
    if exists|j: int| 0 <= j < n && (#[trigger] indexes[j]).name == name {
        let j = choose|j: int| 0 <= j < n && (#[trigger] indexes[j]).name == name;
        first_of_a_name(indexes, name, j)
    } else {
        n
    }
}

proof fn position_of_a_name(indexes: Seq<IndexDefModel>, name: Seq<char>)
    ensures
        has_index(indexes, name) == names_index(indexes, name),
        names_index(indexes, name) ==> is_first_index(
            indexes,
            name,
            index_position(indexes, name),
        ),
{
    if names_index(indexes, name) {
        let n = choose|i: int| 0 <= i < indexes.len() && (#[trigger] indexes[i]).name == name;
        let i = first_of_a_name(indexes, name, n);
        index_position_is(indexes, name, i);
    }
}

/// An index is added to a table that is there, if the schema with it is well formed: the first
/// index of its name is then the one that was given, and every index of another name stays where
/// it was. Without one of its name before, it comes last.
pub proof fn an_index_is_added_as_given(m: MetadataModel, c: MetaCommand, a: AdviceModel)
    requires
        c is CreateTableIndex,
    ensures
        ({
            let (n, outcome) = step(m, c, a);
            let table = c->CreateTableIndex_table@;
            let index = c->CreateTableIndex_index.deep_view();
            let (before, after) = (m.schemas[table].indexes, n.schemas[table].indexes);
            &&& outcome == ApplyOutcome::Applied <==> m.schemas.contains_key(table)
                && a.schema_valid
            &&& outcome != ApplyOutcome::NoOp
            &&& outcome == ApplyOutcome::Applied ==> {
                &&& exists|i: int|
                    0 <= i < after.len() && #[trigger] after[i] == index && forall|j: int|
                        0 <= j < i ==> (#[trigger] after[j]).name != index.name
                &&& forall|i: int|
                    0 <= i < before.len() && (#[trigger] before[i]).name != index.name ==> after[i]
                        == before[i]
                &&& names_index(before, index.name) ==> after.len() == before.len()
                &&& !names_index(before, index.name) ==> after == before.push(index)
                &&& n.schemas[table] == TableSchemaModel { indexes: after, ..m.schemas[table] }
            }
            &&& only_schema_changed(m, n, table)
        }),
{
    let n = step(m, c, a).0;
    let table = c->CreateTableIndex_table@;
    let index = c->CreateTableIndex_index.deep_view();
    assert(n.schemas.remove(table) =~= m.schemas.remove(table));
    if step(m, c, a).1 == ApplyOutcome::Applied {
        let (before, after) = (m.schemas[table].indexes, n.schemas[table].indexes);
        position_of_a_name(before, index.name);
        if names_index(before, index.name) {
            let i = index_position(before, index.name);
            assert(after[i] == index);
            assert forall|j: int| 0 <= j < i implies (#[trigger] after[j]).name != index.name by {
                assert(before[j].name != index.name);
            }
        } else {
            let i = before.len() as int;
            assert(after[i] == index);
            assert forall|j: int| 0 <= j < i implies (#[trigger] after[j]).name != index.name by {
                assert(before[j].name != index.name);
            }
        }
    }
}

/// A dropped index is gone, with its backfill records on the table's tablets; every other index
/// stays, in the same order, and every other backfill record.
pub proof fn a_dropped_index_is_gone(m: MetadataModel, c: MetaCommand, a: AdviceModel)
    requires
        c is DropTableIndex,
    ensures
        ({
            let (n, outcome) = step(m, c, a);
            let table = c->DropTableIndex_table@;
            let index = c->DropTableIndex_index@;
            let there = m.schemas.contains_key(table) && names_index(
                m.schemas[table].indexes,
                index,
            );
            &&& outcome == ApplyOutcome::Applied <==> there
            &&& outcome !is Rejected
            &&& there ==> {
                &&& n.schemas.contains_key(table)
                &&& n.schemas[table] == TableSchemaModel {
                    indexes: m.schemas[table].indexes.filter(|d: IndexDefModel| d.name != index),
                    ..m.schemas[table]
                }
                &&& !names_index(n.schemas[table].indexes, index)
                &&& forall|k: (TabletId, Seq<char>)| #[trigger]
                    n.index_backfill.contains_key(k) <==> m.index_backfill.contains_key(k) && !(k.1
                        == index && is_tablet_of(m, table, k.0))
            }
            &&& n.schemas.remove(table) == m.schemas.remove(table)
            &&& n == MetadataModel {
                schemas: n.schemas,
                index_backfill: n.index_backfill,
                ..m
            }
        }),
{
    let n = step(m, c, a).0;
    let table = c->DropTableIndex_table@;
    let index = c->DropTableIndex_index@;
    assert(n.schemas.remove(table) =~= m.schemas.remove(table));
    if m.schemas.contains_key(table) {
        let all = m.schemas[table].indexes;
        position_of_a_name(all, index);
        let keep = |d: IndexDefModel| d.name != index;
        assert(keep =~= crate::schema::named_otherwise(index));
        if step(m, c, a).1 == ApplyOutcome::Applied {
            let after = n.schemas[table].indexes;
            broadcast use vstd::seq_lib::group_filter_ensures;

            assert(after == all.filter(keep));
            assert forall|i: int| 0 <= i < after.len() implies (#[trigger] after[i]).name
                != index by {
                assert(after.contains(after[i]));
                assert(keep(after[i]));
            }
        }
    }
}

/// Whether the `i`th index is the first of the name, and `after` is `before` with its status set.
pub open spec fn status_set_at(
    before: Seq<IndexDefModel>,
    after: Seq<IndexDefModel>,
    name: Seq<char>,
    status: IndexStatus,
    i: int,
) -> bool {
    &&& 0 <= i < before.len()
    &&& before[i].name == name
    &&& forall|j: int| 0 <= j < i ==> (#[trigger] before[j]).name != name
    &&& after == before.update(i, IndexDefModel { status, ..before[i] })
}

/// The status of an index that is there is set: the first index of the name has it from then on,
/// and all else of that index and every other index stay.
pub proof fn an_index_status_is_set(m: MetadataModel, c: MetaCommand, a: AdviceModel)
    requires
        c is SetIndexStatus,
    ensures
        step(m, c, a).1 is Rejected <==> !(m.schemas.contains_key(c->SetIndexStatus_table@)
            && names_index(
            m.schemas[c->SetIndexStatus_table@].indexes,
            c->SetIndexStatus_index@,
        )),
        step(m, c, a).1 !is Rejected ==> exists|i: int|
            status_set_at(
                m.schemas[c->SetIndexStatus_table@].indexes,
                step(m, c, a).0.schemas[c->SetIndexStatus_table@].indexes,
                c->SetIndexStatus_index@,
                c->SetIndexStatus_status,
                i,
            ),
        step(m, c, a).1 !is Rejected ==> step(m, c, a).0.schemas[c->SetIndexStatus_table@] == (
        TableSchemaModel {
            indexes: step(m, c, a).0.schemas[c->SetIndexStatus_table@].indexes,
            ..m.schemas[c->SetIndexStatus_table@]
        }),
        step(m, c, a).1 == ApplyOutcome::Applied ==> step(m, c, a).0 != m,
        only_schema_changed(m, step(m, c, a).0, c->SetIndexStatus_table@),
{
    let (n, outcome) = step(m, c, a);
    let table = c->SetIndexStatus_table@;
    let index = c->SetIndexStatus_index@;
    let status = c->SetIndexStatus_status;
    assert(n.schemas.remove(table) =~= m.schemas.remove(table));
    if m.schemas.contains_key(table) {
        let before = m.schemas[table].indexes;
        let after = n.schemas[table].indexes;
        position_of_a_name(before, index);
        if names_index(before, index) {
            let i = index_position(before, index);
            assert(outcome !is Rejected);
            if outcome == ApplyOutcome::NoOp {
                assert(after =~= before.update(i, IndexDefModel { status, ..before[i] }));
            } else {
                assert(after[i].status == status && before[i].status != status);
                assert(after != before);
            }
            assert(status_set_at(before, after, index, status, i));
            assert(n.schemas[table] =~= TableSchemaModel { indexes: after, ..m.schemas[table] });
        } else {
            assert(outcome is Rejected);
        }
    } else {
        assert(outcome is Rejected);
    }
    assert(only_schema_changed(m, n, table));
}

/// A backfill is recorded exactly if the table has the index and the tablet is one of the table's;
/// the record is then there, and no other changes.
pub proof fn a_backfill_is_recorded(m: MetadataModel, c: MetaCommand, a: AdviceModel)
    requires
        c is MarkIndexBackfilled,
    ensures
        ({
            let (n, outcome) = step(m, c, a);
            let table = c->MarkIndexBackfilled_table@;
            let index = c->MarkIndexBackfilled_index@;
            let tablet = c->MarkIndexBackfilled_tablet;
            let k = (tablet, index);
            &&& outcome is Rejected <==> !(m.schemas.contains_key(table) && names_index(
                m.schemas[table].indexes,
                index,
            ) && is_tablet_of(m, table, tablet))
            &&& outcome !is Rejected ==> n.index_backfill.contains_key(k)
            &&& outcome == ApplyOutcome::Applied ==> !m.index_backfill.contains_key(k)
            &&& n.index_backfill.remove(k) == m.index_backfill.remove(k)
            &&& n == MetadataModel { index_backfill: n.index_backfill, ..m }
        }),
{
    let n = step(m, c, a).0;
    let k = (c->MarkIndexBackfilled_tablet, c->MarkIndexBackfilled_index@);
    assert(n.index_backfill.remove(k) =~= m.index_backfill.remove(k));
    if m.schemas.contains_key(c->MarkIndexBackfilled_table@) {
        position_of_a_name(
            m.schemas[c->MarkIndexBackfilled_table@].indexes,
            c->MarkIndexBackfilled_index@,
        );
    }
}

/// A stream is enabled as given where none is, and disabled where one is; one that is enabled is
/// never enabled over.
pub proof fn a_stream_is_set_as_given(m: MetadataModel, c: MetaCommand, a: AdviceModel)
    requires
        c is SetTableStream,
    ensures
        ({
            let (n, outcome) = step(m, c, a);
            let table = c->SetTableStream_table@;
            let spec_ = c->SetTableStream_spec.deep_view();
            &&& outcome is Rejected <==> !m.schemas.contains_key(table) || (spec_ is Some
                && m.schemas[table].stream is Some)
            &&& outcome == ApplyOutcome::NoOp <==> m.schemas.contains_key(table) && spec_ is None
                && m.schemas[table].stream is None
            &&& outcome !is Rejected ==> n.schemas[table] == TableSchemaModel {
                stream: spec_,
                ..m.schemas[table]
            }
            &&& only_schema_changed(m, n, table)
        }),
{
    let n = step(m, c, a).0;
    let table = c->SetTableStream_table@;
    assert(n.schemas.remove(table) =~= m.schemas.remove(table));
}

/// Row expiry is set as given on every table that is there.
pub proof fn row_expiry_is_set_as_given(m: MetadataModel, c: MetaCommand, a: AdviceModel)
    requires
        c is SetTableTtl,
    ensures
        ({
            let (n, outcome) = step(m, c, a);
            let table = c->SetTableTtl_table@;
            let spec_ = c->SetTableTtl_spec.deep_view();
            &&& outcome is Rejected <==> !m.schemas.contains_key(table)
            &&& outcome == ApplyOutcome::NoOp <==> m.schemas.contains_key(table)
                && m.schemas[table].ttl == spec_
            &&& outcome !is Rejected ==> n.schemas[table] == TableSchemaModel {
                ttl: spec_,
                ..m.schemas[table]
            }
            &&& only_schema_changed(m, n, table)
        }),
{
    let n = step(m, c, a).0;
    let table = c->SetTableTtl_table@;
    assert(n.schemas.remove(table) =~= m.schemas.remove(table));
}

/// Throughput is set as given on every table that is there.
pub proof fn throughput_is_set_as_given(m: MetadataModel, c: MetaCommand, a: AdviceModel)
    requires
        c is SetTableThroughput,
    ensures
        ({
            let (n, outcome) = step(m, c, a);
            let table = c->SetTableThroughput_table@;
            let spec_ = c->SetTableThroughput_spec;
            &&& outcome is Rejected <==> !m.schemas.contains_key(table)
            &&& outcome == ApplyOutcome::NoOp <==> m.schemas.contains_key(table)
                && m.schemas[table].throughput == spec_
            &&& outcome !is Rejected ==> n.schemas[table] == TableSchemaModel {
                throughput: spec_,
                ..m.schemas[table]
            }
            &&& only_schema_changed(m, n, table)
        }),
{
    let n = step(m, c, a).0;
    let table = c->SetTableThroughput_table@;
    assert(n.schemas.remove(table) =~= m.schemas.remove(table));
}

/// Tagging a table that is there gives it the tags that were given, over those of the same key, and
/// keeps every other tag.
pub proof fn tags_are_added_as_given(
    m: MetadataModel,
    c: MetaCommand,
    a: AdviceModel,
    key: Seq<char>,
)
    requires
        c is TagResource,
    ensures
        ({
            let (n, outcome) = step(m, c, a);
            let table = c->TagResource_table@;
            let given = c->TagResource_tags@;
            let (before, after) = (m.schemas[table].tags, n.schemas[table].tags);
            &&& outcome is Rejected <==> !m.schemas.contains_key(table)
            &&& outcome == ApplyOutcome::Applied ==> after != before
            &&& outcome !is Rejected ==> {
                &&& given.contains_key(key) ==> after.contains_key(key) && after[key] == given[key]
                &&& !given.contains_key(key) ==> (after.contains_key(key) <==> before.contains_key(
                    key,
                )) && (before.contains_key(key) ==> after[key] == before[key])
                &&& n.schemas[table] == TableSchemaModel { tags: after, ..m.schemas[table] }
            }
            &&& only_schema_changed(m, n, table)
        }),
{
    let n = step(m, c, a).0;
    let table = c->TagResource_table@;
    let given = c->TagResource_tags@;
    assert(n.schemas.remove(table) =~= m.schemas.remove(table));
    if m.schemas.contains_key(table) {
        assert(n.schemas[table].tags == m.schemas[table].tags.union_prefer_right(given));
    }
}

/// Untagging a table that is there takes the named tags away and keeps every other.
pub proof fn named_tags_are_taken_away(
    m: MetadataModel,
    c: MetaCommand,
    a: AdviceModel,
    key: Seq<char>,
)
    requires
        c is UntagResource,
    ensures
        ({
            let (n, outcome) = step(m, c, a);
            let table = c->UntagResource_table@;
            let keys = c->UntagResource_tag_keys.deep_view();
            let (before, after) = (m.schemas[table].tags, n.schemas[table].tags);
            &&& outcome is Rejected <==> !m.schemas.contains_key(table)
            &&& outcome == ApplyOutcome::Applied ==> after != before
            &&& outcome !is Rejected ==> {
                &&& after.contains_key(key) <==> before.contains_key(key) && !keys.contains(key)
                &&& after.contains_key(key) ==> after[key] == before[key]
                &&& n.schemas[table] == TableSchemaModel { tags: after, ..m.schemas[table] }
            }
            &&& only_schema_changed(m, n, table)
        }),
{
    let n = step(m, c, a).0;
    let table = c->UntagResource_table@;
    let keys = c->UntagResource_tag_keys.deep_view();
    assert(n.schemas.remove(table) =~= m.schemas.remove(table));
    if m.schemas.contains_key(table) {
        assert(n.schemas[table].tags == m.schemas[table].tags.remove_keys(keys.to_set()));
        assert(keys.to_set().contains(key) <==> keys.contains(key));
    }
}

/// Enabling recovery on a table that is there starts the generation after the highest that the name
/// ever had, at the given moment; disabling ends it and keeps that highest generation. Asking for
/// what is so already changes nothing.
pub proof fn recovery_is_switched_as_asked(m: MetadataModel, c: MetaCommand, a: AdviceModel)
    requires
        c is UpdateContinuousBackups,
        m.pitr_generation.contains_key(c->UpdateContinuousBackups_table@)
            ==> m.pitr_generation[c->UpdateContinuousBackups_table@] < u64::MAX,
    ensures
        ({
            let (n, outcome) = step(m, c, a);
            let table = c->UpdateContinuousBackups_table@;
            let enabled = c->UpdateContinuousBackups_enabled;
            let (before, after) = (m.schemas[table].pitr, n.schemas[table].pitr);
            &&& outcome is Rejected <==> !m.schemas.contains_key(table)
            &&& outcome == ApplyOutcome::NoOp <==> m.schemas.contains_key(table) && enabled
                == before is Some
            &&& outcome !is Rejected ==> {
                &&& enabled == after is Some
                &&& n.schemas[table] == TableSchemaModel { pitr: after, ..m.schemas[table] }
            }
            &&& outcome == ApplyOutcome::Applied && enabled ==> {
                &&& after->0.enabled_wall_ms == c->UpdateContinuousBackups_wall_ms
                &&& after->0.generation == if m.pitr_generation.contains_key(table) {
                    m.pitr_generation[table] + 1
                } else {
                    1
                }
                &&& n.pitr_generation.contains_key(table)
                &&& n.pitr_generation[table] == after->0.generation
            }
            &&& !(outcome == ApplyOutcome::Applied && enabled) ==> n.pitr_generation
                == m.pitr_generation
            &&& n.pitr_generation.remove(table) == m.pitr_generation.remove(table)
            &&& n.schemas.remove(table) == m.schemas.remove(table)
            &&& n == MetadataModel {
                schemas: n.schemas,
                pitr_generation: n.pitr_generation,
                ..m
            }
        }),
{
    let n = step(m, c, a).0;
    let table = c->UpdateContinuousBackups_table@;
    assert(n.schemas.remove(table) =~= m.schemas.remove(table));
    assert(n.pitr_generation.remove(table) =~= m.pitr_generation.remove(table));
}

/// What a table has is what its schema says, and an unknown table has nothing.
pub proof fn a_table_has_what_its_schema_says(m: MetadataModel, table: Seq<char>)
    ensures
        m.schemas.contains_key(table) ==> {
            &&& indexes_of(m, table) == m.schemas[table].indexes
            &&& stream_of(m, table) == m.schemas[table].stream
            &&& pitr_of(m, table) == m.schemas[table].pitr
            &&& ttl_of(m, table) == m.schemas[table].ttl
            &&& throughput_of(m, table) == m.schemas[table].throughput
            &&& tags_of(m, table) == Some(m.schemas[table].tags)
        },
        !m.schemas.contains_key(table) ==> {
            &&& indexes_of(m, table).len() == 0
            &&& stream_of(m, table) is None
            &&& pitr_of(m, table) is None
            &&& ttl_of(m, table) is None
            &&& throughput_of(m, table) is None
            &&& tags_of(m, table) is None
        },
{
}

/// The schema that is to be judged is the one that the table would have if the command took effect,
/// and every command that would store one has it judged.
pub proof fn the_judged_schema_is_the_one_stored(m: MetadataModel, c: MetaCommand, a: AdviceModel)
    ensures
        c is CreateTableSchema && step(m, c, a).1 == ApplyOutcome::Applied ==> stored_schema(m, c)
            == Some(step(m, c, a).0.schemas[c->CreateTableSchema_table@]),
        c is ReplaceTableSchema && step(m, c, a).1 == ApplyOutcome::Applied ==> stored_schema(m, c)
            == Some(step(m, c, a).0.schemas[c->ReplaceTableSchema_table@]),
        c is CreateTableIndex && step(m, c, a).1 == ApplyOutcome::Applied ==> stored_schema(m, c)
            == Some(step(m, c, a).0.schemas[c->CreateTableIndex_table@]),
        stored_schema(m, c) is Some && !a.schema_valid ==> step(m, c, a).1 is Rejected,
        stored_schema(m, c) is Some ==> c is CreateTableSchema || c is ReplaceTableSchema
            || c is CreateTableIndex,
{
}

/// A bare schema has the given keys and columns, and nothing is enabled on it.
pub proof fn a_bare_schema_has_nothing_enabled(
    partition_key: Seq<char>,
    sort_keys: Seq<Seq<char>>,
    columns: Seq<ColumnDefModel>,
)
    ensures
        ({
            let s = bare_schema(partition_key, sort_keys, columns);
            &&& s.partition_key == partition_key
            &&& s.sort_keys == sort_keys
            &&& s.columns == columns
            &&& s.indexes.len() == 0
            &&& s.stream is None && s.ttl is None && s.throughput is None && s.pitr is None
            &&& forall|k: Seq<char>| !(#[trigger] s.tags.contains_key(k))
        }),
{
}

} // verus!
