//! The table-schema catalog: tables, indexes and per-table configuration.
use crate::command::ApplyOutcome;
use crate::ids::{TableName, TabletId};
use crate::meta::{Metadata, MetadataModel};
use crate::schema::{
    has_index, index_position, with_index, with_index_status, without_index, IndexDef,
    IndexDefModel, IndexStatus, PitrSpec, ProvisionedThroughput, StreamSpec, StreamSpecModel,
    TableSchema, TableSchemaModel, TtlSpec, TtlSpecModel,
};
use crate::sorted_map::{listing, lists, lookup, pairs, SortedMap};
use crate::syskv::{is_reserved_name, reserved};
use crate::tablet_map::{backfills, reject, tablets_of};
use crate::value::Value;
use vstd::prelude::*;

verus! {

/// The separator of hidden index tables, which no table name may contain.
pub const RESERVED_TABLE_NAME_SEPARATOR: char = '$';

/// The state with `schema` under `table`.
pub open spec fn with_schema(
    m: MetadataModel,
    table: Seq<char>,
    schema: TableSchemaModel,
) -> MetadataModel {
    MetadataModel { schemas: m.schemas.insert(table, schema), ..m }
}

/// What registering a table does. Whether the schema is well formed is judged elsewhere and taken
/// as given.
pub open spec fn create_table_schema(
    m: MetadataModel,
    table: Seq<char>,
    schema: TableSchemaModel,
    schema_valid: bool,
) -> (MetadataModel, ApplyOutcome) {
    if reserved(table) {
        reject(m, "table name collides with the reserved system namespace")
    } else if table.contains(RESERVED_TABLE_NAME_SEPARATOR) {
        reject(m, "table name may not contain the reserved `$` separator")
    } else if m.schemas.contains_key(table) {
        reject(m, "table schema already exists")
    } else if !schema_valid {
        reject(m, "malformed table schema")
    } else {
        (with_schema(m, table, schema), ApplyOutcome::Applied)
    }
}

/// What removing a table's schema does: nothing beside the schema goes.
pub open spec fn drop_table_schema(m: MetadataModel, table: Seq<char>) -> (
    MetadataModel,
    ApplyOutcome,
) {
    if m.schemas.contains_key(table) {
        (MetadataModel { schemas: m.schemas.remove(table), ..m }, ApplyOutcome::Applied)
    } else {
        (m, ApplyOutcome::NoOp)
    }
}

/// What replacing a table's schema does.
pub open spec fn replace_table_schema(
    m: MetadataModel,
    table: Seq<char>,
    schema: TableSchemaModel,
    schema_valid: bool,
) -> (MetadataModel, ApplyOutcome) {
    if !m.schemas.contains_key(table) {
        reject(m, "no schema to replace for table")
    } else if !schema_valid {
        reject(m, "malformed table schema")
    } else if m.schemas[table] == schema {
        (m, ApplyOutcome::NoOp)
    } else {
        (with_schema(m, table, schema), ApplyOutcome::Applied)
    }
}

/// What adding an index does: it replaces the index of its name.
pub open spec fn create_table_index(
    m: MetadataModel,
    table: Seq<char>,
    index: IndexDefModel,
    schema_valid: bool,
) -> (MetadataModel, ApplyOutcome) {
    if !m.schemas.contains_key(table) {
        reject(m, "no such table schema")
    } else if !schema_valid {
        reject(m, "malformed table index")
    } else {
        (with_schema(m, table, with_index(m.schemas[table], index)), ApplyOutcome::Applied)
    }
}

/// The backfill records of `index` on the tablets of `table`.
pub open spec fn index_backfill_of(
    m: MetadataModel,
    table: Seq<char>,
    index: Seq<char>,
) -> Set<(TabletId, Seq<char>)> {
    m.index_backfill.dom().filter(backfills(tablets_of(m, table), Some(index)))
}

/// What removing an index does: its backfill records on the table's own tablets go with it.
pub open spec fn drop_table_index(
    m: MetadataModel,
    table: Seq<char>,
    index: Seq<char>,
) -> (MetadataModel, ApplyOutcome) {
    if m.schemas.contains_key(table) && has_index(m.schemas[table].indexes, index) {
        (
            MetadataModel {
                schemas: m.schemas.insert(table, without_index(m.schemas[table], index)),
                index_backfill: m.index_backfill.remove_keys(index_backfill_of(m, table, index)),
                ..m
            },
            ApplyOutcome::Applied,
        )
    } else {
        (m, ApplyOutcome::NoOp)
    }
}

/// What setting an index's status does.
pub open spec fn set_index_status(
    m: MetadataModel,
    table: Seq<char>,
    index: Seq<char>,
    status: IndexStatus,
) -> (MetadataModel, ApplyOutcome) {
    if !m.schemas.contains_key(table) {
        reject(m, "no such table schema")
    } else if !has_index(m.schemas[table].indexes, index) {
        reject(m, "no such table index")
    } else if m.schemas[table].indexes[index_position(m.schemas[table].indexes, index)].status
        == status {
        (m, ApplyOutcome::NoOp)
    } else {
        (
            with_schema(m, table, with_index_status(m.schemas[table], index, status)),
            ApplyOutcome::Applied,
        )
    }
}

/// What recording a backfill does: the tablet must be one of the table's.
pub open spec fn mark_index_backfilled(
    m: MetadataModel,
    table: Seq<char>,
    index: Seq<char>,
    tablet: TabletId,
) -> (MetadataModel, ApplyOutcome) {
    if !m.schemas.contains_key(table) {
        reject(m, "no such table schema")
    } else if !has_index(m.schemas[table].indexes, index) {
        reject(m, "no such table index")
    } else if !tablets_of(m, table).contains(tablet) {
        reject(m, "tablet is not scoped to this table")
    } else if m.index_backfill.contains_key((tablet, index)) {
        (m, ApplyOutcome::NoOp)
    } else {
        (
            MetadataModel { index_backfill: m.index_backfill.insert((tablet, index), ()), ..m },
            ApplyOutcome::Applied,
        )
    }
}

/// What configuring a stream does: an enabled stream keeps its label until it is disabled.
pub open spec fn set_table_stream(
    m: MetadataModel,
    table: Seq<char>,
    spec: Option<StreamSpecModel>,
) -> (MetadataModel, ApplyOutcome) {
    if !m.schemas.contains_key(table) {
        reject(m, "no such table schema")
    } else if spec is Some && m.schemas[table].stream is Some {
        reject(
            m,
            "table stream already enabled (disable before re-enabling to mint a new label)",
        )
    } else if spec is None && m.schemas[table].stream is None {
        (m, ApplyOutcome::NoOp)
    } else {
        (
            with_schema(m, table, TableSchemaModel { stream: spec, ..m.schemas[table] }),
            ApplyOutcome::Applied,
        )
    }
}

/// What configuring row expiry does: it may change in place.
pub open spec fn set_table_ttl(
    m: MetadataModel,
    table: Seq<char>,
    spec: Option<TtlSpecModel>,
) -> (MetadataModel, ApplyOutcome) {
    if !m.schemas.contains_key(table) {
        reject(m, "no such table schema")
    } else if m.schemas[table].ttl == spec {
        (m, ApplyOutcome::NoOp)
    } else {
        (
            with_schema(m, table, TableSchemaModel { ttl: spec, ..m.schemas[table] }),
            ApplyOutcome::Applied,
        )
    }
}

/// What configuring throughput does: it may change in place.
pub open spec fn set_table_throughput(
    m: MetadataModel,
    table: Seq<char>,
    spec: Option<ProvisionedThroughput>,
) -> (MetadataModel, ApplyOutcome) {
    if !m.schemas.contains_key(table) {
        reject(m, "no such table schema")
    } else if m.schemas[table].throughput == spec {
        (m, ApplyOutcome::NoOp)
    } else {
        (
            with_schema(m, table, TableSchemaModel { throughput: spec, ..m.schemas[table] }),
            ApplyOutcome::Applied,
        )
    }
}

/// What changing a table's tags to `tags` does.
pub open spec fn retag(m: MetadataModel, table: Seq<char>, tags: Map<Seq<char>, Seq<char>>) -> (
    MetadataModel,
    ApplyOutcome,
) {
    if tags == m.schemas[table].tags {
        (m, ApplyOutcome::NoOp)
    } else {
        (
            with_schema(m, table, TableSchemaModel { tags, ..m.schemas[table] }),
            ApplyOutcome::Applied,
        )
    }
}

/// What tagging does: the given tags are added, and overwrite those of the same key.
pub open spec fn tag_resource(
    m: MetadataModel,
    table: Seq<char>,
    tags: Map<Seq<char>, Seq<char>>,
) -> (MetadataModel, ApplyOutcome) {
    if !m.schemas.contains_key(table) {
        reject(m, "no such table schema")
    } else {
        retag(m, table, m.schemas[table].tags.union_prefer_right(tags))
    }
}

/// What untagging does: the named tags go, those that are not there are passed over.
pub open spec fn untag_resource(
    m: MetadataModel,
    table: Seq<char>,
    tag_keys: Seq<Seq<char>>,
) -> (MetadataModel, ApplyOutcome) {
    if !m.schemas.contains_key(table) {
        reject(m, "no such table schema")
    } else {
        retag(m, table, m.schemas[table].tags.remove_keys(tag_keys.to_set()))
    }
}

/// Whether `name` contains the reserved separator.
fn has_separator(name: &String) -> (b: bool)
    ensures
        b == name@.contains(RESERVED_TABLE_NAME_SEPARATOR),
{
    let s: &str = name.as_str();
    let n: usize = s.unicode_len();
    let mut i: usize = 0;
    while i < n
        invariant
            i <= n,
            n == s@.len(),
            s@ == name@,
            forall|j: int| 0 <= j < i ==> s@[j] != RESERVED_TABLE_NAME_SEPARATOR,
        decreases n - i,
    {
        if s.get_char(i) == RESERVED_TABLE_NAME_SEPARATOR {
            assert(s@[i as int] == RESERVED_TABLE_NAME_SEPARATOR);
            return true;
        }
        i = i + 1;
    }
    false
}

impl Metadata {
    /// The schema of `table`, if it is registered.
    pub fn table_schema(&self, table: &str) -> (r: Option<&TableSchema>)
        ensures
            r.deep_view() == lookup(self@.schemas, table@),
    {
        self.schemas.get(&table.to_owned())
    }

    /// Whether a schema is registered for `table`.
    pub fn has_table_schema(&self, table: &str) -> (b: bool)
        ensures
            b == self@.schemas.contains_key(table@),
    {
        self.schemas.contains_key(&table.to_owned())
    }

    /// Every registered schema beside its table's name, in ascending name order.
    pub fn table_schemas(&self) -> (r: Vec<(&TableName, &TableSchema)>)
        ensures
            r.deep_view() == pairs(self@.schemas, listing::<TableName>(self@.schemas.dom())),
            lists::<TableName>(
                listing::<TableName>(self@.schemas.dom()),
                self@.schemas.dom(),
            ),
    {
        self.schemas.rows()
    }

    /// The indexes of `table`, in the order in which they were added; none if the table is unknown.
    pub fn table_indexes(&self, table: &str) -> (r: &[IndexDef])
        ensures
            r.deep_view() == indexes_of(self@, table@),
    {
        match self.schemas.get(&table.to_owned()) {
            None => &[],
            Some(schema) => schema.indexes.as_slice(),
        }
    }

    /// The stream configuration of `table`, if it is enabled.
    pub fn table_stream(&self, table: &str) -> (r: Option<&StreamSpec>)
        ensures
            r.deep_view() == stream_of(self@, table@),
    {
        match self.schemas.get(&table.to_owned()) {
            Some(schema) => schema.stream.as_ref(),
            None => None,
        }
    }

    /// The row expiry of `table`, if it is enabled.
    pub fn table_ttl(&self, table: &str) -> (r: Option<&TtlSpec>)
        ensures
            r.deep_view() == ttl_of(self@, table@),
    {
        match self.schemas.get(&table.to_owned()) {
            Some(schema) => schema.ttl.as_ref(),
            None => None,
        }
    }

    /// The provisioned throughput of `table`, if it has any.
    pub fn table_throughput(&self, table: &str) -> (r: Option<&ProvisionedThroughput>)
        ensures
            r.deep_view() == throughput_of(self@, table@),
    {
        match self.schemas.get(&table.to_owned()) {
            Some(schema) => schema.throughput.as_ref(),
            None => None,
        }
    }

    /// The point-in-time recovery of `table`, if it is enabled.
    pub fn table_pitr(&self, table: &str) -> (r: Option<&PitrSpec>)
        ensures
            r.deep_view() == pitr_of(self@, table@),
    {
        match self.schemas.get(&table.to_owned()) {
            Some(schema) => schema.pitr.as_ref(),
            None => None,
        }
    }

    /// The tags of `table`: `None` for an unknown table, an empty map for one without tags.
    pub fn table_tags(&self, table: &str) -> (r: Option<&SortedMap<String, String>>)
        ensures
            r.deep_view() == tags_of(self@, table@),
    {
        match self.schemas.get(&table.to_owned()) {
            Some(schema) => Some(&schema.tags),
            None => None,
        }
    }

    pub(crate) fn apply_create_table_schema(
        &mut self,
        table: &TableName,
        schema: &TableSchema,
        schema_valid: bool,
    ) -> (out: ApplyOutcome)
        ensures
            (final(self)@, out) == create_table_schema(
                old(self)@,
                table@,
                schema.deep_view(),
                schema_valid,
            ),
    {
        if is_reserved_name(table.as_str()) {
            return ApplyOutcome::Rejected(
                "table name collides with the reserved system namespace",
            );
        }
        if has_separator(table) {
            return ApplyOutcome::Rejected("table name may not contain the reserved `$` separator");
        }
        if self.schemas.contains_key(table) {
            return ApplyOutcome::Rejected("table schema already exists");
        }
        if !schema_valid {
            return ApplyOutcome::Rejected("malformed table schema");
        }
        self.schemas.insert(table.dup(), schema.dup());
        ApplyOutcome::Applied
    }

    pub(crate) fn apply_drop_table_schema(&mut self, table: &TableName) -> (out: ApplyOutcome)
        ensures
            (final(self)@, out) == drop_table_schema(old(self)@, table@),
    {
        let taken: Option<TableSchema> = self.schemas.remove(table);
        if taken.is_some() {
            ApplyOutcome::Applied
        } else {
            assert(self@.schemas =~= old(self)@.schemas);
            ApplyOutcome::NoOp
        }
    }

    pub(crate) fn apply_replace_table_schema(
        &mut self,
        table: &TableName,
        schema: &TableSchema,
        schema_valid: bool,
    ) -> (out: ApplyOutcome)
        ensures
            (final(self)@, out) == replace_table_schema(
                old(self)@,
                table@,
                schema.deep_view(),
                schema_valid,
            ),
    {
        match self.schemas.get(table) {
            None => {
                return ApplyOutcome::Rejected("no schema to replace for table");
            },
            Some(existing) => {
                if !schema_valid {
                    return ApplyOutcome::Rejected("malformed table schema");
                }
                if existing.same(schema) {
                    return ApplyOutcome::NoOp;
                }
            },
        }
        self.schemas.insert(table.dup(), schema.dup());
        ApplyOutcome::Applied
    }

    pub(crate) fn apply_create_table_index(
        &mut self,
        table: &TableName,
        index: &IndexDef,
        schema_valid: bool,
    ) -> (out: ApplyOutcome)
        ensures
            (final(self)@, out) == create_table_index(
                old(self)@,
                table@,
                index.deep_view(),
                schema_valid,
            ),
    {
        let mut candidate: TableSchema = match self.schemas.get(table) {
            None => {
                return ApplyOutcome::Rejected("no such table schema");
            },
            Some(schema) => schema.dup(),
        };
        candidate.upsert_index(index.dup());
        if !schema_valid {
            return ApplyOutcome::Rejected("malformed table index");
        }
        self.schemas.insert(table.dup(), candidate);
        ApplyOutcome::Applied
    }

    /// The backfill records of `index` on the tablets of `table`, in ascending order.
    pub(crate) fn index_backfill_keys_of(
        &self,
        table: &TableName,
        index: &String,
    ) -> (r: Vec<(TabletId, String)>)
        ensures
            lists::<(TabletId, String)>(
                r.deep_view(),
                index_backfill_of(self@, table@, index@),
            ),
            r.deep_view() == listing::<(TabletId, String)>(
                index_backfill_of(self@, table@, index@),
            ),
    {
        let ids: Vec<TabletId> = self.tablet_ids_for_table(table);
        assert(ids.deep_view().to_set() =~= tablets_of(self@, table@));
        self.backfill_keys_of(&ids, Some(index))
    }

    pub(crate) fn apply_drop_table_index(
        &mut self,
        table: &TableName,
        index: &String,
    ) -> (out: ApplyOutcome)
        ensures
            (final(self)@, out) == drop_table_index(old(self)@, table@, index@),
    {
        let mut schema: TableSchema = match self.schemas.get(table) {
            None => {
                return ApplyOutcome::NoOp;
            },
            Some(schema) => schema.dup(),
        };
        if !schema.remove_index(index) {
            return ApplyOutcome::NoOp;
        }
        let rows: Vec<(TabletId, String)> = self.index_backfill_keys_of(table, index);
        assert(rows.deep_view().to_set() =~= index_backfill_of(self@, table@, index@));
        self.schemas.insert(table.dup(), schema);
        self.index_backfill.remove_all(&rows);
        ApplyOutcome::Applied
    }

    pub(crate) fn apply_set_index_status(
        &mut self,
        table: &TableName,
        index: &String,
        status: IndexStatus,
    ) -> (out: ApplyOutcome)
        ensures
            (final(self)@, out) == set_index_status(old(self)@, table@, index@, status),
    {
        let mut schema: TableSchema = match self.schemas.get(table) {
            None => {
                return ApplyOutcome::Rejected("no such table schema");
            },
            Some(schema) => {
                match schema.index(index) {
                    None => {
                        return ApplyOutcome::Rejected("no such table index");
                    },
                    Some(current) => {
                        if current.status == status {
                            return ApplyOutcome::NoOp;
                        }
                    },
                }
                schema.dup()
            },
        };
        schema.set_index_status(index, status);
        self.schemas.insert(table.dup(), schema);
        ApplyOutcome::Applied
    }

    pub(crate) fn apply_mark_index_backfilled(
        &mut self,
        table: &TableName,
        index: &String,
        tablet: TabletId,
    ) -> (out: ApplyOutcome)
        ensures
            (final(self)@, out) == mark_index_backfilled(old(self)@, table@, index@, tablet),
    {
        match self.schemas.get(table) {
            None => {
                return ApplyOutcome::Rejected("no such table schema");
            },
            Some(schema) => {
                if schema.index(index).is_none() {
                    return ApplyOutcome::Rejected("no such table index");
                }
            },
        }
        let belongs: bool = match self.tablets.get(&tablet) {
            Some(t) => match &t.table {
                Some(owner) => owner.same(table),
                None => false,
            },
            None => false,
        };
        if !belongs {
            return ApplyOutcome::Rejected("tablet is not scoped to this table");
        }
        let key: (TabletId, String) = (tablet, index.dup());
        if self.index_backfill.contains_key(&key) {
            return ApplyOutcome::NoOp;
        }
        self.index_backfill.insert(key, ());
        ApplyOutcome::Applied
    }

    pub(crate) fn apply_set_table_stream(
        &mut self,
        table: &TableName,
        spec: &Option<StreamSpec>,
    ) -> (out: ApplyOutcome)
        ensures
            (final(self)@, out) == set_table_stream(old(self)@, table@, spec.deep_view()),
    {
        let mut schema: TableSchema = match self.schemas.get(table) {
            None => {
                return ApplyOutcome::Rejected("no such table schema");
            },
            Some(schema) => schema.dup(),
        };
        if spec.is_some() {
            if schema.stream.is_some() {
                return ApplyOutcome::Rejected(
                    "table stream already enabled (disable before re-enabling to mint a new label)",
                );
            }
        } else {
            if schema.stream.is_none() {
                return ApplyOutcome::NoOp;
            }
        }
        schema.stream = spec.dup();
        self.schemas.insert(table.dup(), schema);
        ApplyOutcome::Applied
    }

    pub(crate) fn apply_set_table_ttl(
        &mut self,
        table: &TableName,
        spec: &Option<TtlSpec>,
    ) -> (out: ApplyOutcome)
        ensures
            (final(self)@, out) == set_table_ttl(old(self)@, table@, spec.deep_view()),
    {
        let mut schema: TableSchema = match self.schemas.get(table) {
            None => {
                return ApplyOutcome::Rejected("no such table schema");
            },
            Some(schema) => schema.dup(),
        };
        if schema.ttl.same(spec) {
            return ApplyOutcome::NoOp;
        }
        schema.ttl = spec.dup();
        self.schemas.insert(table.dup(), schema);
        ApplyOutcome::Applied
    }

    pub(crate) fn apply_set_table_throughput(
        &mut self,
        table: &TableName,
        spec: &Option<ProvisionedThroughput>,
    ) -> (out: ApplyOutcome)
        ensures
            (final(self)@, out) == set_table_throughput(old(self)@, table@, spec.deep_view()),
    {
        let mut schema: TableSchema = match self.schemas.get(table) {
            None => {
                return ApplyOutcome::Rejected("no such table schema");
            },
            Some(schema) => schema.dup(),
        };
        if schema.throughput.same(spec) {
            return ApplyOutcome::NoOp;
        }
        schema.throughput = spec.dup();
        self.schemas.insert(table.dup(), schema);
        ApplyOutcome::Applied
    }

    pub(crate) fn apply_tag_resource(
        &mut self,
        table: &TableName,
        tags: &SortedMap<String, String>,
    ) -> (out: ApplyOutcome)
        ensures
            (final(self)@, out) == tag_resource(old(self)@, table@, tags@),
    {
        let mut schema: TableSchema = match self.schemas.get(table) {
            None => {
                return ApplyOutcome::Rejected("no such table schema");
            },
            Some(schema) => schema.dup(),
        };
        let mut updated: SortedMap<String, String> = schema.tags.dup();
        updated.insert_all(tags);
        if updated.same(&schema.tags) {
            return ApplyOutcome::NoOp;
        }
        schema.tags = updated;
        self.schemas.insert(table.dup(), schema);
        ApplyOutcome::Applied
    }

    pub(crate) fn apply_untag_resource(
        &mut self,
        table: &TableName,
        tag_keys: &Vec<String>,
    ) -> (out: ApplyOutcome)
        ensures
            (final(self)@, out) == untag_resource(old(self)@, table@, tag_keys.deep_view()),
    {
        let mut schema: TableSchema = match self.schemas.get(table) {
            None => {
                return ApplyOutcome::Rejected("no such table schema");
            },
            Some(schema) => schema.dup(),
        };
        let mut updated: SortedMap<String, String> = schema.tags.dup();
        updated.remove_all(tag_keys);
        if updated.same(&schema.tags) {
            return ApplyOutcome::NoOp;
        }
        schema.tags = updated;
        self.schemas.insert(table.dup(), schema);
        ApplyOutcome::Applied
    }
}

/// The indexes of `table`; none if the table is unknown.
pub open spec fn indexes_of(m: MetadataModel, table: Seq<char>) -> Seq<IndexDefModel> {
    match lookup(m.schemas, table) {
        Some(s) => s.indexes,
        None => Seq::empty(),
    }
}

/// The stream configuration of `table`, if it is enabled.
pub open spec fn stream_of(m: MetadataModel, table: Seq<char>) -> Option<StreamSpecModel> {
    match lookup(m.schemas, table) {
        Some(s) => s.stream,
        None => None,
    }
}

/// The row expiry of `table`, if it is enabled.
pub open spec fn ttl_of(m: MetadataModel, table: Seq<char>) -> Option<TtlSpecModel> {
    match lookup(m.schemas, table) {
        Some(s) => s.ttl,
        None => None,
    }
}

/// The provisioned throughput of `table`, if it has any.
pub open spec fn throughput_of(m: MetadataModel, table: Seq<char>) -> Option<
    ProvisionedThroughput,
> {
    match lookup(m.schemas, table) {
        Some(s) => s.throughput,
        None => None,
    }
}

/// The tags of `table`, if it is known.
pub open spec fn tags_of(m: MetadataModel, table: Seq<char>) -> Option<Map<Seq<char>, Seq<char>>> {
    match lookup(m.schemas, table) {
        Some(s) => Some(s.tags),
        None => None,
    }
}

/// The point-in-time recovery of `table`, if it is enabled.
pub open spec fn pitr_of(m: MetadataModel, table: Seq<char>) -> Option<PitrSpec> {
    match lookup(m.schemas, table) {
        Some(s) => s.pitr,
        None => None,
    }
}

} // verus!
