//! The replicated table-schema catalog.
use crate::ids::TableName;
use crate::sorted_map::SortedMap;
use crate::value::Value;
use vstd::prelude::*;

verus! {

/// The type of a column's values.
#[derive(Clone, Copy, Debug, PartialEq, Eq, Structural)]
pub enum ColumnType {
    /// Text.
    String,
    /// A number.
    Number,
    /// Raw bytes.
    Binary,
}

impl DeepView for ColumnType {
    type V = ColumnType;

    open spec fn deep_view(&self) -> ColumnType {
        *self
    }
}

impl Value for ColumnType {
    fn dup(&self) -> (r: Self) {
        *self
    }

    fn same(&self, other: &Self) -> (b: bool) {
        *self == *other
    }
}

/// Which rows an index covers.
#[derive(Clone, Copy, Debug, PartialEq, Eq, Structural)]
pub enum IndexKind {
    /// The whole table, under a partition key of its own.
    Global,
    /// One partition, under another sort key.
    Local,
}

impl DeepView for IndexKind {
    type V = IndexKind;

    open spec fn deep_view(&self) -> IndexKind {
        *self
    }
}

impl Value for IndexKind {
    fn dup(&self) -> (r: Self) {
        *self
    }

    fn same(&self, other: &Self) -> (b: bool) {
        *self == *other
    }
}

/// Where an index stands in its lifecycle.
#[derive(Clone, Copy, Debug, PartialEq, Eq, Structural)]
pub enum IndexStatus {
    /// Being backfilled.
    Creating,
    /// Serving queries.
    Active,
    /// Being taken down.
    Deleting,
}

impl DeepView for IndexStatus {
    type V = IndexStatus;

    open spec fn deep_view(&self) -> IndexStatus {
        *self
    }
}

impl Value for IndexStatus {
    fn dup(&self) -> (r: Self) {
        *self
    }

    fn same(&self, other: &Self) -> (b: bool) {
        *self == *other
    }
}

/// What a change record carries of the row it is about.
#[derive(Clone, Copy, Debug, PartialEq, Eq, Structural)]
pub enum StreamViewType {
    /// The key alone.
    KeysOnly,
    /// The row after the change.
    NewImage,
    /// The row before the change.
    OldImage,
    /// The row before and after the change.
    NewAndOldImages,
}

impl DeepView for StreamViewType {
    type V = StreamViewType;

    open spec fn deep_view(&self) -> StreamViewType {
        *self
    }
}

impl Value for StreamViewType {
    fn dup(&self) -> (r: Self) {
        *self
    }

    fn same(&self, other: &Self) -> (b: bool) {
        *self == *other
    }
}

/// A table's provisioned throughput.
#[derive(Clone, Copy, Debug, PartialEq, Eq, Structural)]
pub struct ProvisionedThroughput {
    /// Read units per second.
    pub read_units: u64,
    /// Write units per second.
    pub write_units: u64,
}

impl DeepView for ProvisionedThroughput {
    type V = ProvisionedThroughput;

    open spec fn deep_view(&self) -> ProvisionedThroughput {
        *self
    }
}

impl Value for ProvisionedThroughput {
    fn dup(&self) -> (r: Self) {
        *self
    }

    fn same(&self, other: &Self) -> (b: bool) {
        *self == *other
    }
}

/// A table's point-in-time recovery, while it is enabled.
#[derive(Clone, Copy, Debug, PartialEq, Eq, Structural)]
pub struct PitrSpec {
    /// The recovery generation, never reused for a table name.
    pub generation: u64,
    /// When the generation was enabled, in wall-clock milliseconds.
    pub enabled_wall_ms: u64,
}

impl DeepView for PitrSpec {
    type V = PitrSpec;

    open spec fn deep_view(&self) -> PitrSpec {
        *self
    }
}

impl Value for PitrSpec {
    fn dup(&self) -> (r: Self) {
        *self
    }

    fn same(&self, other: &Self) -> (b: bool) {
        *self == *other
    }
}

/// A column of a table.
#[derive(Debug, PartialEq, Eq)]
pub struct ColumnDef {
    /// The column's name.
    pub name: String,
    /// The type of its values.
    pub ty: ColumnType,
}

/// The mathematical value of a [`ColumnDef`].
#[verifier::ext_equal]
pub struct ColumnDefModel {
    pub name: Seq<char>,
    pub ty: ColumnType,
}

impl DeepView for ColumnDef {
    type V = ColumnDefModel;

    open spec fn deep_view(&self) -> ColumnDefModel {
        ColumnDefModel {
            name: self.name.deep_view(),
            ty: self.ty,
        }
    }
}

impl Value for ColumnDef {
    fn dup(&self) -> (r: Self) {
        ColumnDef {
            name: self.name.dup(),
            ty: self.ty,
        }
    }

    fn same(&self, other: &Self) -> (b: bool) {
        self.name.same(&other.name)
            && self.ty == other.ty
    }
}

impl Clone for ColumnDef {
    fn clone(&self) -> (r: Self)
        ensures
            r.deep_view() == self.deep_view(),
    {
        self.dup()
    }
}

impl ColumnDef {
    /// The column `name` of type `ty`.
    pub fn new(name: &str, ty: ColumnType) -> (r: ColumnDef)
        ensures
            r.deep_view() == (ColumnDefModel { name: name@, ty }),
    {
        ColumnDef { name: name.to_owned(), ty }
    }
}

/// Which attributes of a row an index entry carries.
#[derive(Debug, PartialEq, Eq)]
pub enum IndexProjection {
    /// Every attribute.
    All,
    /// The key attributes alone.
    KeysOnly,
    /// The key attributes and the named ones.
    Include(Vec<String>),
}

/// The mathematical value of an [`IndexProjection`].
pub enum IndexProjectionModel {
    All,
    KeysOnly,
    Include(Seq<Seq<char>>),
}

impl DeepView for IndexProjection {
    type V = IndexProjectionModel;

    open spec fn deep_view(&self) -> IndexProjectionModel {
        match self {
            IndexProjection::All => IndexProjectionModel::All,
            IndexProjection::KeysOnly => IndexProjectionModel::KeysOnly,
            IndexProjection::Include(names) => IndexProjectionModel::Include(names.deep_view()),
        }
    }
}

impl Value for IndexProjection {
    fn dup(&self) -> (r: Self) {
        match self {
            IndexProjection::All => IndexProjection::All,
            IndexProjection::KeysOnly => IndexProjection::KeysOnly,
            IndexProjection::Include(names) => IndexProjection::Include(names.dup()),
        }
    }

    fn same(&self, other: &Self) -> (b: bool) {
        match (self, other) {
            (IndexProjection::All, IndexProjection::All) => true,
            (IndexProjection::KeysOnly, IndexProjection::KeysOnly) => true,
            (IndexProjection::Include(a), IndexProjection::Include(b)) => a.same(b),
            _ => false,
        }
    }
}

impl Clone for IndexProjection {
    fn clone(&self) -> (r: Self)
        ensures
            r.deep_view() == self.deep_view(),
    {
        self.dup()
    }
}

/// A secondary index of a table.
#[derive(Debug, PartialEq, Eq)]
pub struct IndexDef {
    /// The index's name, unique within its table.
    pub name: String,
    /// Which rows it covers.
    pub kind: IndexKind,
    /// The attribute it partitions on.
    pub hash_attribute: String,
    /// The attribute it sorts on, if any.
    pub sort_attribute: Option<String>,
    /// Which attributes its entries carry.
    pub projection: IndexProjection,
    /// Where it stands in its lifecycle.
    pub status: IndexStatus,
    /// The declared type of the partition attribute.
    pub hash_attribute_type: Option<ColumnType>,
    /// The declared type of the sort attribute.
    pub sort_attribute_type: Option<ColumnType>,
}

/// The mathematical value of a [`IndexDef`].
#[verifier::ext_equal]
pub struct IndexDefModel {
    pub name: Seq<char>,
    pub kind: IndexKind,
    pub hash_attribute: Seq<char>,
    pub sort_attribute: Option<Seq<char>>,
    pub projection: IndexProjectionModel,
    pub status: IndexStatus,
    pub hash_attribute_type: Option<ColumnType>,
    pub sort_attribute_type: Option<ColumnType>,
}

impl DeepView for IndexDef {
    type V = IndexDefModel;

    open spec fn deep_view(&self) -> IndexDefModel {
        IndexDefModel {
            name: self.name.deep_view(),
            kind: self.kind,
            hash_attribute: self.hash_attribute.deep_view(),
            sort_attribute: self.sort_attribute.deep_view(),
            projection: self.projection.deep_view(),
            status: self.status,
            hash_attribute_type: self.hash_attribute_type.deep_view(),
            sort_attribute_type: self.sort_attribute_type.deep_view(),
        }
    }
}

impl Value for IndexDef {
    fn dup(&self) -> (r: Self) {
        IndexDef {
            name: self.name.dup(),
            kind: self.kind,
            hash_attribute: self.hash_attribute.dup(),
            sort_attribute: self.sort_attribute.dup(),
            projection: self.projection.dup(),
            status: self.status,
            hash_attribute_type: self.hash_attribute_type.dup(),
            sort_attribute_type: self.sort_attribute_type.dup(),
        }
    }

    fn same(&self, other: &Self) -> (b: bool) {
        self.name.same(&other.name)
            && self.kind == other.kind
            && self.hash_attribute.same(&other.hash_attribute)
            && self.sort_attribute.same(&other.sort_attribute)
            && self.projection.same(&other.projection)
            && self.status == other.status
            && self.hash_attribute_type.same(&other.hash_attribute_type)
            && self.sort_attribute_type.same(&other.sort_attribute_type)
    }
}

impl Clone for IndexDef {
    fn clone(&self) -> (r: Self)
        ensures
            r.deep_view() == self.deep_view(),
    {
        self.dup()
    }
}

/// A table's change stream, while it is enabled.
#[derive(Debug, PartialEq, Eq)]
pub struct StreamSpec {
    /// What its change records carry.
    pub view_type: StreamViewType,
    /// The identity of this enablement of the stream.
    pub label: String,
}

/// The mathematical value of a [`StreamSpec`].
#[verifier::ext_equal]
pub struct StreamSpecModel {
    pub view_type: StreamViewType,
    pub label: Seq<char>,
}

impl DeepView for StreamSpec {
    type V = StreamSpecModel;

    open spec fn deep_view(&self) -> StreamSpecModel {
        StreamSpecModel {
            view_type: self.view_type,
            label: self.label.deep_view(),
        }
    }
}

impl Value for StreamSpec {
    fn dup(&self) -> (r: Self) {
        StreamSpec {
            view_type: self.view_type,
            label: self.label.dup(),
        }
    }

    fn same(&self, other: &Self) -> (b: bool) {
        self.view_type == other.view_type
            && self.label.same(&other.label)
    }
}

impl Clone for StreamSpec {
    fn clone(&self) -> (r: Self)
        ensures
            r.deep_view() == self.deep_view(),
    {
        self.dup()
    }
}

/// A table's expiry configuration, while it is enabled.
#[derive(Debug, PartialEq, Eq)]
pub struct TtlSpec {
    /// The attribute that holds a row's expiry time.
    pub attribute_name: String,
}

/// The mathematical value of a [`TtlSpec`].
#[verifier::ext_equal]
pub struct TtlSpecModel {
    pub attribute_name: Seq<char>,
}

impl DeepView for TtlSpec {
    type V = TtlSpecModel;

    open spec fn deep_view(&self) -> TtlSpecModel {
        TtlSpecModel {
            attribute_name: self.attribute_name.deep_view(),
        }
    }
}

impl Value for TtlSpec {
    fn dup(&self) -> (r: Self) {
        TtlSpec {
            attribute_name: self.attribute_name.dup(),
        }
    }

    fn same(&self, other: &Self) -> (b: bool) {
        self.attribute_name.same(&other.attribute_name)
    }
}

impl Clone for TtlSpec {
    fn clone(&self) -> (r: Self)
        ensures
            r.deep_view() == self.deep_view(),
    {
        self.dup()
    }
}

/// A table's keys, columns, indexes and per-table configuration.
#[derive(Debug, PartialEq, Eq)]
pub struct TableSchema {
    /// The attribute that rows are partitioned on.
    pub partition_key: String,
    /// The attributes that order the rows of a partition.
    pub sort_keys: Vec<String>,
    /// The declared columns.
    pub columns: Vec<ColumnDef>,
    /// The secondary indexes, in the order in which they were added.
    pub indexes: Vec<IndexDef>,
    /// The change stream, if enabled.
    pub stream: Option<StreamSpec>,
    /// The row expiry, if enabled.
    pub ttl: Option<TtlSpec>,
    /// The provisioned throughput; `None` is pay-per-request.
    pub throughput: Option<ProvisionedThroughput>,
    /// The point-in-time recovery, if enabled.
    pub pitr: Option<PitrSpec>,
    /// The table's resource tags.
    pub tags: SortedMap<String, String>,
}

/// The mathematical value of a [`TableSchema`].
#[verifier::ext_equal]
pub struct TableSchemaModel {
    pub partition_key: Seq<char>,
    pub sort_keys: Seq<Seq<char>>,
    pub columns: Seq<ColumnDefModel>,
    pub indexes: Seq<IndexDefModel>,
    pub stream: Option<StreamSpecModel>,
    pub ttl: Option<TtlSpecModel>,
    pub throughput: Option<ProvisionedThroughput>,
    pub pitr: Option<PitrSpec>,
    pub tags: Map<Seq<char>, Seq<char>>,
}

impl DeepView for TableSchema {
    type V = TableSchemaModel;

    open spec fn deep_view(&self) -> TableSchemaModel {
        TableSchemaModel {
            partition_key: self.partition_key.deep_view(),
            sort_keys: self.sort_keys.deep_view(),
            columns: self.columns.deep_view(),
            indexes: self.indexes.deep_view(),
            stream: self.stream.deep_view(),
            ttl: self.ttl.deep_view(),
            throughput: self.throughput.deep_view(),
            pitr: self.pitr.deep_view(),
            tags: self.tags.deep_view(),
        }
    }
}

impl Value for TableSchema {
    fn dup(&self) -> (r: Self) {
        TableSchema {
            partition_key: self.partition_key.dup(),
            sort_keys: self.sort_keys.dup(),
            columns: self.columns.dup(),
            indexes: self.indexes.dup(),
            stream: self.stream.dup(),
            ttl: self.ttl.dup(),
            throughput: self.throughput.dup(),
            pitr: self.pitr.dup(),
            tags: self.tags.dup(),
        }
    }

    fn same(&self, other: &Self) -> (b: bool) {
        self.partition_key.same(&other.partition_key)
            && self.sort_keys.same(&other.sort_keys)
            && self.columns.same(&other.columns)
            && self.indexes.same(&other.indexes)
            && self.stream.same(&other.stream)
            && self.ttl.same(&other.ttl)
            && self.throughput.same(&other.throughput)
            && self.pitr.same(&other.pitr)
            && self.tags.same(&other.tags)
    }
}

impl Clone for TableSchema {
    fn clone(&self) -> (r: Self)
        ensures
            r.deep_view() == self.deep_view(),
    {
        self.dup()
    }
}

/// A bare schema: keys and columns, nothing enabled.
pub open spec fn bare_schema(
    partition_key: Seq<char>,
    sort_keys: Seq<Seq<char>>,
    columns: Seq<ColumnDefModel>,
) -> TableSchemaModel {
    TableSchemaModel {
        partition_key,
        sort_keys,
        columns,
        indexes: Seq::empty(),
        stream: None,
        ttl: None,
        throughput: None,
        pitr: None,
        tags: Map::empty(),
    }
}

/// Whether one of the indexes has the name.
pub open spec fn has_index(indexes: Seq<IndexDefModel>, name: Seq<char>) -> bool {
    exists|i: int| 0 <= i < indexes.len() && #[trigger] indexes[i].name == name
}

/// Whether the `i`th index is the first of the name.
pub open spec fn is_first_index(indexes: Seq<IndexDefModel>, name: Seq<char>, i: int) -> bool {
    &&& 0 <= i < indexes.len()
    &&& indexes[i].name == name
    &&& forall|j: int| 0 <= j < i ==> #[trigger] indexes[j].name != name
}

/// Where the first index of the name stands.
pub open spec fn index_position(indexes: Seq<IndexDefModel>, name: Seq<char>) -> int {
    choose|i: int| is_first_index(indexes, name, i)
}

/// There is but one first index of a name.
pub proof fn index_position_is(indexes: Seq<IndexDefModel>, name: Seq<char>, i: int)
    requires
        is_first_index(indexes, name, i),
    ensures
        has_index(indexes, name),
        index_position(indexes, name) == i,
{
    let j = index_position(indexes, name);
    assert(is_first_index(indexes, name, j));
    if i < j {
        assert(indexes[i].name != name);
    } else if j < i {
        assert(indexes[j].name != name);
    }
}

/// The schema with `index` in place of the index of its name, or after the others if there is none.
pub open spec fn with_index(s: TableSchemaModel, index: IndexDefModel) -> TableSchemaModel {
    TableSchemaModel {
        indexes: if has_index(s.indexes, index.name) {
            s.indexes.update(index_position(s.indexes, index.name), index)
        } else {
            s.indexes.push(index)
        },
        ..s
    }
}

/// Whether an index has another name.
pub open spec fn named_otherwise(name: Seq<char>) -> spec_fn(IndexDefModel) -> bool {
    |d: IndexDefModel| d.name != name
}

/// The schema without the indexes of the name.
pub open spec fn without_index(s: TableSchemaModel, name: Seq<char>) -> TableSchemaModel {
    TableSchemaModel { indexes: s.indexes.filter(named_otherwise(name)), ..s }
}

impl TableSchema {
    /// A table with the one key column `partition_key`.
    pub fn simple(partition_key: &str, ty: ColumnType) -> (r: TableSchema)
        ensures
            r.deep_view() == bare_schema(
                partition_key@,
                Seq::empty(),
                seq![ColumnDefModel { name: partition_key@, ty }],
            ),
    {
        let mut columns: Vec<ColumnDef> = Vec::new();
        columns.push(ColumnDef::new(partition_key, ty));
        let sort_keys: Vec<String> = Vec::new();
        assert(columns.deep_view() =~= seq![ColumnDefModel { name: partition_key@, ty }]);
        assert(sort_keys.deep_view() =~= Seq::<Seq<char>>::empty());
        TableSchema::with_columns(partition_key, sort_keys, columns)
    }

    /// A table with the given keys and columns and nothing enabled.
    pub fn with_columns(
        partition_key: &str,
        sort_keys: Vec<String>,
        columns: Vec<ColumnDef>,
    ) -> (r: TableSchema)
        ensures
            r.deep_view() == bare_schema(
                partition_key@,
                sort_keys.deep_view(),
                columns.deep_view(),
            ),
    {
        TableSchema {
            partition_key: partition_key.to_owned(),
            sort_keys,
            columns,
            indexes: Vec::new(),
            stream: None,
            ttl: None,
            throughput: None,
            pitr: None,
            tags: SortedMap::new(),
        }
    }

    /// Where the first index of the name stands.
    fn position_of_index(&self, name: &String) -> (r: Option<usize>)
        ensures
            match r {
                Some(i) => is_first_index(self.deep_view().indexes, name@, i as int),
                None => !has_index(self.deep_view().indexes, name@),
            },
    {
        let mut i: usize = 0;
        while i < self.indexes.len()
            invariant
                i <= self.indexes@.len(),
                forall|j: int|
                    0 <= j < i ==> #[trigger] self.deep_view().indexes[j].name != name@,
            decreases self.indexes@.len() - i,
        {
            assert(self.deep_view().indexes[i as int] == self.indexes@[i as int].deep_view());
            if self.indexes[i].name.same(name) {
                return Some(i);
            }
            i = i + 1;
        }
        None
    }

    /// Puts `index` in place of the index of its name, or after the others if there is none.
    pub fn upsert_index(&mut self, index: IndexDef)
        ensures
            final(self).deep_view() == with_index(old(self).deep_view(), index.deep_view()),
    {
        let ghost before = self.deep_view().indexes;
        let ghost d = index.deep_view();
        match self.position_of_index(&index.name) {
            Some(i) => {
                proof {
                    index_position_is(before, d.name, i as int);
                }
                self.indexes.set(i, index);
                assert(self.indexes.deep_view() =~= before.update(i as int, d));
            },
            None => {
                self.indexes.push(index);
                assert(self.indexes.deep_view() =~= before.push(d));
            },
        }
    }

    /// Takes the indexes of the name out and tells whether there was one.
    pub fn remove_index(&mut self, name: &String) -> (b: bool)
        ensures
            b == has_index(old(self).deep_view().indexes, name@),
            final(self).deep_view() == without_index(old(self).deep_view(), name@),
    {
        let ghost all = self.deep_view().indexes;
        let ghost p = named_otherwise(name@);
        let mut kept: Vec<IndexDef> = Vec::new();
        let mut found: bool = false;
        let mut i: usize = 0;
        proof {
            reveal(Seq::filter);
            assert(kept.deep_view() =~= all.take(0).filter(p));
        }
        while i < self.indexes.len()
            invariant
                i <= self.indexes@.len(),
                all == self.indexes.deep_view(),
                p == named_otherwise(name@),
                kept.deep_view() == all.take(i as int).filter(p),
                found == exists|j: int| 0 <= j < i && #[trigger] all[j].name == name@,
            decreases self.indexes@.len() - i,
        {
            let ghost before = kept.deep_view();
            proof {
                reveal(Seq::filter);
                assert(all.take(i + 1).drop_last() =~= all.take(i as int));
                assert(all[i as int] == self.indexes@[i as int].deep_view());
            }
            if self.indexes[i].name.same(name) {
                found = true;
                assert(all[i as int].name == name@);
            } else {
                kept.push(self.indexes[i].dup());
                assert(kept.deep_view() =~= before.push(all[i as int]));
            }
            i = i + 1;
        }
        assert(all.take(i as int) =~= all);
        self.indexes = kept;
        found
    }

    /// The first index of the name, if the table has one.
    pub fn index(&self, name: &String) -> (r: Option<&IndexDef>)
        ensures
            match r {
                Some(d) => has_index(self.deep_view().indexes, name@) && d.deep_view()
                    == self.deep_view().indexes[index_position(self.deep_view().indexes, name@)],
                None => !has_index(self.deep_view().indexes, name@),
            },
    {
        match self.position_of_index(name) {
            Some(i) => {
                proof {
                    index_position_is(self.deep_view().indexes, name@, i as int);
                }
                Some(&self.indexes[i])
            },
            None => None,
        }
    }

    /// Sets the status of the first index of the name; every other field of it stays. Nothing
    /// changes if the table has no such index.
    pub fn set_index_status(&mut self, name: &String, status: IndexStatus)
        ensures
            final(self).deep_view() == with_index_status(old(self).deep_view(), name@, status),
    {
        let ghost before = self.deep_view().indexes;
        if let Some(i) = self.position_of_index(name) {
            let mut index: IndexDef = self.indexes[i].dup();
            index.status = status;
            proof {
                index_position_is(before, name@, i as int);
            }
            let ghost d = index.deep_view();
            self.indexes.set(i, index);
            assert(self.indexes.deep_view() =~= before.update(i as int, d));
        }
    }
}

/// The schema with the status of the first index of the name set, if it has one.
pub open spec fn with_index_status(
    s: TableSchemaModel,
    name: Seq<char>,
    status: IndexStatus,
) -> TableSchemaModel {
    if has_index(s.indexes, name) {
        let i = index_position(s.indexes, name);
        TableSchemaModel {
            indexes: s.indexes.update(i, IndexDefModel { status, ..s.indexes[i] }),
            ..s
        }
    } else {
        s
    }
}

/// The catalog: every table's schema under the table's name.
pub type SchemaCatalog = SortedMap<TableName, TableSchema>;

} // verus!
