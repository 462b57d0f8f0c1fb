//! The system keyspace: the entities of the metadata under encoded keys. A key is the reserved
//! namespace, a byte for the kind of entity, and the entity's id. In an id a number of fixed width
//! stands before a text.
use crate::big_endian::{
    byte_order_is_numeric_order, push_u64, read_u64, u64_bytes, u64_bytes_give_the_number,
};
use crate::entity::{EntityKey, EntityKeyModel};
use crate::ids::{NodeId, TabletId};
use crate::mirror::NEXT_TABLET_ID_COUNTER;
use crate::value::bytes_lt;
use vstd::prelude::*;
use vstd::slice::{slice_subrange, slice_to_vec};
use vstd::utf8::{
    encode_utf8, encode_utf8_decode_utf8, encode_utf8_valid_utf8, is_ascii_chars_encode_utf8,
    valid_utf8,
};

verus! {

/// What the names of the system keyspace start with. No table has such a name.
pub const RESERVED_NAMESPACE: &'static str = "__animus_system";

/// What the name of the counter that holds a table's recovery generation starts with; the table's
/// name follows.
pub const PITR_GENERATION_COUNTER: &'static str = "pitr_generation/";

/// Whether a name lies in the reserved namespace.
pub open spec fn reserved(name: Seq<char>) -> bool {
    RESERVED_NAMESPACE@.is_prefix_of(name)
}

/// Whether a name lies in the reserved namespace.
pub fn is_reserved_name(name: &str) -> (b: bool)
    ensures
        b == reserved(name@),
{
    let n: usize = RESERVED_NAMESPACE.unicode_len();
    if name.unicode_len() < n {
        return false;
    }
    let mut i: usize = 0;
    while i < n
        invariant
            i <= n,
            n == RESERVED_NAMESPACE@.len(),
            n <= name@.len(),
            forall|j: int| 0 <= j < i ==> RESERVED_NAMESPACE@[j] == name@[j],
        decreases n - i,
    {
        if RESERVED_NAMESPACE.get_char(i) != name.get_char(i) {
            assert(RESERVED_NAMESPACE@[i as int] != name@.subrange(0, n as int)[i as int]);
            return false;
        }
        i = i + 1;
    }
    true
}

/// What an entity is.
#[derive(Clone, Copy, Debug, PartialEq, Eq, Structural)]
pub enum EntityKind {
    /// A tablet, under its id.
    Tablet,
    /// A member, under its node id.
    Member,
    /// A table's schema, under its name.
    Schema,
    /// A placement policy, under the tablet's id.
    Policy,
    /// An address book, under the node id.
    NodeAddrs,
    /// A counter, under its name.
    Counter,
    /// The address of a consensus-group member, under its node id.
    CpMemberAddr,
    /// A stream segment, under its tablet and its epoch.
    StreamShard,
    /// A finished backfill, under its tablet and its index.
    IndexBackfill,
    /// Where a tablet was split from, under its id.
    SplitLineage,
    /// A placement obligation, under the tablet's id.
    SplitPlacing,
    /// A backup, under its id.
    Backup,
    /// What a tablet captured for a backup, under the tablet and the backup.
    BackupProgress,
    /// A restore, under its id.
    Restore,
    /// A recovery segment, under its tablet and its epoch.
    PitrSegment,
    /// The tag of a base snapshot, under the backup's id.
    PitrBaseBackup,
}

/// The byte that stands for a kind.
pub open spec fn tag(kind: EntityKind) -> u8 {
    match kind {
        EntityKind::Tablet => 1,
        EntityKind::Member => 2,
        EntityKind::Schema => 3,
        EntityKind::Policy => 4,
        EntityKind::NodeAddrs => 5,
        EntityKind::Counter => 6,
        EntityKind::CpMemberAddr => 7,
        EntityKind::StreamShard => 8,
        EntityKind::IndexBackfill => 9,
        EntityKind::SplitLineage => 10,
        EntityKind::SplitPlacing => 11,
        EntityKind::Backup => 12,
        EntityKind::BackupProgress => 13,
        EntityKind::Restore => 14,
        EntityKind::PitrSegment => 15,
        EntityKind::PitrBaseBackup => 16,
    }
}

/// The byte of the key that holds the index of the last applied command.
pub const APPLIED_INDEX_TAG: u8 = 0;

fn tag_of(kind: EntityKind) -> (r: u8)
    ensures
        r == tag(kind),
{
    match kind {
        EntityKind::Tablet => 1,
        EntityKind::Member => 2,
        EntityKind::Schema => 3,
        EntityKind::Policy => 4,
        EntityKind::NodeAddrs => 5,
        EntityKind::Counter => 6,
        EntityKind::CpMemberAddr => 7,
        EntityKind::StreamShard => 8,
        EntityKind::IndexBackfill => 9,
        EntityKind::SplitLineage => 10,
        EntityKind::SplitPlacing => 11,
        EntityKind::Backup => 12,
        EntityKind::BackupProgress => 13,
        EntityKind::Restore => 14,
        EntityKind::PitrSegment => 15,
        EntityKind::PitrBaseBackup => 16,
    }
}

fn kind_under(byte: u8) -> (r: Option<EntityKind>)
    ensures
        match r {
            Some(kind) => tag(kind) == byte,
            None => forall|kind: EntityKind| tag(kind) != byte,
        },
{
    match byte {
        1 => Some(EntityKind::Tablet),
        2 => Some(EntityKind::Member),
        3 => Some(EntityKind::Schema),
        4 => Some(EntityKind::Policy),
        5 => Some(EntityKind::NodeAddrs),
        6 => Some(EntityKind::Counter),
        7 => Some(EntityKind::CpMemberAddr),
        8 => Some(EntityKind::StreamShard),
        9 => Some(EntityKind::IndexBackfill),
        10 => Some(EntityKind::SplitLineage),
        11 => Some(EntityKind::SplitPlacing),
        12 => Some(EntityKind::Backup),
        13 => Some(EntityKind::BackupProgress),
        14 => Some(EntityKind::Restore),
        15 => Some(EntityKind::PitrSegment),
        16 => Some(EntityKind::PitrBaseBackup),
        _ => None,
    }
}

/// What a key of the system keyspace stands for.
#[derive(Debug, PartialEq, Eq)]
pub enum DecodedKey {
    /// The index of the last applied command, which is no part of the metadata.
    AppliedIndex,
    /// An entity of the metadata.
    Entity {
        /// What it is.
        kind: EntityKind,
        /// Its id.
        id: Vec<u8>,
    },
}

/// The mathematical value of a [`DecodedKey`].
#[verifier::ext_equal]
pub enum DecodedKeyModel {
    AppliedIndex,
    Entity { kind: EntityKind, id: Seq<u8> },
}

impl View for DecodedKey {
    type V = DecodedKeyModel;

    open spec fn view(&self) -> DecodedKeyModel {
        match self {
            DecodedKey::AppliedIndex => DecodedKeyModel::AppliedIndex,
            DecodedKey::Entity { kind, id } => DecodedKeyModel::Entity { kind: *kind, id: id@ },
        }
    }
}

/// The bytes of the namespace.
pub open spec fn namespace() -> Seq<u8> {
    encode_utf8(RESERVED_NAMESPACE@)
}

/// The bytes of a key.
pub open spec fn framed(key: DecodedKeyModel) -> Seq<u8> {
    match key {
        DecodedKeyModel::AppliedIndex => namespace().push(APPLIED_INDEX_TAG),
        DecodedKeyModel::Entity { kind, id } => namespace().push(tag(kind)) + id,
    }
}

/// The bytes of a key stand for that key alone.
pub proof fn framing_is_unique(a: DecodedKeyModel, b: DecodedKeyModel)
    requires
        framed(a) == framed(b),
    ensures
        a == b,
{
    let n = namespace().len() as int;
    match (a, b) {
        (
            DecodedKeyModel::Entity { kind, id },
            DecodedKeyModel::Entity { kind: other_kind, id: other },
        ) => {
            assert(framed(a)[n] == tag(kind) && framed(b)[n] == tag(other_kind));
            assert(framed(a).subrange(n + 1, framed(a).len() as int) =~= id);
            assert(framed(b).subrange(n + 1, framed(b).len() as int) =~= other);
        },
        (DecodedKeyModel::Entity { kind, id }, DecodedKeyModel::AppliedIndex) => {
            assert(framed(a)[n] == tag(kind));
        },
        (DecodedKeyModel::AppliedIndex, DecodedKeyModel::Entity { kind, id }) => {
            assert(framed(b)[n] == tag(kind));
        },
        _ => {},
    }
}

/// Whether the bytes start with the prefix.
fn starts_with(bytes: &Vec<u8>, prefix: &[u8]) -> (b: bool)
    ensures
        b == prefix@.is_prefix_of(bytes@),
{
    if bytes.len() < prefix.len() {
        return false;
    }
    let mut i: usize = 0;
    while i < prefix.len()
        invariant
            i <= prefix@.len() <= bytes@.len(),
            forall|j: int| 0 <= j < i ==> prefix@[j] == bytes@[j],
        decreases prefix@.len() - i,
    {
        if prefix[i] != bytes[i] {
            assert(prefix@[i as int] != bytes@.subrange(0, prefix@.len() as int)[i as int]);
            return false;
        }
        i = i + 1;
    }
    true
}

/// The bytes from `from` on.
fn tail(bytes: &Vec<u8>, from: usize) -> (r: Vec<u8>)
    requires
        from <= bytes@.len(),
    ensures
        r@ == bytes@.subrange(from as int, bytes@.len() as int),
{
    slice_to_vec(slice_subrange(bytes.as_slice(), from, bytes.len()))
}

/// Appends the bytes of a text.
fn push_text(out: &mut Vec<u8>, text: &str)
    ensures
        final(out)@ == old(out)@ + encode_utf8(text@),
{
    let bytes: &[u8] = text.as_bytes();
    let mut i: usize = 0;
    while i < bytes.len()
        invariant
            i <= bytes@.len(),
            bytes@ == encode_utf8(text@),
            out@ == old(out)@ + bytes@.take(i as int),
        decreases bytes@.len() - i,
    {
        out.push(bytes[i]);
        assert(bytes@.take(i + 1) =~= bytes@.take(i as int).push(bytes@[i as int]));
        i = i + 1;
    }
    assert(bytes@.take(i as int) =~= bytes@);
}

/// The text that the bytes encode, by `String::from_utf8`; `None` if they are no UTF-8.
#[verifier::external_body]
fn text_of(bytes: Vec<u8>) -> (r: Option<String>)
    ensures
        match r {
            Some(text) => encode_utf8(text@) == bytes@,
            None => !valid_utf8(bytes@),
        },
{
    String::from_utf8(bytes).ok()
}

/// The key of the index of the last applied command.
pub fn applied_index_key() -> (r: Vec<u8>)
    ensures
        r@ == framed(DecodedKeyModel::AppliedIndex),
{
    let mut out: Vec<u8> = Vec::new();
    push_text(&mut out, RESERVED_NAMESPACE);
    out.push(APPLIED_INDEX_TAG);
    out
}

/// What a key stands for; `None` if it is no key of the system keyspace.
pub fn decode_key(key: &Vec<u8>) -> (r: Option<DecodedKey>)
    ensures
        match r {
            Some(k) => framed(k@) == key@,
            None => forall|k: DecodedKeyModel| #[trigger] framed(k) != key@,
        },
{
    let prefix: &[u8] = RESERVED_NAMESPACE.as_bytes();
    let n: usize = prefix.len();
    proof {
        assert forall|k: DecodedKeyModel| #[trigger] framed(k) == key@ implies key@.len() > n
            && prefix@.is_prefix_of(key@) by {
            assert(framed(k).subrange(0, n as int) =~= prefix@);
        }
    }
    if !starts_with(key, prefix) || key.len() == n {
        return None;
    }
    let byte: u8 = key[n];
    proof {
        assert forall|k: DecodedKeyModel| #[trigger] framed(k) == key@ implies (match k {
            DecodedKeyModel::AppliedIndex => byte == APPLIED_INDEX_TAG && key@.len() == n + 1,
            DecodedKeyModel::Entity { kind, id } => byte == tag(kind),
        }) by {
            assert(framed(k)[n as int] == byte);
        }
    }
    if byte == APPLIED_INDEX_TAG {
        if key.len() == n + 1 {
            assert(framed(DecodedKeyModel::AppliedIndex) =~= key@);
            return Some(DecodedKey::AppliedIndex);
        }
        return None;
    }
    match kind_under(byte) {
        Some(kind) => {
            let id: Vec<u8> = tail(key, n + 1);
            assert(framed(DecodedKeyModel::Entity { kind, id: id@ }) =~= key@);
            Some(DecodedKey::Entity { kind, id })
        },
        None => None,
    }
}

/// The kind of the entity under a key.
pub open spec fn kind_of(key: EntityKeyModel) -> EntityKind {
    match key {
        EntityKeyModel::Tablet(_) => EntityKind::Tablet,
        EntityKeyModel::Member(_) => EntityKind::Member,
        EntityKeyModel::Schema(_) => EntityKind::Schema,
        EntityKeyModel::Policy(_) => EntityKind::Policy,
        EntityKeyModel::NodeAddrs(_) => EntityKind::NodeAddrs,
        EntityKeyModel::NextTabletId => EntityKind::Counter,
        EntityKeyModel::PitrGeneration(_) => EntityKind::Counter,
        EntityKeyModel::CpMemberAddr(_) => EntityKind::CpMemberAddr,
        EntityKeyModel::StreamShard(_) => EntityKind::StreamShard,
        EntityKeyModel::IndexBackfill(_) => EntityKind::IndexBackfill,
        EntityKeyModel::SplitLineage(_) => EntityKind::SplitLineage,
        EntityKeyModel::SplitPlacing(_) => EntityKind::SplitPlacing,
        EntityKeyModel::Backup(_) => EntityKind::Backup,
        EntityKeyModel::BackupProgress(_) => EntityKind::BackupProgress,
        EntityKeyModel::Restore(_) => EntityKind::Restore,
        EntityKeyModel::PitrSegment(_) => EntityKind::PitrSegment,
        EntityKeyModel::PitrBaseBackup(_) => EntityKind::PitrBaseBackup,
    }
}

/// The id of the entity under a key.
pub open spec fn id_of(key: EntityKeyModel) -> Seq<u8> {
    match key {
        EntityKeyModel::Tablet(t) => u64_bytes(t.0),
        EntityKeyModel::Member(n) => encode_utf8(n),
        EntityKeyModel::Schema(n) => encode_utf8(n),
        EntityKeyModel::Policy(t) => u64_bytes(t.0),
        EntityKeyModel::NodeAddrs(n) => encode_utf8(n),
        EntityKeyModel::NextTabletId => encode_utf8(NEXT_TABLET_ID_COUNTER@),
        EntityKeyModel::PitrGeneration(n) => encode_utf8(PITR_GENERATION_COUNTER@) + encode_utf8(n),
        EntityKeyModel::CpMemberAddr(n) => encode_utf8(n),
        EntityKeyModel::StreamShard(k) => u64_bytes(k.0.0) + u64_bytes(k.1),
        EntityKeyModel::IndexBackfill(k) => u64_bytes(k.0.0) + encode_utf8(k.1),
        EntityKeyModel::SplitLineage(t) => u64_bytes(t.0),
        EntityKeyModel::SplitPlacing(t) => u64_bytes(t.0),
        EntityKeyModel::Backup(n) => encode_utf8(n),
        EntityKeyModel::BackupProgress(k) => u64_bytes(k.1.0) + encode_utf8(k.0),
        EntityKeyModel::Restore(n) => encode_utf8(n),
        EntityKeyModel::PitrSegment(k) => u64_bytes(k.0.0) + u64_bytes(k.1),
        EntityKeyModel::PitrBaseBackup(n) => encode_utf8(n),
    }
}

/// The bytes of the key of an entity.
pub open spec fn key_bytes(key: EntityKeyModel) -> Seq<u8> {
    framed(DecodedKeyModel::Entity { kind: kind_of(key), id: id_of(key) })
}

proof fn texts_are_unique(a: Seq<char>, b: Seq<char>)
    ensures
        encode_utf8(a) == encode_utf8(b) ==> a == b,
{
    encode_utf8_decode_utf8(a);
    encode_utf8_decode_utf8(b);
}

proof fn numbers_are_unique(a: u64, b: u64)
    ensures
        u64_bytes(a).len() == 8,
        u64_bytes(b).len() == 8,
        u64_bytes(a) == u64_bytes(b) ==> a == b,
{
    u64_bytes_give_the_number(a);
    u64_bytes_give_the_number(b);
}

/// What follows equal heads of equal length is equal.
proof fn pairs_are_unique(a: Seq<u8>, x: Seq<u8>, b: Seq<u8>, y: Seq<u8>)
    requires
        a.len() == b.len(),
        a + x == b + y,
    ensures
        a == b,
        x == y,
{
    assert((a + x).subrange(0, a.len() as int) =~= a);
    assert((b + y).subrange(0, b.len() as int) =~= b);
    assert((a + x).subrange(a.len() as int, (a + x).len() as int) =~= x);
    assert((b + y).subrange(b.len() as int, (b + y).len() as int) =~= y);
}

/// The name of the allocator's counter does not start like that of a generation.
proof fn counters_differ(name: Seq<char>)
    ensures
        encode_utf8(PITR_GENERATION_COUNTER@) + encode_utf8(name) != encode_utf8(
            NEXT_TABLET_ID_COUNTER@,
        ),
        !encode_utf8(PITR_GENERATION_COUNTER@).is_prefix_of(encode_utf8(NEXT_TABLET_ID_COUNTER@)),
{
    reveal_strlit("pitr_generation/");
    reveal_strlit("next_tablet_id");
    is_ascii_chars_encode_utf8(PITR_GENERATION_COUNTER@);
    is_ascii_chars_encode_utf8(NEXT_TABLET_ID_COUNTER@);
    let p = encode_utf8(PITR_GENERATION_COUNTER@);
    assert(p.len() > 0 && p[0] != encode_utf8(NEXT_TABLET_ID_COUNTER@)[0]);
    assert((p + encode_utf8(name))[0] == p[0]);
}

/// Two entities with the same kind and the same id are under the same key.
pub proof fn ids_are_unique(a: EntityKeyModel, b: EntityKeyModel)
    requires
        kind_of(a) == kind_of(b),
        id_of(a) == id_of(b),
    ensures
        a == b,
{
    match (a, b) {
        (EntityKeyModel::Tablet(x), EntityKeyModel::Tablet(y)) => numbers_are_unique(x.0, y.0),
        (EntityKeyModel::Member(x), EntityKeyModel::Member(y)) => texts_are_unique(x, y),
        (EntityKeyModel::Schema(x), EntityKeyModel::Schema(y)) => texts_are_unique(x, y),
        (EntityKeyModel::Policy(x), EntityKeyModel::Policy(y)) => numbers_are_unique(x.0, y.0),
        (EntityKeyModel::NodeAddrs(x), EntityKeyModel::NodeAddrs(y)) => texts_are_unique(x, y),
        (EntityKeyModel::PitrGeneration(x), EntityKeyModel::PitrGeneration(y)) => {
            let p = encode_utf8(PITR_GENERATION_COUNTER@);
            pairs_are_unique(p, encode_utf8(x), p, encode_utf8(y));
            texts_are_unique(x, y);
        },
        (EntityKeyModel::PitrGeneration(x), EntityKeyModel::NextTabletId) => counters_differ(x),
        (EntityKeyModel::NextTabletId, EntityKeyModel::PitrGeneration(y)) => counters_differ(y),
        (EntityKeyModel::CpMemberAddr(x), EntityKeyModel::CpMemberAddr(y)) => {
            texts_are_unique(x, y)
        },
        (EntityKeyModel::StreamShard(x), EntityKeyModel::StreamShard(y)) => {
            numbers_are_unique(x.0.0, y.0.0);
            numbers_are_unique(x.1, y.1);
            pairs_are_unique(u64_bytes(x.0.0), u64_bytes(x.1), u64_bytes(y.0.0), u64_bytes(y.1));
        },
        (EntityKeyModel::IndexBackfill(x), EntityKeyModel::IndexBackfill(y)) => {
            numbers_are_unique(x.0.0, y.0.0);
            texts_are_unique(x.1, y.1);
            pairs_are_unique(
                u64_bytes(x.0.0),
                encode_utf8(x.1),
                u64_bytes(y.0.0),
                encode_utf8(y.1),
            );
        },
        (EntityKeyModel::SplitLineage(x), EntityKeyModel::SplitLineage(y)) => {
            numbers_are_unique(x.0, y.0)
        },
        (EntityKeyModel::SplitPlacing(x), EntityKeyModel::SplitPlacing(y)) => {
            numbers_are_unique(x.0, y.0)
        },
        (EntityKeyModel::Backup(x), EntityKeyModel::Backup(y)) => texts_are_unique(x, y),
        (EntityKeyModel::BackupProgress(x), EntityKeyModel::BackupProgress(y)) => {
            numbers_are_unique(x.1.0, y.1.0);
            texts_are_unique(x.0, y.0);
            pairs_are_unique(
                u64_bytes(x.1.0),
                encode_utf8(x.0),
                u64_bytes(y.1.0),
                encode_utf8(y.0),
            );
        },
        (EntityKeyModel::Restore(x), EntityKeyModel::Restore(y)) => texts_are_unique(x, y),
        (EntityKeyModel::PitrSegment(x), EntityKeyModel::PitrSegment(y)) => {
            numbers_are_unique(x.0.0, y.0.0);
            numbers_are_unique(x.1, y.1);
            pairs_are_unique(u64_bytes(x.0.0), u64_bytes(x.1), u64_bytes(y.0.0), u64_bytes(y.1));
        },
        (EntityKeyModel::PitrBaseBackup(x), EntityKeyModel::PitrBaseBackup(y)) => {
            texts_are_unique(x, y)
        },
        _ => {},
    }
}

/// The encoded key of an entity stands for that entity alone.
pub proof fn keys_are_unique(a: EntityKeyModel, b: EntityKeyModel)
    requires
        key_bytes(a) == key_bytes(b),
    ensures
        a == b,
{
    framing_is_unique(
        DecodedKeyModel::Entity { kind: kind_of(a), id: id_of(a) },
        DecodedKeyModel::Entity { kind: kind_of(b), id: id_of(b) },
    );
    ids_are_unique(a, b);
}

/// The keys of tablets stand in the order of the tablets' ids.
pub proof fn tablet_keys_keep_the_order(a: TabletId, b: TabletId)
    ensures
        bytes_lt(
            key_bytes(EntityKeyModel::Tablet(a)),
            key_bytes(EntityKeyModel::Tablet(b)),
        ) <==> a.0 < b.0,
{
    let head = namespace().push(tag(EntityKind::Tablet));
    u64_bytes_give_the_number(a.0);
    u64_bytes_give_the_number(b.0);
    byte_order_is_numeric_order(u64_bytes(a.0), u64_bytes(b.0));
    common_heads_do_not_matter(head, u64_bytes(a.0), u64_bytes(b.0));
}

proof fn common_heads_do_not_matter(head: Seq<u8>, a: Seq<u8>, b: Seq<u8>)
    ensures
        bytes_lt(head + a, head + b) == bytes_lt(a, b),
    decreases head.len(),
{
    if head.len() == 0 {
        assert(head + a =~= a && head + b =~= b);
    } else {
        common_heads_do_not_matter(head.drop_first(), a, b);
        assert((head + a).drop_first() =~= head.drop_first() + a);
        assert((head + b).drop_first() =~= head.drop_first() + b);
    }
}

fn push_id(out: &mut Vec<u8>, key: &EntityKey)
    ensures
        final(out)@ == old(out)@ + id_of(key.deep_view()),
{
    match key {
        EntityKey::Tablet(t) => push_u64(out, t.0),
        EntityKey::Member(n) => push_text(out, n.0.as_str()),
        EntityKey::Schema(n) => push_text(out, n.as_str()),
        EntityKey::Policy(t) => push_u64(out, t.0),
        EntityKey::NodeAddrs(n) => push_text(out, n.0.as_str()),
        EntityKey::NextTabletId => push_text(out, NEXT_TABLET_ID_COUNTER),
        EntityKey::PitrGeneration(n) => {
            push_text(out, PITR_GENERATION_COUNTER);
            push_text(out, n.as_str());
        },
        EntityKey::CpMemberAddr(n) => push_text(out, n.0.as_str()),
        EntityKey::StreamShard(k) => {
            push_u64(out, k.0.0);
            push_u64(out, k.1);
        },
        EntityKey::IndexBackfill(k) => {
            push_u64(out, k.0.0);
            push_text(out, k.1.as_str());
        },
        EntityKey::SplitLineage(t) => push_u64(out, t.0),
        EntityKey::SplitPlacing(t) => push_u64(out, t.0),
        EntityKey::Backup(n) => push_text(out, n.as_str()),
        EntityKey::BackupProgress(k) => {
            push_u64(out, k.1.0);
            push_text(out, k.0.as_str());
        },
        EntityKey::Restore(n) => push_text(out, n.as_str()),
        EntityKey::PitrSegment(k) => {
            push_u64(out, k.0.0);
            push_u64(out, k.1);
        },
        EntityKey::PitrBaseBackup(n) => push_text(out, n.as_str()),
    }
}

impl EntityKey {
    /// What the entity is.
    pub fn kind(&self) -> (r: EntityKind)
        ensures
            r == kind_of(self.deep_view()),
    {
        match self {
            EntityKey::Tablet(_) => EntityKind::Tablet,
            EntityKey::Member(_) => EntityKind::Member,
            EntityKey::Schema(_) => EntityKind::Schema,
            EntityKey::Policy(_) => EntityKind::Policy,
            EntityKey::NodeAddrs(_) => EntityKind::NodeAddrs,
            EntityKey::NextTabletId => EntityKind::Counter,
            EntityKey::PitrGeneration(_) => EntityKind::Counter,
            EntityKey::CpMemberAddr(_) => EntityKind::CpMemberAddr,
            EntityKey::StreamShard(_) => EntityKind::StreamShard,
            EntityKey::IndexBackfill(_) => EntityKind::IndexBackfill,
            EntityKey::SplitLineage(_) => EntityKind::SplitLineage,
            EntityKey::SplitPlacing(_) => EntityKind::SplitPlacing,
            EntityKey::Backup(_) => EntityKind::Backup,
            EntityKey::BackupProgress(_) => EntityKind::BackupProgress,
            EntityKey::Restore(_) => EntityKind::Restore,
            EntityKey::PitrSegment(_) => EntityKind::PitrSegment,
            EntityKey::PitrBaseBackup(_) => EntityKind::PitrBaseBackup,
        }
    }
}

/// The encoded key of an entity.
pub fn encode_key(key: &EntityKey) -> (r: Vec<u8>)
    ensures
        r@ == key_bytes(key.deep_view()),
{
    let mut out: Vec<u8> = Vec::new();
    push_text(&mut out, RESERVED_NAMESPACE);
    out.push(tag_of(key.kind()));
    push_id(&mut out, key);
    assert(out@ =~= key_bytes(key.deep_view()));
    out
}

/// The tablet that an id of eight bytes names.
fn tablet_id(id: &Vec<u8>) -> (r: Option<TabletId>)
    ensures
        match r {
            Some(t) => u64_bytes(t.0) == id@,
            None => forall|v: u64| #[trigger] u64_bytes(v) != id@,
        },
{
    if id.len() == 8 {
        assert(id@.subrange(0, 8) =~= id@);
        Some(TabletId(read_u64(id, 0)))
    } else {
        proof {
            assert forall|v: u64| #[trigger] u64_bytes(v) != id@ by {
                u64_bytes_give_the_number(v);
            }
        }
        None
    }
}

/// The text that an id is, from `from` on.
fn text_id(id: &Vec<u8>, from: usize) -> (r: Option<String>)
    requires
        from <= id@.len(),
    ensures
        match r {
            Some(t) => encode_utf8(t@) == id@.subrange(from as int, id@.len() as int),
            None => forall|t: Seq<char>| #[trigger]
                encode_utf8(t) != id@.subrange(from as int, id@.len() as int),
        },
{
    proof {
        assert forall|t: Seq<char>| valid_utf8(#[trigger] encode_utf8(t)) by {
            encode_utf8_valid_utf8(t);
        }
    }
    text_of(tail(id, from))
}

/// The tablet and the epoch that an id names.
fn decode_segment_id(id: &Vec<u8>) -> (r: Option<(TabletId, u64)>)
    ensures
        match r {
            Some(k) => u64_bytes(k.0.0) + u64_bytes(k.1) == id@,
            None => forall|t: u64, e: u64| #[trigger] u64_bytes(t) + #[trigger] u64_bytes(e) != id@,
        },
{
    if id.len() == 16 {
        assert(id@.subrange(0, 8) + id@.subrange(8, 16) =~= id@);
        Some((TabletId(read_u64(id, 0)), read_u64(id, 8)))
    } else {
        proof {
            assert forall|t: u64, e: u64| #[trigger]
                u64_bytes(t) + #[trigger] u64_bytes(e) != id@ by {
                u64_bytes_give_the_number(t);
                u64_bytes_give_the_number(e);
            }
        }
        None
    }
}

/// The tablet and the text that an id names.
fn decode_named_id(id: &Vec<u8>) -> (r: Option<(TabletId, String)>)
    ensures
        match r {
            Some(k) => u64_bytes(k.0.0) + encode_utf8(k.1@) == id@,
            None => forall|t: u64, n: Seq<char>| #[trigger]
                u64_bytes(t) + #[trigger] encode_utf8(n) != id@,
        },
{
    proof {
        assert forall|t: u64, n: Seq<char>| #[trigger]
            u64_bytes(t) + #[trigger] encode_utf8(n) == id@ implies id@.len() >= 8
            && encode_utf8(n) == id@.subrange(8, id@.len() as int) by {
            u64_bytes_give_the_number(t);
            assert((u64_bytes(t) + encode_utf8(n)).subrange(8, id@.len() as int) =~= encode_utf8(
                n,
            ));
        }
    }
    if id.len() < 8 {
        return None;
    }
    match text_id(id, 8) {
        Some(name) => {
            assert(id@.subrange(0, 8) + id@.subrange(8, id@.len() as int) =~= id@);
            Some((TabletId(read_u64(id, 0)), name))
        },
        None => None,
    }
}

/// The counter that an id names.
fn decode_counter_id(id: &Vec<u8>) -> (r: Option<EntityKey>)
    ensures
        match r {
            Some(k) => kind_of(k.deep_view()) == EntityKind::Counter && id_of(k.deep_view()) == id@,
            None => encode_utf8(NEXT_TABLET_ID_COUNTER@) != id@ && forall|n: Seq<char>|
                encode_utf8(PITR_GENERATION_COUNTER@) + #[trigger] encode_utf8(n) != id@,
        },
{
    let next: &[u8] = NEXT_TABLET_ID_COUNTER.as_bytes();
    let head: &[u8] = PITR_GENERATION_COUNTER.as_bytes();
    if id.len() == next.len() && starts_with(id, next) {
        assert(id@.subrange(0, id@.len() as int) =~= id@);
        return Some(EntityKey::NextTabletId);
    }
    proof {
        assert(id@ == next@ ==> next@.is_prefix_of(id@));
        assert forall|n: Seq<char>| head@ + #[trigger] encode_utf8(n) == id@ implies
            head@.is_prefix_of(id@) && encode_utf8(n) == id@.subrange(
            head@.len() as int,
            id@.len() as int,
        ) by {
            assert(id@.subrange(0, head@.len() as int) =~= head@);
            assert(id@.subrange(head@.len() as int, id@.len() as int) =~= encode_utf8(n));
        }
    }
    if !starts_with(id, head) {
        return None;
    }
    match text_id(id, head.len()) {
        Some(table) => {
            assert(head@ + id@.subrange(head@.len() as int, id@.len() as int) =~= id@);
            Some(EntityKey::PitrGeneration(table))
        },
        None => None,
    }
}

/// The key of the entity of a kind that has an id; `None` if no entity of the kind has it.
pub fn entity_key(kind: EntityKind, id: &Vec<u8>) -> (r: Option<EntityKey>)
    ensures
        match r {
            Some(k) => kind_of(k.deep_view()) == kind && id_of(k.deep_view()) == id@,
            None => forall|k: EntityKeyModel| kind_of(k) == kind ==> #[trigger] id_of(k) != id@,
        },
{
    assert(id@.subrange(0, id@.len() as int) =~= id@);
    match kind {
        EntityKind::Tablet => match tablet_id(id) {
            Some(t) => Some(EntityKey::Tablet(t)),
            None => None,
        },
        EntityKind::Member => match text_id(id, 0) {
            Some(n) => Some(EntityKey::Member(NodeId(n))),
            None => None,
        },
        EntityKind::Schema => match text_id(id, 0) {
            Some(n) => Some(EntityKey::Schema(n)),
            None => None,
        },
        EntityKind::Policy => match tablet_id(id) {
            Some(t) => Some(EntityKey::Policy(t)),
            None => None,
        },
        EntityKind::NodeAddrs => match text_id(id, 0) {
            Some(n) => Some(EntityKey::NodeAddrs(NodeId(n))),
            None => None,
        },
        EntityKind::Counter => decode_counter_id(id),
        EntityKind::CpMemberAddr => match text_id(id, 0) {
            Some(n) => Some(EntityKey::CpMemberAddr(NodeId(n))),
            None => None,
        },
        EntityKind::StreamShard => match decode_segment_id(id) {
            Some(k) => Some(EntityKey::StreamShard(k)),
            None => None,
        },
        EntityKind::IndexBackfill => match decode_named_id(id) {
            Some(k) => Some(EntityKey::IndexBackfill(k)),
            None => None,
        },
        EntityKind::SplitLineage => match tablet_id(id) {
            Some(t) => Some(EntityKey::SplitLineage(t)),
            None => None,
        },
        EntityKind::SplitPlacing => match tablet_id(id) {
            Some(t) => Some(EntityKey::SplitPlacing(t)),
            None => None,
        },
        EntityKind::Backup => match text_id(id, 0) {
            Some(n) => Some(EntityKey::Backup(n)),
            None => None,
        },
        EntityKind::BackupProgress => match decode_named_id(id) {
            Some(k) => Some(EntityKey::BackupProgress((k.1, k.0))),
            None => None,
        },
        EntityKind::Restore => match text_id(id, 0) {
            Some(n) => Some(EntityKey::Restore(n)),
            None => None,
        },
        EntityKind::PitrSegment => match decode_segment_id(id) {
            Some(k) => Some(EntityKey::PitrSegment(k)),
            None => None,
        },
        EntityKind::PitrBaseBackup => match text_id(id, 0) {
            Some(n) => Some(EntityKey::PitrBaseBackup(n)),
            None => None,
        },
    }
}

} // verus!
