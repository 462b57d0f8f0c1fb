//! Changes to the entities as changes to the system keyspace. Keys, counters and markers are
//! encoded here; the value of any other entity is serialized elsewhere, and what comes back is
//! handed in as an entity.
use crate::big_endian::{be_value, push_u64, read_u64, u64_bytes, u64_bytes_give_the_number};
use crate::entity::{
    key_of, Entity, EntityKey, EntityKeyModel, EntityModel, EntityWrite, EntityWriteModel,
};
use crate::mirror::{KeyWrite, KeyWriteModel};
use crate::syskv::{
    decode_key, encode_key, entity_key, framed, framing_is_unique, id_of, key_bytes,
    keys_are_unique, kind_of, namespace, tag, DecodedKey, DecodedKeyModel, EntityKind,
};
use crate::tablet::bytes_deep_view;
use crate::value::Value;
use vstd::prelude::*;

verus! {

/// The change that puts a counter's value, as eight big-endian bytes, under an encoded key: a scan
/// then sorts by value.
pub fn put_counter(key: Vec<u8>, value: u64) -> (r: KeyWrite)
    ensures
        r.deep_view() == KeyWriteModel::Put(key@, u64_bytes(value)),
{
    let mut bytes: Vec<u8> = Vec::new();
    push_u64(&mut bytes, value);
    proof {
        bytes_deep_view(key);
        bytes_deep_view(bytes);
        assert(bytes@ =~= u64_bytes(value));
    }
    KeyWrite::Put(key, bytes)
}

/// The value of a counter, from its eight big-endian bytes.
pub fn decode_u64(bytes: &Vec<u8>) -> (r: u64)
    requires
        bytes@.len() == 8,
    ensures
        r == be_value(bytes@),
        u64_bytes(r) == bytes@,
{
    assert(bytes@.subrange(0, 8) =~= bytes@);
    read_u64(bytes, 0)
}

/// A change, as far as it is encoded here.
#[derive(Debug, PartialEq, Eq)]
pub enum Encoded {
    /// The whole change.
    Complete(KeyWrite),
    /// The key under which the entity's serialized value is to be put.
    AwaitsValue(Vec<u8>),
}

/// The mathematical value of an [`Encoded`].
#[verifier::ext_equal]
pub enum EncodedModel {
    Complete(KeyWriteModel),
    AwaitsValue(Seq<u8>),
}

impl View for Encoded {
    type V = EncodedModel;

    open spec fn view(&self) -> EncodedModel {
        match self {
            Encoded::Complete(w) => EncodedModel::Complete(w.deep_view()),
            Encoded::AwaitsValue(k) => EncodedModel::AwaitsValue(k@),
        }
    }
}

/// How a change is encoded.
pub open spec fn encoded(w: EntityWriteModel) -> EncodedModel {
    match w {
        EntityWriteModel::Delete(k) => EncodedModel::Complete(KeyWriteModel::Delete(key_bytes(k))),
        EntityWriteModel::Put(e) => {
            let key = key_bytes(key_of(e));
            match e {
                EntityModel::NextTabletId(v) => EncodedModel::Complete(
                    KeyWriteModel::Put(key, u64_bytes(v)),
                ),
                EntityModel::PitrGeneration(_, v) => EncodedModel::Complete(
                    KeyWriteModel::Put(key, u64_bytes(v)),
                ),
                EntityModel::IndexBackfill(_) => EncodedModel::Complete(
                    KeyWriteModel::Put(key, Seq::empty()),
                ),
                EntityModel::PitrBaseBackup(_) => EncodedModel::Complete(
                    KeyWriteModel::Put(key, Seq::empty()),
                ),
                _ => EncodedModel::AwaitsValue(key),
            }
        },
    }
}

/// A change that came in, as far as it is decoded here.
#[derive(Debug, PartialEq, Eq)]
pub enum Received {
    /// The change is none to the metadata.
    Ignored,
    /// An entity has no such id, or a counter no such value: nothing writes such a change.
    Malformed,
    /// The whole change.
    Complete(EntityWrite),
    /// The key of the entity whose serialized value was put.
    AwaitsValue(EntityKey),
}

/// The mathematical value of a [`Received`].
#[verifier::ext_equal]
pub enum ReceivedModel {
    Ignored,
    Malformed,
    Complete(EntityWriteModel),
    AwaitsValue(EntityKeyModel),
}

impl View for Received {
    type V = ReceivedModel;

    open spec fn view(&self) -> ReceivedModel {
        match self {
            Received::Ignored => ReceivedModel::Ignored,
            Received::Malformed => ReceivedModel::Malformed,
            Received::Complete(w) => ReceivedModel::Complete(w.deep_view()),
            Received::AwaitsValue(k) => ReceivedModel::AwaitsValue(k.deep_view()),
        }
    }
}

/// The key of a change.
pub open spec fn target(w: KeyWriteModel) -> Seq<u8> {
    match w {
        KeyWriteModel::Put(k, _) => k,
        KeyWriteModel::Delete(k) => k,
    }
}

/// What a change to a known entity is.
pub open spec fn change_to(k: EntityKeyModel, w: KeyWriteModel) -> ReceivedModel {
    match w {
        KeyWriteModel::Delete(_) => ReceivedModel::Complete(EntityWriteModel::Delete(k)),
        KeyWriteModel::Put(_, v) => match k {
            EntityKeyModel::NextTabletId => if v.len() == 8 {
                ReceivedModel::Complete(
                    EntityWriteModel::Put(EntityModel::NextTabletId(be_value(v) as u64)),
                )
            } else {
                ReceivedModel::Malformed
            },
            EntityKeyModel::PitrGeneration(t) => if v.len() == 8 {
                ReceivedModel::Complete(
                    EntityWriteModel::Put(EntityModel::PitrGeneration(t, be_value(v) as u64)),
                )
            } else {
                ReceivedModel::Malformed
            },
            EntityKeyModel::IndexBackfill(k) => ReceivedModel::Complete(
                EntityWriteModel::Put(EntityModel::IndexBackfill(k)),
            ),
            EntityKeyModel::PitrBaseBackup(k) => ReceivedModel::Complete(
                EntityWriteModel::Put(EntityModel::PitrBaseBackup(k)),
            ),
            _ => ReceivedModel::AwaitsValue(k),
        },
    }
}

/// Whether an id that no entity of the kind has is passed over: there may be counters that this
/// release does not know, and a composite id is read leniently.
pub open spec fn lenient(kind: EntityKind) -> bool {
    match kind {
        EntityKind::Counter => true,
        EntityKind::StreamShard => true,
        EntityKind::IndexBackfill => true,
        EntityKind::BackupProgress => true,
        EntityKind::PitrSegment => true,
        _ => false,
    }
}

/// What a change to an entity is whose id no entity of the kind has. The value of a counter is read
/// before its name.
pub open spec fn change_to_none(kind: EntityKind, w: KeyWriteModel) -> ReceivedModel {
    if kind == EntityKind::Counter && w is Put && w->Put_1.len() != 8 {
        ReceivedModel::Malformed
    } else if lenient(kind) {
        ReceivedModel::Ignored
    } else {
        ReceivedModel::Malformed
    }
}

/// Whether a key is one of an entity of the kind.
pub open spec fn of_kind(key: Seq<u8>, kind: EntityKind) -> bool {
    namespace().push(tag(kind)).is_prefix_of(key)
}

/// What a change that came in is.
pub open spec fn received(w: KeyWriteModel) -> ReceivedModel {
    if exists|k: EntityKeyModel| key_bytes(k) == target(w) {
        change_to(choose|k: EntityKeyModel| key_bytes(k) == target(w), w)
    } else if exists|kind: EntityKind| of_kind(target(w), kind) {
        change_to_none(choose|kind: EntityKind| of_kind(target(w), kind), w)
    } else {
        ReceivedModel::Ignored
    }
}

proof fn received_by(k: EntityKeyModel, w: KeyWriteModel)
    requires
        key_bytes(k) == target(w),
    ensures
        received(w) == change_to(k, w),
{
    keys_are_unique(k, choose|k: EntityKeyModel| key_bytes(k) == target(w));
}

proof fn received_by_none(kind: EntityKind, id: Seq<u8>, w: KeyWriteModel)
    requires
        framed(DecodedKeyModel::Entity { kind, id }) == target(w),
        forall|k: EntityKeyModel| kind_of(k) == kind ==> #[trigger] id_of(k) != id,
    ensures
        received(w) == change_to_none(kind, w),
{
    let n = namespace().len() as int;
    let key = target(w);
    assert forall|k: EntityKeyModel| key_bytes(k) != key by {
        if key_bytes(k) == key {
            framing_is_unique(
                DecodedKeyModel::Entity { kind, id },
                DecodedKeyModel::Entity { kind: kind_of(k), id: id_of(k) },
            );
        }
    }
    assert(key.subrange(0, n + 1) =~= namespace().push(tag(kind)));
    assert(of_kind(key, kind));
    let other = choose|kind: EntityKind| of_kind(key, kind);
    assert(namespace().push(tag(other))[n] == key.subrange(0, n + 1)[n]);
}

proof fn received_by_nothing(w: KeyWriteModel)
    requires
        forall|kind: EntityKind, id: Seq<u8>| #[trigger]
            framed(DecodedKeyModel::Entity { kind, id }) != target(w),
    ensures
        received(w) == ReceivedModel::Ignored,
{
    let n = namespace().len() as int;
    let key = target(w);
    assert forall|k: EntityKeyModel| key_bytes(k) != key by {
        assert(key_bytes(k) == framed(DecodedKeyModel::Entity { kind: kind_of(k), id: id_of(k) }));
    }
    assert forall|kind: EntityKind| !of_kind(key, kind) by {
        if of_kind(key, kind) {
            let id = key.subrange(n + 1, key.len() as int);
            assert(framed(DecodedKeyModel::Entity { kind, id }) =~= key);
        }
    }
}

/// What was encoded is received as it was: a change is received whole, and the key of a value that
/// is serialized elsewhere is that of its entity, whatever the value.
pub proof fn what_is_encoded_is_received(w: EntityWriteModel, value: Seq<u8>)
    ensures
        match encoded(w) {
            EncodedModel::Complete(change) => received(change) == ReceivedModel::Complete(w),
            EncodedModel::AwaitsValue(key) => w is Put && received(KeyWriteModel::Put(key, value))
                == ReceivedModel::AwaitsValue(key_of(w->Put_0)),
        },
{
    let k = match w {
        EntityWriteModel::Delete(k) => k,
        EntityWriteModel::Put(e) => key_of(e),
    };
    match encoded(w) {
        EncodedModel::Complete(change) => received_by(k, change),
        EncodedModel::AwaitsValue(key) => received_by(k, KeyWriteModel::Put(key, value)),
    }
    match w {
        EntityWriteModel::Put(EntityModel::NextTabletId(v)) => u64_bytes_give_the_number(v),
        EntityWriteModel::Put(EntityModel::PitrGeneration(_, v)) => u64_bytes_give_the_number(v),
        _ => {},
    }
}

/// Encodes a change.
pub fn encode_write(write: &EntityWrite) -> (r: Encoded)
    ensures
        r@ == encoded(write.deep_view()),
{
    match write {
        EntityWrite::Delete(k) => {
            let key: Vec<u8> = encode_key(k);
            proof {
                bytes_deep_view(key);
            }
            Encoded::Complete(KeyWrite::Delete(key))
        },
        EntityWrite::Put(e) => {
            let key: Vec<u8> = encode_key(&e.key());
            match e {
                Entity::NextTabletId(v) => Encoded::Complete(put_counter(key, *v)),
                Entity::PitrGeneration(_, v) => Encoded::Complete(put_counter(key, *v)),
                Entity::IndexBackfill(_) => Encoded::Complete(marker(key)),
                Entity::PitrBaseBackup(_) => Encoded::Complete(marker(key)),
                _ => Encoded::AwaitsValue(key),
            }
        },
    }
}

/// The change that puts nothing but the key: that it is there is all that it says.
fn marker(key: Vec<u8>) -> (r: KeyWrite)
    ensures
        r.deep_view() == KeyWriteModel::Put(key@, Seq::empty()),
{
    let none: Vec<u8> = Vec::new();
    proof {
        bytes_deep_view(key);
        bytes_deep_view(none);
    }
    KeyWrite::Put(key, none)
}

/// Decodes a change that came in.
pub fn receive_write(write: &KeyWrite) -> (r: Received)
    ensures
        r@ == received(write.deep_view()),
{
    let key: &Vec<u8> = match write {
        KeyWrite::Put(k, _) => k,
        KeyWrite::Delete(k) => k,
    };
    let ghost w = write.deep_view();
    proof {
        bytes_deep_view(*key);
        if let KeyWrite::Put(_, v) = write {
            bytes_deep_view(*v);
        }
    }
    match decode_key(key) {
        Some(DecodedKey::Entity { kind, id }) => match entity_key(kind, &id) {
            Some(k) => {
                proof {
                    received_by(k.deep_view(), w);
                }
                match write {
                    KeyWrite::Delete(_) => Received::Complete(EntityWrite::Delete(k)),
                    KeyWrite::Put(_, v) => receive_value(k, v),
                }
            },
            None => {
                proof {
                    received_by_none(kind, id@, w);
                }
                if let KeyWrite::Put(_, v) = write {
                    if kind == EntityKind::Counter && v.len() != 8 {
                        return Received::Malformed;
                    }
                }
                match kind {
                    EntityKind::Counter
                    | EntityKind::StreamShard
                    | EntityKind::IndexBackfill
                    | EntityKind::BackupProgress
                    | EntityKind::PitrSegment => Received::Ignored,
                    _ => Received::Malformed,
                }
            },
        },
        Some(DecodedKey::AppliedIndex) => {
            proof {
                assert forall|kind: EntityKind, id: Seq<u8>| #[trigger]
                    framed(DecodedKeyModel::Entity { kind, id }) != key@ by {
                    if framed(DecodedKeyModel::Entity { kind, id }) == key@ {
                        framing_is_unique(
                            DecodedKeyModel::Entity { kind, id },
                            DecodedKeyModel::AppliedIndex,
                        );
                    }
                }
                received_by_nothing(w);
            }
            Received::Ignored
        },
        None => {
            proof {
                received_by_nothing(w);
            }
            Received::Ignored
        },
    }
}

/// What putting a value under the key of an entity is.
fn receive_value(key: EntityKey, value: &Vec<u8>) -> (r: Received)
    ensures
        forall|k: Seq<u8>|
            r@ == #[trigger] change_to(key.deep_view(), KeyWriteModel::Put(k, value@)),
{
    match key {
        EntityKey::NextTabletId => if value.len() == 8 {
            Received::Complete(EntityWrite::Put(Entity::NextTabletId(decode_u64(value))))
        } else {
            Received::Malformed
        },
        EntityKey::PitrGeneration(t) => if value.len() == 8 {
            Received::Complete(EntityWrite::Put(Entity::PitrGeneration(t, decode_u64(value))))
        } else {
            Received::Malformed
        },
        EntityKey::IndexBackfill(k) => Received::Complete(
            EntityWrite::Put(Entity::IndexBackfill(k)),
        ),
        EntityKey::PitrBaseBackup(k) => Received::Complete(
            EntityWrite::Put(Entity::PitrBaseBackup(k)),
        ),
        _ => Received::AwaitsValue(key),
    }
}

/// A change under no key of this keyspace is passed over.
pub proof fn foreign_changes_are_passed_over(w: KeyWriteModel)
    requires
        forall|kind: EntityKind| !(#[trigger] of_kind(target(w), kind)),
    ensures
        received(w) == ReceivedModel::Ignored,
{
    let n = namespace().len() as int;
    let key = target(w);
    assert forall|k: EntityKeyModel| key_bytes(k) != key by {
        if key_bytes(k) == key {
            assert(key.subrange(0, n + 1) =~= namespace().push(tag(kind_of(k))));
            assert(of_kind(key, kind_of(k)));
        }
    }
}

/// A change to something that is none of the entities of its kind is passed over if it is to a
/// counter with a value of eight bytes or none, or under a composite id; else it is malformed.
pub proof fn changes_to_no_entity_are_told_apart(w: KeyWriteModel, kind: EntityKind)
    requires
        of_kind(target(w), kind),
        forall|k: EntityKeyModel| #[trigger] key_bytes(k) != target(w),
    ensures
        received(w) == ReceivedModel::Ignored || received(w) == ReceivedModel::Malformed,
        received(w) == ReceivedModel::Ignored <==> match kind {
            EntityKind::Counter => w is Delete || w->Put_1.len() == 8,
            EntityKind::StreamShard | EntityKind::IndexBackfill => true,
            EntityKind::BackupProgress | EntityKind::PitrSegment => true,
            _ => false,
        },
{
    let n = namespace().len() as int;
    let key = target(w);
    let id = key.subrange(n + 1, key.len() as int);
    assert(framed(DecodedKeyModel::Entity { kind, id }) =~= key);
    assert forall|k: EntityKeyModel| kind_of(k) == kind implies #[trigger] id_of(k) != id by {
        if id_of(k) == id {
            assert(key_bytes(k) == key);
        }
    }
    received_by_none(kind, id, w);
}

/// The value of a counter is the number that its eight bytes give; another length is malformed.
pub proof fn a_counter_has_eight_bytes(key: EntityKeyModel, value: Seq<u8>)
    requires
        key is NextTabletId || key is PitrGeneration,
    ensures
        ({
            let r = received(KeyWriteModel::Put(key_bytes(key), value));
            &&& value.len() != 8 ==> r == ReceivedModel::Malformed
            &&& value.len() == 8 ==> r is Complete && r->Complete_0 is Put && key_of(
                r->Complete_0->Put_0,
            ) == key
            &&& value.len() == 8 && key is NextTabletId ==> r->Complete_0->Put_0
                == EntityModel::NextTabletId(be_value(value) as u64)
            &&& value.len() == 8 && key is PitrGeneration ==> r->Complete_0->Put_0
                == EntityModel::PitrGeneration(key->PitrGeneration_0, be_value(value) as u64)
        }),
{
    received_by(key, KeyWriteModel::Put(key_bytes(key), value));
}

} // verus!
