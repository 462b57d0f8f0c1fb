//! The system keyspace: keys, counters, markers.
use animus_control::codec::{
    decode_u64, encode_write, put_counter, receive_write, Encoded, Received,
};
use animus_control::syskv::{
    applied_index_key, decode_key, encode_key, entity_key, is_reserved_name, DecodedKey,
    EntityKind, RESERVED_NAMESPACE,
};
use animus_control::{
    apply_key_write, Entity, EntityKey, EntityWrite, KeyRange, KeyWrite, Metadata, NodeId, Tablet,
    TabletId,
};

fn keys() -> Vec<EntityKey> {
    let node = || NodeId("zürich-1".to_owned());
    let text = || "orders".to_owned();
    vec![
        EntityKey::Tablet(TabletId(258)),
        EntityKey::Member(node()),
        EntityKey::Schema(text()),
        EntityKey::Policy(TabletId(258)),
        EntityKey::NodeAddrs(node()),
        EntityKey::NextTabletId,
        EntityKey::PitrGeneration(text()),
        EntityKey::PitrGeneration(String::new()),
        EntityKey::CpMemberAddr(node()),
        EntityKey::StreamShard((TabletId(7), u64::MAX)),
        EntityKey::IndexBackfill((TabletId(7), "by_email".to_owned())),
        EntityKey::SplitLineage(TabletId(258)),
        EntityKey::SplitPlacing(TabletId(258)),
        EntityKey::Backup(text()),
        EntityKey::BackupProgress(("b-1".to_owned(), TabletId(0))),
        EntityKey::Restore(text()),
        EntityKey::PitrSegment((TabletId(7), 0)),
        EntityKey::PitrBaseBackup(text()),
    ]
}

/// The key of an entity of a kind with the given id bytes.
fn raw_key(kind: u8, id: &[u8]) -> Vec<u8> {
    let mut key = RESERVED_NAMESPACE.as_bytes().to_vec();
    key.push(kind);
    key.extend_from_slice(id);
    key
}

/// Installs a change that needs no serialized value.
fn install(meta: &mut Metadata, write: &KeyWrite) -> bool {
    match receive_write(write) {
        Received::Complete(change) => {
            apply_key_write(meta, &change);
            true
        }
        Received::Ignored => false,
        other => panic!("{other:?}"),
    }
}

#[test]
fn apply_key_write_ignores_unrecognized_keys() {
    let mut meta = Metadata::default();
    let before = meta.clone();
    assert!(!install(
        &mut meta,
        &KeyWrite::Put(b"not a system key".to_vec(), b"value".to_vec()),
    ));
    assert!(!install(
        &mut meta,
        &KeyWrite::Put(applied_index_key(), 5u64.to_be_bytes().to_vec()),
    ));
    assert!(!install(
        &mut meta,
        &KeyWrite::Delete(b"not a system key either".to_vec()),
    ));
    assert_eq!(meta, before);
}

#[test]
fn every_key_decodes_to_the_entity_that_it_was_encoded_for() {
    for key in keys() {
        match decode_key(&encode_key(&key)) {
            Some(DecodedKey::Entity { kind, id }) => {
                assert_eq!(kind, key.kind());
                assert_eq!(entity_key(kind, &id), Some(key));
            }
            other => panic!("{other:?}"),
        }
    }
    let encoded: Vec<Vec<u8>> = keys().iter().map(encode_key).collect();
    for (i, a) in encoded.iter().enumerate() {
        for b in &encoded[i + 1..] {
            assert_ne!(a, b);
        }
    }
}

#[test]
fn a_key_is_the_namespace_a_kind_and_an_id() {
    assert_eq!(
        encode_key(&EntityKey::Tablet(TabletId(258))),
        raw_key(1, &[0, 0, 0, 0, 0, 0, 1, 2])
    );
    assert_eq!(
        encode_key(&EntityKey::Member(NodeId("é".to_owned()))),
        raw_key(2, &[0xc3, 0xa9])
    );
    assert_eq!(
        encode_key(&EntityKey::BackupProgress(("b".to_owned(), TabletId(1)))),
        raw_key(13, &[0, 0, 0, 0, 0, 0, 0, 1, b'b'])
    );
    assert_eq!(
        encode_key(&EntityKey::NextTabletId),
        raw_key(6, b"next_tablet_id")
    );
    assert_eq!(applied_index_key(), raw_key(0, b""));
    assert_eq!(
        decode_key(&applied_index_key()),
        Some(DecodedKey::AppliedIndex)
    );
    assert_eq!(
        decode_key(&raw_key(8, b"any id")),
        Some(DecodedKey::Entity {
            kind: EntityKind::StreamShard,
            id: b"any id".to_vec()
        })
    );
    assert_eq!(decode_key(&raw_key(0, b"x")), None);
    assert_eq!(decode_key(&raw_key(17, b"x")), None);
    assert_eq!(decode_key(&RESERVED_NAMESPACE.as_bytes().to_vec()), None);
    assert_eq!(decode_key(&Vec::new()), None);
}

#[test]
fn tablet_keys_scan_in_the_order_of_their_ids() {
    let ids = [0u64, 1, 255, 256, 65_535, 1 << 40, u64::MAX];
    let keys: Vec<Vec<u8>> = ids
        .iter()
        .map(|id| encode_key(&EntityKey::Tablet(TabletId(*id))))
        .collect();
    for pair in keys.windows(2) {
        assert!(pair[0] < pair[1]);
    }
}

#[test]
fn names_in_the_namespace_are_reserved() {
    assert!(is_reserved_name(RESERVED_NAMESPACE));
    assert!(is_reserved_name("__animus_system_backup"));
    assert!(!is_reserved_name("__animus_syste"));
    assert!(!is_reserved_name("_animus_system"));
    assert!(!is_reserved_name("orders__animus_system"));
    assert!(!is_reserved_name(""));
}

#[test]
fn a_counter_is_eight_big_endian_bytes() {
    let key = encode_key(&EntityKey::NextTabletId);
    assert_eq!(
        put_counter(key.clone(), 0x0102_0304_0506_0708),
        KeyWrite::Put(key, vec![1, 2, 3, 4, 5, 6, 7, 8])
    );
    assert_eq!(decode_u64(&vec![1, 2, 3, 4, 5, 6, 7, 8]), 0x0102_0304_0506_0708);
    assert_eq!(decode_u64(&vec![0xff; 8]), u64::MAX);
    assert_eq!(decode_u64(&vec![0; 8]), 0);
}

#[test]
fn what_is_encoded_is_received() {
    let changes = [
        EntityWrite::Put(Entity::NextTabletId(42)),
        EntityWrite::Put(Entity::PitrGeneration("orders".to_owned(), u64::MAX)),
        EntityWrite::Put(Entity::IndexBackfill((TabletId(3), "by_é".to_owned()))),
        EntityWrite::Put(Entity::PitrBaseBackup("b-1".to_owned())),
        EntityWrite::Delete(EntityKey::Tablet(TabletId(3))),
        EntityWrite::Delete(EntityKey::Backup("b-1".to_owned())),
    ];
    for change in changes {
        match encode_write(&change) {
            Encoded::Complete(write) => {
                assert_eq!(receive_write(&write), Received::Complete(change));
            }
            other => panic!("{other:?}"),
        }
    }
    let tablet = Tablet::new(TabletId(3), KeyRange::whole(), Vec::new());
    let key = encode_key(&EntityKey::Tablet(TabletId(3)));
    assert_eq!(
        encode_write(&EntityWrite::Put(Entity::Tablet(TabletId(3), tablet))),
        Encoded::AwaitsValue(key.clone())
    );
    assert_eq!(
        receive_write(&KeyWrite::Put(key, b"{}".to_vec())),
        Received::AwaitsValue(EntityKey::Tablet(TabletId(3)))
    );
}

#[test]
fn installed_counters_and_markers_stand_in_the_metadata() {
    let mut meta = Metadata::default();
    for change in [
        Entity::NextTabletId(42),
        Entity::PitrGeneration("orders".to_owned(), 7),
        Entity::IndexBackfill((TabletId(3), "by_email".to_owned())),
        Entity::PitrBaseBackup("b-1".to_owned()),
    ] {
        match encode_write(&EntityWrite::Put(change)) {
            Encoded::Complete(write) => assert!(install(&mut meta, &write)),
            other => panic!("{other:?}"),
        }
    }
    assert_eq!(meta.next_tablet_id, 42);
    assert_eq!(meta.pitr_generation.get(&"orders".to_owned()), Some(&7));
    assert!(meta
        .index_backfill
        .contains_key(&(TabletId(3), "by_email".to_owned())));
    assert!(meta.pitr_base_backups.contains(&"b-1".to_owned()));
}

#[test]
fn ids_that_no_entity_has_are_ignored_or_malformed() {
    let put = |kind: u8, id: &[u8]| receive_write(&KeyWrite::Put(raw_key(kind, id), vec![0; 8]));
    let delete = |kind: u8, id: &[u8]| receive_write(&KeyWrite::Delete(raw_key(kind, id)));
    // A tablet's id has eight bytes; a text is UTF-8.
    for kind in [1, 4, 10, 11] {
        assert_eq!(put(kind, &[0; 7]), Received::Malformed);
        assert_eq!(delete(kind, &[0; 9]), Received::Malformed);
    }
    for kind in [2, 3, 5, 7, 12, 14, 16] {
        assert_eq!(put(kind, &[0xff]), Received::Malformed);
        assert_eq!(delete(kind, &[0xc3]), Received::Malformed);
    }
    // A composite id and the name of a counter are read leniently.
    for kind in [8, 15] {
        assert_eq!(put(kind, &[0; 15]), Received::Ignored);
        assert_eq!(delete(kind, &[0; 17]), Received::Ignored);
    }
    for kind in [9, 13] {
        assert_eq!(put(kind, &[0; 7]), Received::Ignored);
        assert_eq!(
            delete(kind, &[0, 0, 0, 0, 0, 0, 0, 0, 0xff]),
            Received::Ignored
        );
    }
    assert_eq!(put(6, b"next_alloc_id"), Received::Ignored);
    assert_eq!(put(6, b"pitr_generation/\xff"), Received::Ignored);
    assert_eq!(delete(6, b"next_tablet_i"), Received::Ignored);
    // The value of a counter has eight bytes, whatever its name.
    for name in [&b"next_tablet_id"[..], b"pitr_generation/orders", b"next_alloc_id"] {
        assert_eq!(
            receive_write(&KeyWrite::Put(raw_key(6, name), vec![0; 7])),
            Received::Malformed
        );
    }
}
