//! Registration-protocol and directory scenarios.

use peer_registry::directory::PeerMap;
use peer_registry::types::{RegisterPkResult, RegistrationAction, StoreOutcome, StoredPeer};

fn bytes(s: &str) -> Vec<u8> {
    s.as_bytes().to_vec()
}

/// First registration of "peer-A" from 10.0.0.1 with key K1: OK, guid
/// assigned, connected; re-registration from 10.0.0.2 with key K2 takes
/// the update path with the same guid and the new key and address;
/// marking offline then shows connected = false on a later lookup.
#[test]
fn register_update_offline_scenario() {
    let mut pm = PeerMap::new();
    let id = String::from("peer-A");

    let p = pm.get_or(&id, None, 100);
    assert!(p.guid.is_empty());

    let action = pm.update_pk_prepare(
        &id,
        &String::from("10.0.0.1:21116"),
        bytes("uuid-1"),
        bytes("K1"),
        &String::from("10.0.0.1"),
        101,
    );
    match &action {
        RegistrationAction::Insert { pk, connected, .. } => {
            assert_eq!(pk, &bytes("K1"));
            assert!(*connected);
        },
        RegistrationAction::Update { .. } => panic!("first registration must insert"),
    }
    let r = pm.update_pk_finish(&id, StoreOutcome::Inserted { guid: bytes("row-1") });
    assert_eq!(r, RegisterPkResult::OK);

    let p = pm.get_in_memory(&id).unwrap();
    assert_eq!(p.guid, bytes("row-1"));
    assert!(p.connected);
    assert_eq!(p.socket_addr, "10.0.0.1:21116");

    // re-registration: roaming address, rotated key
    let action = pm.update_pk_prepare(
        &id,
        &String::from("10.0.0.2:21116"),
        bytes("uuid-1"),
        bytes("K2"),
        &String::from("10.0.0.2"),
        200,
    );
    match &action {
        RegistrationAction::Update { guid, pk, connected, .. } => {
            assert_eq!(guid, &bytes("row-1"));
            assert_eq!(pk, &bytes("K2"));
            assert!(*connected);
        },
        RegistrationAction::Insert { .. } => panic!("re-registration must update"),
    }
    let r = pm.update_pk_finish(&id, StoreOutcome::Updated);
    assert_eq!(r, RegisterPkResult::OK);

    let p = pm.get_in_memory(&id).unwrap();
    assert_eq!(p.guid, bytes("row-1"));
    assert_eq!(p.pk, bytes("K2"));
    assert_eq!(p.socket_addr, "10.0.0.2:21116");
    assert_eq!(p.ip, "10.0.0.2");

    // mark offline: write-through requested, record offline afterwards
    let w = pm.set_offline(&id, None, 300).expect("known id must yield a write");
    assert_eq!(w.guid, bytes("row-1"));
    assert_eq!(w.pk, bytes("K2"));
    assert_eq!(w.info, "10.0.0.2");
    let p = pm.get(&id, None, 301).unwrap();
    assert!(!p.connected);
}

/// A failed insert returns SERVER_ERROR, the record keeps the attempted
/// fields but its guid stays empty, and a retry takes the insert path
/// again, not the update path.
#[test]
fn failed_insert_keeps_insert_path() {
    let mut pm = PeerMap::new();
    let id = String::from("peer-B");
    pm.get_or(&id, None, 10);
    let action = pm.update_pk_prepare(
        &id,
        &String::from("192.0.2.5:9000"),
        bytes("uuid-b"),
        bytes("KB"),
        &String::from("192.0.2.5"),
        11,
    );
    assert!(matches!(action, RegistrationAction::Insert { .. }));
    let r = pm.update_pk_finish(&id, StoreOutcome::Failed);
    assert_eq!(r, RegisterPkResult::SERVER_ERROR);

    let p = pm.get_in_memory(&id).unwrap();
    assert!(p.guid.is_empty());
    assert_eq!(p.pk, bytes("KB"));
    assert_eq!(p.ip, "192.0.2.5");

    // the retry observes the empty guid and inserts again
    let action = pm.update_pk_prepare(
        &id,
        &String::from("192.0.2.5:9000"),
        bytes("uuid-b"),
        bytes("KB"),
        &String::from("192.0.2.5"),
        12,
    );
    assert!(matches!(action, RegistrationAction::Insert { .. }));
}

/// A second `get_or` for the same identifier returns the one cached
/// record rather than fabricating another.
#[test]
fn get_or_returns_single_entry() {
    let mut pm = PeerMap::new();
    let id = String::from("peer-C");
    let first = pm.get_or(&id, None, 5);
    let second = pm.get_or(&id, None, 99);
    assert_eq!(second.last_reg_time, first.last_reg_time);
    assert!(second.guid.is_empty());
    assert!(pm.is_in_memory(&id));
}

/// A cache miss with a stored row admits the row: the stored fields
/// come back and a non-zero or absent status maps to offline.
#[test]
fn get_admits_stored_row() {
    let mut pm = PeerMap::new();
    let id = String::from("peer-D");
    assert!(pm.get(&id, None, 1).is_none());
    assert!(!pm.is_in_memory(&id));

    let row = StoredPeer {
        guid: bytes("row-d"),
        uuid: bytes("uuid-d"),
        pk: bytes("KD"),
        info: String::from("{\"ip\":\"198.51.100.7\"}"),
        status: None,
    };
    let p = pm.get(&id, Some(row), 2).unwrap();
    assert_eq!(p.guid, bytes("row-d"));
    assert_eq!(p.uuid, bytes("uuid-d"));
    assert_eq!(p.pk, bytes("KD"));
    assert_eq!(p.ip, "198.51.100.7");
    assert!(!p.connected, "absent status must mean offline");
    assert!(pm.is_in_memory(&id));

    // status 0 is the one online value
    let mut pm2 = PeerMap::new();
    let row = StoredPeer {
        guid: bytes("row-e"),
        uuid: bytes("uuid-e"),
        pk: bytes("KE"),
        info: String::from("{\"ip\":\"198.51.100.8\"}"),
        status: Some(0),
    };
    let p = pm2.get(&String::from("peer-E"), Some(row), 3).unwrap();
    assert!(p.connected);

    let mut pm3 = PeerMap::new();
    let row = StoredPeer {
        guid: bytes("row-f"),
        uuid: bytes("uuid-f"),
        pk: bytes("KF"),
        info: String::from("{\"ip\":\"198.51.100.9\"}"),
        status: Some(2),
    };
    let p = pm3.get(&String::from("peer-F"), Some(row), 4).unwrap();
    assert!(!p.connected);
}

/// Round trip through storage: the row a registration asked to insert,
/// handed back by a later lookup in a fresh process, reconstructs the
/// registered uuid, key and IP.
#[test]
fn round_trip_through_store() {
    let mut pm = PeerMap::new();
    let id = String::from("peer-RT");
    pm.get_or(&id, None, 1);
    let action = pm.update_pk_prepare(
        &id,
        &String::from("198.51.100.20:4000"),
        bytes("uuid-rt"),
        bytes("K-rt"),
        &String::from("198.51.100.20"),
        2,
    );
    let (uuid, pk, info, connected) = match action {
        RegistrationAction::Insert { uuid, pk, info, connected } => (uuid, pk, info, connected),
        RegistrationAction::Update { .. } => panic!("first registration must insert"),
    };
    // the store keeps exactly what the insert carried and assigns a guid
    let row = StoredPeer {
        guid: bytes("row-rt"),
        uuid,
        pk,
        info,
        status: Some(if connected { 0 } else { 1 }),
    };
    // a fresh directory (say, after a restart) loads the row
    let mut pm2 = PeerMap::new();
    let p = pm2.get(&id, Some(row), 50).unwrap();
    assert_eq!(p.uuid, bytes("uuid-rt"));
    assert_eq!(p.pk, bytes("K-rt"));
    assert_eq!(p.ip, "198.51.100.20");
    assert_eq!(p.guid, bytes("row-rt"));
    assert!(p.connected);
}

/// Marking offline twice is idempotent: same state, same write.
#[test]
fn set_offline_idempotent() {
    let mut pm = PeerMap::new();
    let id = String::from("peer-G");
    pm.get_or(&id, None, 1);
    pm.update_pk_prepare(
        &id,
        &String::from("203.0.113.1:1"),
        bytes("u"),
        bytes("K"),
        &String::from("203.0.113.1"),
        2,
    );
    pm.update_pk_finish(&id, StoreOutcome::Inserted { guid: bytes("row-g") });

    let w1 = pm.set_offline(&id, None, 3).unwrap();
    let w2 = pm.set_offline(&id, None, 4).unwrap();
    assert_eq!(w1.guid, w2.guid);
    assert_eq!(w1.pk, w2.pk);
    assert_eq!(w1.info, w2.info);
    let p = pm.get_in_memory(&id).unwrap();
    assert!(!p.connected);

    // unknown everywhere: no write at all
    let mut pm2 = PeerMap::new();
    assert!(pm2.set_offline(&String::from("nobody"), None, 5).is_none());
}
