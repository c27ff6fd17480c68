//! The block store: the version state machine, signature gating, identity
//! uniqueness, payload round trips and index consistency.

use hashstorage::block::{Block, SaveError};
use hashstorage::db::LbaseConnector;
use hashstorage::crypto::signing_digest;
use hashstorage::queries::{group_names, key_names};
use hashstorage::utils::str_to_bytes_sized;

fn owner(tag: u8) -> [u8; 64] {
    [tag; 64]
}

/// Stands in for the curve verifier: a "signature" is the digest of the
/// canonical message, so it verifies exactly when it was computed over the
/// same (group, key, version, payload).
fn digest_signature(group: &[u8; 32], key: &[u8; 32], version: u64, data: &[u8]) -> [u8; 64] {
    let digest = signing_digest(group, key, version, data);
    let mut sig = [0u8; 64];
    sig[..32].copy_from_slice(&digest);
    sig
}

fn digest_signature_checks(
    sig: &[u8; 64],
    group: &[u8; 32],
    key: &[u8; 32],
    version: u64,
    data: &[u8],
) -> bool {
    *sig == digest_signature(group, key, version, data)
}

#[test]
fn create_update_conflict_scenario() {
    let mut db = LbaseConnector::new();
    let public = owner(1);
    let group: [u8; 32] = str_to_bytes_sized("g");
    let key: [u8; 32] = str_to_bytes_sized("k");

    // create version 1, payload 0xAABB, valid signature
    let sig1 = digest_signature(&group, &key, 1, &[0xAA, 0xBB]);
    let ok = digest_signature_checks(&sig1, &group, &key, 1, &[0xAA, 0xBB]);
    assert!(ok);
    let r1 = Block::save(&mut db, &sig1, &public, &group, &key, 1, &[0xAA, 0xBB], ok);
    assert!(r1.is_ok());
    let (_, b1) = Block::get_by_public_group_key(&db, &public, &group, &key).unwrap();
    assert_eq!(b1.version, 1);
    assert_eq!(b1.get_data(&db).unwrap(), vec![0xAA, 0xBB]);

    // update with version 2, payload 0xCCDD, valid signature over the new content
    let sig2 = digest_signature(&group, &key, 2, &[0xCC, 0xDD]);
    let ok = digest_signature_checks(&sig2, &group, &key, 2, &[0xCC, 0xDD]);
    let r2 = Block::save(&mut db, &sig2, &public, &group, &key, 2, &[0xCC, 0xDD], ok);
    assert!(r2.is_ok());
    let (id2, b2) = Block::get_by_public_group_key(&db, &public, &group, &key).unwrap();
    assert_eq!(b2.version, 2);
    assert_eq!(b2.get_data(&db).unwrap(), vec![0xCC, 0xDD]);
    assert_eq!(b2.signature, sig2);

    // a second write with version 2 is a conflict and changes nothing
    let r3 = Block::save(&mut db, &sig2, &public, &group, &key, 2, &[0xEE, 0xFF], ok);
    assert_eq!(r3.unwrap_err(), SaveError::InvalidVersion);
    let (id3, b3) = Block::get_by_public_group_key(&db, &public, &group, &key).unwrap();
    assert_eq!(id3, id2);
    assert_eq!(b3.version, 2);
    assert_eq!(b3.get_data(&db).unwrap(), vec![0xCC, 0xDD]);
}

#[test]
fn version_must_start_at_one() {
    let mut db = LbaseConnector::new();
    let public = owner(2);
    let group: [u8; 32] = str_to_bytes_sized("g");
    let key: [u8; 32] = str_to_bytes_sized("k");
    // version 5 on a fresh namespace is rejected outright
    let sig = digest_signature(&group, &key, 5, b"data");
    let r = Block::save(&mut db, &sig, &public, &group, &key, 5, b"data", true);
    assert_eq!(r.unwrap_err(), SaveError::InvalidVersion);
    assert!(!Block::exists_block(&db, &public, &group, &key));
    // version 0 is never valid
    let r0 = Block::save(&mut db, &sig, &public, &group, &key, 0, b"data", true);
    assert_eq!(r0.unwrap_err(), SaveError::InvalidVersion);
    assert!(!Block::exists_block(&db, &public, &group, &key));
}

#[test]
fn invalid_signature_rejected_before_any_mutation() {
    let mut db = LbaseConnector::new();
    let public = owner(3);
    let group: [u8; 32] = str_to_bytes_sized("g");
    let key: [u8; 32] = str_to_bytes_sized("k");
    // version would be correct, but the signature does not verify
    let sig = [0u8; 64];
    let ok = digest_signature_checks(&sig, &group, &key, 1, b"data");
    assert!(!ok);
    let r = Block::save(&mut db, &sig, &public, &group, &key, 1, b"data", ok);
    assert_eq!(r.unwrap_err(), SaveError::InvalidSignature);
    assert!(!Block::exists_block(&db, &public, &group, &key));
    assert!(Block::get_by_public(&db, &public).is_empty());
}

#[test]
fn signature_over_different_group_rejected() {
    let mut db = LbaseConnector::new();
    let public = owner(4);
    let group: [u8; 32] = str_to_bytes_sized("g");
    let other: [u8; 32] = str_to_bytes_sized("h");
    let key: [u8; 32] = str_to_bytes_sized("k");
    // signature computed over group "h", write addressed to group "g"
    let sig = digest_signature(&other, &key, 1, b"data");
    let ok = digest_signature_checks(&sig, &group, &key, 1, b"data");
    assert!(!ok);
    let r = Block::save(&mut db, &sig, &public, &group, &key, 1, b"data", ok);
    assert_eq!(r.unwrap_err(), SaveError::InvalidSignature);
    assert!(!Block::exists_block(&db, &public, &group, &key));
}

#[test]
fn payload_round_trip() {
    let mut db = LbaseConnector::new();
    let public = owner(5);
    let group: [u8; 32] = str_to_bytes_sized("g");
    let key: [u8; 32] = str_to_bytes_sized("k");
    let payload: Vec<u8> = (0u8..=255).collect();
    let sig = digest_signature(&group, &key, 1, &payload);
    let b = Block::save(&mut db, &sig, &public, &group, &key, 1, &payload, true).unwrap();
    assert_eq!(b.get_data(&db).unwrap(), payload);
    // the empty payload round-trips too
    let key2: [u8; 32] = str_to_bytes_sized("k2");
    let sig2 = digest_signature(&group, &key2, 1, b"");
    let b2 = Block::save(&mut db, &sig2, &public, &group, &key2, 1, b"", true).unwrap();
    assert_eq!(b2.get_data(&db).unwrap(), Vec::<u8>::new());
}

#[test]
fn identity_stays_unique_across_writes() {
    let mut db = LbaseConnector::new();
    let public = owner(6);
    let group: [u8; 32] = str_to_bytes_sized("g");
    let key: [u8; 32] = str_to_bytes_sized("k");
    for version in 1u64..=4 {
        let payload = vec![version as u8];
        let sig = digest_signature(&group, &key, version, &payload);
        Block::save(&mut db, &sig, &public, &group, &key, version, &payload, true).unwrap();
    }
    // four accepted writes, still exactly one record under the triple
    let all = Block::get_by_public(&db, &public);
    assert_eq!(all.len(), 1);
    let (_, b) = Block::get_by_public_group_key(&db, &public, &group, &key).unwrap();
    assert_eq!(b.version, 4);
    assert_eq!(b.get_data(&db).unwrap(), vec![4]);
}

#[test]
fn three_owners_three_groups_index_consistency() {
    let mut db = LbaseConnector::new();
    let public = owner(7);
    let stranger = owner(8);
    let key: [u8; 32] = str_to_bytes_sized("k");
    for name in ["alpha", "beta", "gamma"] {
        let group: [u8; 32] = str_to_bytes_sized(name);
        let sig = digest_signature(&group, &key, 1, name.as_bytes());
        Block::save(&mut db, &sig, &public, &group, &key, 1, name.as_bytes(), true).unwrap();
    }
    let mine = Block::get_by_public(&db, &public);
    assert_eq!(mine.len(), 3);
    assert_eq!(group_names(&db, &public), vec!["alpha", "beta", "gamma"]);
    assert!(Block::get_by_public(&db, &stranger).is_empty());
    assert!(group_names(&db, &stranger).is_empty());
}

#[test]
fn group_listing_is_distinct_key_listing_is_not_deduplicated() {
    let mut db = LbaseConnector::new();
    let public = owner(9);
    let g1: [u8; 32] = str_to_bytes_sized("g1");
    let g2: [u8; 32] = str_to_bytes_sized("g2");
    for (group, key_name) in [(g1, "a"), (g2, "b"), (g1, "c")] {
        let key: [u8; 32] = str_to_bytes_sized(key_name);
        let sig = digest_signature(&group, &key, 1, b"x");
        Block::save(&mut db, &sig, &public, &group, &key, 1, b"x", true).unwrap();
    }
    // two distinct groups, the duplicate dropped at its second appearance
    assert_eq!(group_names(&db, &public), vec!["g1", "g2"]);
    // key listing keeps table order inside the group
    assert_eq!(key_names(&db, &public, &g1), vec!["a", "c"]);
    assert_eq!(key_names(&db, &public, &g2), vec!["b"]);
}

#[test]
fn fetch_misses_are_empty_not_errors() {
    let db = LbaseConnector::new();
    let public = owner(10);
    let group: [u8; 32] = str_to_bytes_sized("g");
    let key: [u8; 32] = str_to_bytes_sized("k");
    assert!(Block::get_by_public_group_key(&db, &public, &group, &key).is_none());
    assert!(!Block::exists_block(&db, &public, &group, &key));
    assert!(Block::get_by_public(&db, &public).is_empty());
    assert!(Block::get_by_public_group(&db, &public, &group).is_empty());
}

#[test]
fn update_leaves_other_namespaces_alone() {
    let mut db = LbaseConnector::new();
    let public = owner(11);
    let group: [u8; 32] = str_to_bytes_sized("g");
    let k1: [u8; 32] = str_to_bytes_sized("k1");
    let k2: [u8; 32] = str_to_bytes_sized("k2");
    let s1 = digest_signature(&group, &k1, 1, b"one");
    Block::save(&mut db, &s1, &public, &group, &k1, 1, b"one", true).unwrap();
    let s2 = digest_signature(&group, &k2, 1, b"two");
    Block::save(&mut db, &s2, &public, &group, &k2, 1, b"two", true).unwrap();
    let s3 = digest_signature(&group, &k1, 2, b"ONE");
    Block::save(&mut db, &s3, &public, &group, &k1, 2, b"ONE", true).unwrap();
    let (_, b1) = Block::get_by_public_group_key(&db, &public, &group, &k1).unwrap();
    let (_, b2) = Block::get_by_public_group_key(&db, &public, &group, &k2).unwrap();
    assert_eq!(b1.get_data(&db).unwrap(), b"ONE".to_vec());
    assert_eq!(b1.version, 2);
    assert_eq!(b2.get_data(&db).unwrap(), b"two".to_vec());
    assert_eq!(b2.version, 1);
}
