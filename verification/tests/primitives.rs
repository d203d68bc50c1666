use robo_pass::envelope::{decrypt_blob, encrypt_blob};
use robo_pass::error::Error;
use robo_pass::kdf::derive_master_key;
use robo_pass::kernel::{create_account, login};
use robo_pass::mem::{Keeper, UserSession};
use robo_pass::kernel::add_privacy;
use robo_pass::rng::{random_bytes, random_password};
use robo_pass::serial::{deserialize_vault, serialize_vault};
use robo_pass::wrap::{unwrap_data_key, wrap_data_key};

#[test]
fn envelope_round_trip() {
    let key = [0x11u8; 32];
    let mut keeper = Keeper::create("carol".to_string());
    keeper.add(
        "id-1".to_string(),
        "https://example.com".to_string(),
        "carol@ex".to_string(),
        "s3cret".to_string(),
    );
    let plain = serialize_vault(&keeper);
    let blob = encrypt_blob(plain.as_slice(), &key).unwrap();
    let opened = decrypt_blob(blob.as_slice(), &key).unwrap();
    assert_eq!(opened, plain);
}

#[test]
fn envelope_rejects_tampering() {
    let key = [0x22u8; 32];
    let plain = b"vault bytes".to_vec();
    let blob = encrypt_blob(plain.as_slice(), &key).unwrap();
    for pos in [0usize, 12, blob.len() - 1] {
        let mut bad = blob.clone();
        bad[pos] ^= 0x01;
        assert!(decrypt_blob(bad.as_slice(), &key).is_none());
    }
    let other_key = [0x23u8; 32];
    assert!(decrypt_blob(blob.as_slice(), &other_key).is_none());
}

#[test]
fn serializer_round_trip() {
    let mut keeper = Keeper::create("dave".to_string());
    keeper.add(
        "id-a".to_string(),
        "https://a.example".to_string(),
        "n-a".to_string(),
        "p-a".to_string(),
    );
    keeper.add(
        "id-b".to_string(),
        "https://b.example".to_string(),
        "n-b".to_string(),
        "p-b".to_string(),
    );
    let bytes = serialize_vault(&keeper);
    let back = deserialize_vault(bytes.as_slice()).unwrap();
    assert_eq!(back.username, keeper.username);
    assert_eq!(back.heap.len(), keeper.heap.len());
    for ((id1, p1), (id2, p2)) in keeper.heap.iter().zip(back.heap.iter()) {
        assert_eq!(id1, id2);
        assert_eq!(p1.url, p2.url);
        assert_eq!(p1.username, p2.username);
        assert_eq!(p1.password, p2.password);
    }
}

#[test]
fn serializer_rejects_malformed_input() {
    assert!(deserialize_vault(&[]).is_none());
    assert!(deserialize_vault(&[0u8; 7]).is_none());
    // A length prefix pointing past the end of the input.
    let mut bytes = vec![0xffu8; 16];
    bytes[0] = 0xff;
    assert!(deserialize_vault(bytes.as_slice()).is_none());
    // Trailing garbage after a valid image.
    let keeper = Keeper::create("erin".to_string());
    let mut good = serialize_vault(&keeper);
    good.push(0u8);
    assert!(deserialize_vault(good.as_slice()).is_none());
}

#[test]
fn key_wrap_round_trip() {
    let master = [0x42u8; 32];
    let data = [0x24u8; 32];
    let (wrapped, nonce) = wrap_data_key(&master, &data).unwrap();
    assert_ne!(wrapped, data);
    let back = unwrap_data_key(&master, &wrapped, &nonce);
    assert_eq!(back, data);
}

#[test]
fn kdf_is_deterministic() {
    let a = derive_master_key(b"passphrase", b"salt-user");
    let b = derive_master_key(b"passphrase", b"salt-user");
    assert_eq!(a, b);
}

#[test]
fn kdf_depends_on_salt() {
    let a = derive_master_key(b"passphrase", b"alice");
    let b = derive_master_key(b"passphrase", b"bob");
    assert_ne!(a, b);
}

#[test]
fn bit_flips_fail_login() {
    let mut slot: Option<UserSession> = None;
    let image = create_account(
        &mut slot,
        "alice".to_string(),
        "correct horse".to_string(),
        false,
    )
    .unwrap();
    // One flipped bit in each region of the file: the wrap nonce, the
    // wrapped key, the envelope nonce, and the ciphertext-with-tag.
    for pos in [1usize, 20, 50, image.len() - 1] {
        let mut bad = image.clone();
        bad[pos] ^= 0x80;
        let mut slot2: Option<UserSession> = None;
        let err = login(
            &mut slot2,
            "alice".to_string(),
            "correct horse".to_string(),
            Some(bad),
        )
        .unwrap_err();
        assert_eq!(err.key(), "invalid_keeper");
        assert!(slot2.is_none());
    }
}

#[test]
fn truncated_file_rejected() {
    let mut slot: Option<UserSession> = None;
    let err = login(
        &mut slot,
        "alice".to_string(),
        "pw".to_string(),
        Some(vec![0u8; 48]),
    )
    .unwrap_err();
    assert_eq!(err.key(), "invalid_reader");
}

#[test]
fn credential_ids_parse_as_uuid_v4() {
    let mut slot: Option<UserSession> = None;
    create_account(&mut slot, "ida".to_string(), "longpassword".to_string(), false).unwrap();
    let (a, _) = add_privacy(&mut slot, "u1".to_string(), "n1".to_string(), "p1".to_string())
        .unwrap();
    let (b, _) = add_privacy(&mut slot, "u2".to_string(), "n2".to_string(), "p2".to_string())
        .unwrap();
    assert_ne!(a, b);
    for id in [&a, &b] {
        let parsed = uuid::Uuid::parse_str(id).unwrap();
        assert_eq!(parsed.get_version_num(), 4);
        assert_eq!(id.len(), 36);
        assert_eq!(*id, id.to_lowercase());
    }
}

#[test]
fn random_password_length_bounds() {
    let alphabet = b"abcdef";
    assert_eq!(
        random_password(alphabet, 9).unwrap_err(),
        Error::InvalidParameter
    );
    assert_eq!(
        random_password(alphabet, 129).unwrap_err(),
        Error::InvalidParameter
    );
    let p = random_password(alphabet, 10).unwrap();
    assert_eq!(p.len(), 10);
    for c in p.chars() {
        assert!(('a'..='f').contains(&c));
    }
}

#[test]
fn random_bytes_draws_fresh_values() {
    let a = random_bytes::<32>().unwrap();
    let b = random_bytes::<32>().unwrap();
    assert_ne!(a, b);
}

#[test]
fn error_keys_and_messages() {
    assert_eq!(Error::InvalidKeeper.key(), "invalid_keeper");
    assert_eq!(Error::InvalidReader.key(), "invalid_reader");
    assert_eq!(Error::InvalidParameter.key(), "invalid_parameter");
    assert_eq!(Error::UsernameTaken.key(), "username_taken");
    assert_eq!(Error::Unexpected.key(), "unexpected");
    assert_eq!(Error::InvalidKeeper.message(), "[robo-pass] invalid keeper");
    assert_eq!(Error::InvalidReader.message(), "[robo-pass] invalid reader");
    assert_eq!(
        Error::InvalidParameter.message(),
        "[robo-pass] invalid parameter"
    );
    assert_eq!(
        Error::UsernameTaken.message(),
        "[robo-pass] username already registered"
    );
    assert_eq!(
        Error::Unexpected.message(),
        "[robo-pass] unexpected error occurred"
    );
}

#[test]
fn canonical_encoding_exact_bytes() {
    // An empty vault owned by "u": one length-prefixed string and a
    // zero entry count, every length a little-endian u64.
    let keeper = Keeper::create("u".to_string());
    let bytes = serialize_vault(&keeper);
    let mut expected = vec![1u8, 0, 0, 0, 0, 0, 0, 0];
    expected.push(b'u');
    expected.extend_from_slice(&[0u8; 8]);
    assert_eq!(bytes, expected);

    // One entry appends four length-prefixed strings in field order.
    let mut keeper = Keeper::create("u".to_string());
    keeper.add("id".to_string(), "a".to_string(), "b".to_string(), "c".to_string());
    let bytes = serialize_vault(&keeper);
    let mut expected = vec![1u8, 0, 0, 0, 0, 0, 0, 0, b'u'];
    expected.extend_from_slice(&[1u8, 0, 0, 0, 0, 0, 0, 0]);
    for field in ["id", "a", "b", "c"] {
        expected.extend_from_slice(&(field.len() as u64).to_le_bytes());
        expected.extend_from_slice(field.as_bytes());
    }
    assert_eq!(bytes, expected);
}

#[test]
fn file_image_layout() {
    let mut slot: Option<UserSession> = None;
    let image = create_account(
        &mut slot,
        "alice".to_string(),
        "correct horse".to_string(),
        false,
    )
    .unwrap();
    let s = slot.as_ref().unwrap();
    assert!(image.len() >= 49);
    assert_eq!(&image[0..16], &s.nonce);
    assert_eq!(&image[16..48], &s.encrypted_key);
    assert_eq!(s.file, "alice.pwdb");
    // The wrapped key on disk is not the plaintext data key.
    assert_ne!(&image[16..48], &s.key);
}

#[test]
fn refiling_an_id_overwrites() {
    let mut keeper = Keeper::create("u".to_string());
    keeper.add("same-id".to_string(), "a".to_string(), "n1".to_string(), "p1".to_string());
    keeper.add("same-id".to_string(), "b".to_string(), "n2".to_string(), "p2".to_string());
    assert_eq!(keeper.heap.len(), 1);
    let entry = keeper.entry("same-id").unwrap();
    assert_eq!(entry.url, "b");
    assert!(keeper.remove("same-id"));
    assert!(!keeper.remove("same-id"));
    assert!(keeper.entry("same-id").is_none());
}
