use aes_gcm::aead::{Aead, KeyInit};
use ed25519_dalek::Signer;
use kiln::secrets::{
    create, encrypt, list, load_or_create_master_key, master_key_path, meta, meta_path, read, remove, rotate,
    secret_path, set_ttl, write_atomic, SecretError, SecretMeta,
};
use kiln::signing::{
    generate_and_save, key_dir, load_public_key_hex, load_signing_key, private_key_path, public_key_path, sign, verify,
};

fn some(s: &str) -> Option<String> {
    Some(s.to_string())
}

#[test]
fn sign_and_verify_round_trips() {
    let pair = generate_and_save(&some("/home/u"));
    let pubkey_hex = pair.key.public_key_hex();
    let sig = sign(&pair.key, b"hello world");
    assert!(verify(&pubkey_hex, b"hello world", &sig).is_ok());
    assert!(verify(&pubkey_hex, b"tampered", &sig).is_err());
}

#[test]
fn signatures_are_ed25519() {
    let pair = generate_and_save(&None);
    let theirs = ed25519_dalek::SigningKey::from_bytes(&pair.key.secret);
    assert_eq!(pair.key.public_key_hex(), hex::encode(theirs.verifying_key().to_bytes()));
    assert_eq!(sign(&pair.key, b"data"), hex::encode(theirs.sign(b"data").to_bytes()));
}

#[test]
fn keys_are_saved_and_found_again() {
    let home = some("/home/u");
    let pair = generate_and_save(&home);
    assert_eq!(pair.dir, key_dir(&home));
    assert_eq!(pair.private_path, private_key_path(&home));
    assert_eq!(pair.public_path, public_key_path(&home));
    let back = load_signing_key(&Some(format!("{}\n", pair.private_text))).unwrap();
    assert_eq!(back.secret, pair.key.secret);
    assert_eq!(load_public_key_hex(&Some(pair.public_text)), Some(pair.key.public_key_hex()));
    assert!(load_signing_key(&None).is_none());
    assert!(load_signing_key(&some("not hex")).is_none());
    assert!(load_signing_key(&some("abcd")).is_none());
}

#[test]
fn malformed_signatures_are_refused() {
    let pair = generate_and_save(&None);
    let public = pair.key.public_key_hex();
    let sig = sign(&pair.key, b"x");
    assert!(verify("zz", b"x", &sig).is_err());
    assert!(verify("abcd", b"x", &sig).is_err());
    assert!(verify(&public, b"x", "zz").is_err());
    assert!(verify(&public, b"x", "abcd").is_err());
    let other = generate_and_save(&None);
    assert!(verify(&other.key.public_key_hex(), b"x", &sig).is_err());
}

#[test]
fn encrypt_decrypt_and_on_disk_representation() {
    let key = load_or_create_master_key(&some("/home/u"), &None).key;
    let written = create("/s", "test-secret", &b"hunter2".to_vec(), None, &key, 100).ok().unwrap();
    assert_eq!(written.path, "/s/secrets/test-secret.enc");
    let raw = written.content;
    assert!(
        !raw.windows(b"hunter2".len()).any(|w| w == b"hunter2"),
        "ciphertext must not contain the plaintext"
    );
    let plaintext = read("test-secret", &Some(raw.clone()), &key).unwrap().unwrap();
    assert_eq!(plaintext, b"hunter2");
    assert_eq!(list(&vec!["test-secret.enc".to_string(), "test-secret.meta.json".to_string()]), vec!["test-secret"]);

    let created_meta = meta("test-secret", Some(written.meta)).expect("meta written by create");
    assert_eq!(created_meta.version, 1);
    assert!(created_meta.rotated_at.is_none());

    let rotated = rotate("/s", "test-secret", true, &b"new-hunter3".to_vec(), &key, Some(created_meta), 200).ok().unwrap();
    assert_eq!(rotated.meta.version, 2);
    assert!(rotated.meta.rotated_at.is_some());
    assert_eq!(read("test-secret", &Some(rotated.content), &key).unwrap().unwrap(), b"new-hunter3");

    let ttl_meta = set_ttl("test-secret", true, Some(rotated.meta), Some(3600), 300).unwrap();
    assert_eq!(ttl_meta.ttl_secs, Some(3600));
    assert_eq!(ttl_meta.version, 2, "set_ttl must not touch the rotation version");
    assert_eq!(ttl_meta.expires_at(), Some(3800));

    let (path, meta_file) = remove("/s", "test-secret").unwrap();
    assert_eq!((path.as_str(), meta_file.as_str()), ("/s/secrets/test-secret.enc", "/s/secrets/test-secret.meta.json"));
    assert!(read("test-secret", &None, &key).unwrap().is_none());
    assert!(meta("test-secret", None).is_none());
}

#[test]
fn rotate_leaves_the_old_secret_usable_if_it_never_existed() {
    let key = [7u8; 32];
    match rotate("/s", "never-created", false, &b"x".to_vec(), &key, None, 1) {
        Err(SecretError::NotFound(m)) => assert_eq!(m, "no such secret: never-created"),
        _ => panic!("a secret that never existed is not found"),
    }
}

#[test]
fn secrets_are_sealed_with_aes() {
    let key = [3u8; 32];
    let nonce = [5u8; 12];
    let ours = encrypt(&b"value".to_vec(), &key, &nonce).unwrap();
    let cipher = aes_gcm::Aes256Gcm::new(aes_gcm::Key::<aes_gcm::Aes256Gcm>::from_slice(&key));
    let theirs = cipher.encrypt(aes_gcm::Nonce::from_slice(&nonce), b"value".as_ref()).unwrap();
    assert_eq!(&ours[..12], &nonce);
    assert_eq!(&ours[12..], &theirs[..]);
    assert_eq!(ours.len(), 12 + 5 + 16);
}

#[test]
fn two_writes_of_one_value_differ() {
    let key = [1u8; 32];
    let a = create("/s", "n", &b"v".to_vec(), None, &key, 1).ok().unwrap();
    let b = create("/s", "n", &b"v".to_vec(), None, &key, 1).ok().unwrap();
    assert_ne!(a.content, b.content);
}

#[test]
fn secrets_that_cannot_be_opened_are_reported() {
    let key = [1u8; 32];
    let kind = |r: Result<Option<Vec<u8>>, SecretError>| match r {
        Err(SecretError::InvalidData(m)) => m,
        _ => panic!("this should not open"),
    };
    assert_eq!(kind(read("n", &Some(vec![0; 11]), &key)), "secret n is corrupt (too short)");
    let mut raw = create("/s", "n", &b"v".to_vec(), None, &key, 1).ok().unwrap().content;
    assert_eq!(kind(read("n", &Some(raw.clone()), &[2u8; 32])), "decrypting secret n: aead::Error");
    let last = raw.len() - 1;
    raw[last] ^= 1;
    assert_eq!(kind(read("n", &Some(raw), &key)), "decrypting secret n: aead::Error");
}

#[test]
fn names_that_climb_are_refused() {
    let key = [1u8; 32];
    for bad in ["", "a/b", "..", "a..b", "/etc"] {
        assert!(secret_path("/s", bad).is_none());
        assert!(meta_path("/s", bad).is_none());
        match create("/s", bad, &b"v".to_vec(), None, &key, 1) {
            Err(SecretError::InvalidInput(m)) => assert_eq!(m, "invalid secret name"),
            _ => panic!("{bad} is no name"),
        }
        assert!(matches!(rotate("/s", bad, true, &b"v".to_vec(), &key, None, 1), Err(SecretError::InvalidInput(_))));
        assert!(matches!(set_ttl(bad, true, None, None, 1), Err(SecretError::InvalidInput(_))));
        assert!(matches!(remove("/s", bad), Err(SecretError::InvalidInput(_))));
        assert!(read(bad, &Some(vec![]), &key).unwrap().is_none());
        assert!(meta(bad, Some(SecretMeta { version: 1, created_at: 0, rotated_at: None, ttl_secs: None })).is_none());
    }
    assert_eq!(secret_path("/s", "ok.name").unwrap(), "/s/secrets/ok.name.enc");
    assert_eq!(write_atomic("/s/x", 12), "/s/x.tmp-12");
    assert!(matches!(set_ttl("x", false, None, None, 1), Err(SecretError::NotFound(_))));
}

#[test]
fn secrets_without_history_start_one() {
    let key = [1u8; 32];
    let r = rotate("/s", "old", true, &b"v".to_vec(), &key, None, 50).ok().unwrap();
    assert_eq!((r.meta.version, r.meta.created_at, r.meta.rotated_at), (2, 50, Some(50)));
    let m = set_ttl("old", true, None, Some(5), 60).unwrap();
    assert_eq!((m.version, m.created_at, m.rotated_at, m.ttl_secs), (1, 60, None, Some(5)));
    assert_eq!(SecretMeta { version: 1, created_at: 5, rotated_at: None, ttl_secs: None }.expires_at(), None);
    let meta = |rotated_at: Option<u64>| SecretMeta { version: 2, created_at: 100, rotated_at, ttl_secs: Some(10) };
    assert_eq!(meta(None).expires_at(), Some(110));
    assert_eq!(meta(Some(50)).expires_at(), Some(110));
    assert_eq!(meta(Some(150)).expires_at(), Some(160));
    let want = "{\n  \"version\": 2,\n  \"created_at\": 100,\n  \"rotated_at\": null,\n  \"ttl_secs\": 10\n}";
    assert_eq!(meta(None).file_text(), want);
}

#[test]
fn master_keys_are_kept() {
    let home = some("/home/u");
    let fresh = load_or_create_master_key(&home, &None);
    let w = fresh.write.unwrap();
    assert_eq!(w.path, "/home/u/.kiln/secrets/master.key");
    assert_eq!(w.path, master_key_path(&home));
    assert_eq!(master_key_path(&None), "/root/.kiln/secrets/master.key");
    let text = String::from_utf8(w.content).unwrap();
    assert_eq!(text, hex::encode(fresh.key));
    let again = load_or_create_master_key(&home, &Some(format!(" {text}\n")));
    assert_eq!(again.key, fresh.key);
    assert!(again.write.is_none());
    assert!(load_or_create_master_key(&home, &some("abcd")).write.is_some());
    assert!(load_or_create_master_key(&home, &some("no hex")).write.is_some());
}
