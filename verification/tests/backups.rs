use argon2::{Algorithm, Argon2, Params, Version};
use base64::engine::general_purpose::STANDARD_NO_PAD;
use base64::Engine;
use chacha20poly1305::aead::{Aead, KeyInit};
use chacha20poly1305::ChaCha20Poly1305;
use saforia::backup::{
    classify, commit, decrypt_entries, encrypt_entries, find_target, fits_snapshot, holds,
    import_entries_payload, import_with_mapping, map_entries, preview_backup, seal_entries,
    source_of, summarize, summarize_fingerprints, BackupError, BackupFile, CsvMapping, EncFileV1,
    EncFileV2, Exported,
};
use saforia::crypto::{CryptoError, ErrorKind, Platform};
use saforia::store::{EntriesFile, Entry};

fn argon(password: &str, salt: &[u8], mem: u32, iters: u32, lanes: u32) -> Vec<u8> {
    let params = Params::new(mem, iters, lanes, Some(32)).unwrap();
    let alg = Argon2::new(Algorithm::Argon2id, Version::V0x13, params);
    let mut out = [0u8; 32];
    alg.hash_password_into(password.as_bytes(), salt, &mut out).unwrap();
    out.to_vec()
}

fn chacha(key: &[u8], nonce: &[u8], data: &[u8]) -> Vec<u8> {
    let cipher = ChaCha20Poly1305::new(chacha20poly1305::Key::from_slice(key));
    cipher.encrypt(chacha20poly1305::Nonce::from_slice(nonce), data).unwrap()
}

fn entry(id: &str, fingerprint: Option<&str>) -> Entry {
    Entry {
        id: id.to_string(),
        label: format!("label-{}", id),
        postfix: format!("postfix-{}", id),
        method_id: "len36_strong".to_string(),
        created_at: 10,
        order: 0,
        fingerprint: fingerprint.map(|s| s.to_string()),
    }
}

fn mapping(pairs: &[(&str, Option<&str>)]) -> Vec<CsvMapping> {
    pairs
        .iter()
        .map(|(from, to)| CsvMapping { from: from.to_string(), to: to.map(|s| s.to_string()) })
        .collect()
}

fn strs(v: &[&str]) -> Vec<String> {
    v.iter().map(|s| s.to_string()).collect()
}

fn bound(entries: &[Entry]) -> Vec<(String, Option<String>)> {
    entries.iter().map(|e| (e.id.clone(), e.fingerprint.clone())).collect()
}

fn v1(salt: &str, nonce: &str, ct: &str) -> EncFileV1 {
    EncFileV1 {
        version: 1,
        salt_b64: salt.to_string(),
        nonce_b64: nonce.to_string(),
        ciphertext_b64: ct.to_string(),
    }
}

fn copy_v2(c: &EncFileV2) -> EncFileV2 {
    EncFileV2 {
        version: c.version,
        kdf: c.kdf.clone(),
        mem_kib: c.mem_kib,
        iterations: c.iterations,
        parallelism: c.parallelism,
        cipher: c.cipher.clone(),
        salt_b64: c.salt_b64.clone(),
        nonce_b64: c.nonce_b64.clone(),
        ciphertext_b64: c.ciphertext_b64.clone(),
    }
}

#[test]
fn export_then_import_with_same_passphrase_round_trips() {
    let snapshot = br#"{"entries":[{"id":"a"}]}"#.to_vec();
    let exported =
        encrypt_entries(&snapshot, Some("pass phrase".to_string()), Platform::Mobile).unwrap();
    let container = match exported {
        Exported::Encrypted(c) => c,
        Exported::Plain => panic!("expected a container"),
    };
    assert_eq!(container.version, 2);
    assert_eq!(container.kdf, "argon2id");
    assert_eq!(container.cipher, "chacha20poly1305");
    assert_eq!(container.mem_kib, 8192);
    assert_eq!(container.iterations, 2);
    assert_eq!(container.parallelism, 1);
    assert_eq!(STANDARD_NO_PAD.decode(&container.salt_b64).unwrap().len(), 16);
    assert_eq!(STANDARD_NO_PAD.decode(&container.nonce_b64).unwrap().len(), 12);
    let file = BackupFile::Current(container);
    assert_eq!(
        decrypt_entries(&file, b"ignored".to_vec(), Some("pass phrase".to_string())),
        Ok(snapshot)
    );
}

#[test]
fn import_with_wrong_or_missing_passphrase_fails() {
    let snapshot = b"snapshot".to_vec();
    let container = seal_entries(&snapshot, "right", &vec![1u8; 16], &vec![2u8; 12], Platform::Mobile)
        .unwrap();
    let file = BackupFile::Current(container);
    assert_eq!(
        decrypt_entries(&file, vec![], Some("wrong".to_string())),
        Err(BackupError::DecryptionFailed)
    );
    assert_eq!(decrypt_entries(&file, vec![], None), Err(BackupError::PassphraseRequired));
    assert_eq!(
        decrypt_entries(&file, vec![], Some(String::new())),
        Err(BackupError::PassphraseRequired)
    );
    assert_eq!(decrypt_entries(&file, vec![], Some("right".to_string())), Ok(snapshot));
}

#[test]
fn export_without_passphrase_is_plain() {
    let snapshot = b"snapshot".to_vec();
    assert_eq!(encrypt_entries(&snapshot, None, Platform::Desktop), Ok(Exported::Plain));
    assert_eq!(
        encrypt_entries(&snapshot, Some(String::new()), Platform::Desktop),
        Ok(Exported::Plain)
    );
    assert_eq!(
        decrypt_entries(&BackupFile::Plain, snapshot.clone(), None),
        Ok(snapshot.clone())
    );
    assert_eq!(
        decrypt_entries(&BackupFile::Plain, snapshot.clone(), Some("x".to_string())),
        Ok(snapshot)
    );
}

#[test]
fn seal_entries_is_exact() {
    let snapshot = b"the snapshot".to_vec();
    let salt = vec![0u8; 16];
    let nonce = vec![1u8; 12];
    let c = seal_entries(&snapshot, "pw", &salt, &nonce, Platform::Mobile).unwrap();
    let key = argon("pw", &salt, 8192, 2, 1);
    assert_eq!(c.salt_b64, "AAAAAAAAAAAAAAAAAAAAAA");
    assert_eq!(c.nonce_b64, "AQEBAQEBAQEBAQEB");
    assert_eq!(c.ciphertext_b64, STANDARD_NO_PAD.encode(chacha(&key, &nonce, &snapshot)));
    assert_eq!(
        seal_entries(&snapshot, "pw", &salt, &vec![1u8; 11], Platform::Mobile),
        Err(BackupError::EncryptionFailed)
    );
    assert_eq!(
        seal_entries(&snapshot, "pw", &vec![0u8; 4], &nonce, Platform::Mobile),
        Err(BackupError::EncryptionFailed)
    );
    assert!(fits_snapshot(0));
    assert!(fits_snapshot(1 << 20));
    assert!(!fits_snapshot(usize::MAX));
}

#[test]
fn current_container_uses_its_own_cost() {
    let snapshot = b"data".to_vec();
    let salt = vec![3u8; 16];
    let nonce = vec![4u8; 12];
    let key = argon("pw", &salt, 2048, 3, 2);
    let container = EncFileV2 {
        version: 2,
        kdf: "argon2id".to_string(),
        mem_kib: 2048,
        iterations: 3,
        parallelism: 2,
        cipher: "chacha20poly1305".to_string(),
        salt_b64: STANDARD_NO_PAD.encode(&salt),
        nonce_b64: STANDARD_NO_PAD.encode(&nonce),
        ciphertext_b64: STANDARD_NO_PAD.encode(chacha(&key, &nonce, &snapshot)),
    };
    let file = BackupFile::Current(copy_v2(&container));
    assert_eq!(decrypt_entries(&file, vec![], Some("pw".to_string())), Ok(snapshot.clone()));

    // stored costs below the floor are raised to 1024 KiB, one pass, one lane
    let key = argon("pw", &salt, 1024, 1, 1);
    let low = EncFileV2 {
        mem_kib: 16,
        iterations: 0,
        parallelism: 0,
        ciphertext_b64: STANDARD_NO_PAD.encode(chacha(&key, &nonce, &snapshot)),
        ..copy_v2(&container)
    };
    assert_eq!(
        decrypt_entries(&BackupFile::Current(low), vec![], Some("pw".to_string())),
        Ok(snapshot)
    );

    let odd = EncFileV2 { parallelism: 0x100_0000, ..copy_v2(&container) };
    assert_eq!(
        decrypt_entries(&BackupFile::Current(odd), vec![], Some("pw".to_string())),
        Err(BackupError::DecryptionFailed)
    );
}

#[test]
fn oldest_container_tries_historical_costs() {
    let snapshot = b"old data".to_vec();
    let salt = vec![5u8; 16];
    let nonce = vec![6u8; 12];
    for mem in [19456u32, 8192] {
        let key = argon("pw", &salt, mem, 2, 1);
        let file = BackupFile::Oldest(v1(
            &STANDARD_NO_PAD.encode(&salt),
            &STANDARD_NO_PAD.encode(&nonce),
            &STANDARD_NO_PAD.encode(chacha(&key, &nonce, &snapshot)),
        ));
        assert_eq!(decrypt_entries(&file, vec![], Some("pw".to_string())), Ok(snapshot.clone()));
        assert_eq!(
            decrypt_entries(&file, vec![], Some("no".to_string())),
            Err(BackupError::DecryptionFailed)
        );
        assert_eq!(decrypt_entries(&file, vec![], None), Err(BackupError::PassphraseRequired));
    }
    let key = argon("pw", &salt, 4096, 2, 1);
    let file = BackupFile::Oldest(v1(
        &STANDARD_NO_PAD.encode(&salt),
        &STANDARD_NO_PAD.encode(&nonce),
        &STANDARD_NO_PAD.encode(chacha(&key, &nonce, &snapshot)),
    ));
    assert_eq!(
        decrypt_entries(&file, vec![], Some("pw".to_string())),
        Err(BackupError::DecryptionFailed)
    );
}

#[test]
fn malformed_container_fields_are_named() {
    let good_nonce = "AQEBAQEBAQEBAQEB";
    let pw = || Some("pw".to_string());
    let open = |salt: &str, nonce: &str, ct: &str| {
        decrypt_entries(&BackupFile::Oldest(v1(salt, nonce, ct)), vec![], pw())
    };
    assert_eq!(open("**", good_nonce, "AAAA"), Err(BackupError::BadSalt));
    assert_eq!(open("**", "**", "**"), Err(BackupError::BadSalt));
    assert_eq!(open("AAAA", "**", "**"), Err(BackupError::BadNonce));
    assert_eq!(open("AAAA", good_nonce, "**"), Err(BackupError::BadCiphertext));
    assert_eq!(open("AAAA", "AAAA", "AAAA"), Err(BackupError::BadNonce));
    assert_eq!(open("AAAA", good_nonce, "AAAA"), Err(BackupError::DecryptionFailed));
    // the fields are checked before the passphrase
    assert_eq!(
        decrypt_entries(&BackupFile::Oldest(v1("**", good_nonce, "AAAA")), vec![], None),
        Err(BackupError::BadSalt)
    );
    assert_eq!(
        decrypt_entries(&BackupFile::Oldest(v1("AAAA", good_nonce, "AAAA")), vec![], None),
        Err(BackupError::PassphraseRequired)
    );
}

#[test]
fn error_kinds() {
    assert_eq!(BackupError::BadSalt.kind(), ErrorKind::Format);
    assert_eq!(BackupError::BadNonce.kind(), ErrorKind::Format);
    assert_eq!(BackupError::BadCiphertext.kind(), ErrorKind::Format);
    assert_eq!(BackupError::PassphraseRequired.kind(), ErrorKind::Validation);
    assert_eq!(BackupError::DecryptionFailed.kind(), ErrorKind::Auth);
    assert_eq!(BackupError::EncryptionFailed.kind(), ErrorKind::Validation);
    assert_eq!(BackupError::Entropy.kind(), ErrorKind::Io);
    assert_eq!(CryptoError::Decryption.kind(), ErrorKind::Auth);
    assert_eq!(CryptoError::NotFound.kind(), ErrorKind::NotFound);
    assert_eq!(CryptoError::Entropy.kind(), ErrorKind::Io);
    assert_eq!(CryptoError::Decryption.message(), "decryption failed");
    assert_eq!(CryptoError::NotFound.message(), "master not found");
    assert_eq!(CryptoError::Entropy.message(), "random source unavailable");
}

#[test]
fn error_messages() {
    assert_eq!(BackupError::BadSalt.message(), "bad salt");
    assert_eq!(BackupError::BadNonce.message(), "bad nonce");
    assert_eq!(BackupError::BadCiphertext.message(), "bad ciphertext");
    assert_eq!(BackupError::PassphraseRequired.message(), "passphrase required");
    assert_eq!(BackupError::DecryptionFailed.message(), "decryption failed");
    assert_eq!(BackupError::EncryptionFailed.message(), "encryption failed");
    assert_eq!(BackupError::Entropy.message(), "random source unavailable");
}

#[test]
fn classify_prefers_current_then_oldest() {
    let c = seal_entries(&vec![1], "pw", &vec![0u8; 16], &vec![0u8; 12], Platform::Mobile).unwrap();
    let o = v1("a", "b", "c");
    assert_eq!(
        classify(Some(copy_v2(&c)), Some(v1("a", "b", "c"))),
        BackupFile::Current(copy_v2(&c))
    );
    assert_eq!(classify(Some(copy_v2(&c)), None), BackupFile::Current(c));
    assert_eq!(classify(None, Some(v1("a", "b", "c"))), BackupFile::Oldest(o));
    assert_eq!(classify(None, None), BackupFile::Plain);
}

#[test]
fn summary_counts_each_fingerprint_in_string_order() {
    let entries = vec![
        entry("1", Some("bbb")),
        entry("2", None),
        entry("3", Some("aaa")),
        entry("4", Some("bbb")),
        entry("5", None),
        entry("6", Some("bbb")),
        entry("7", Some("B")),
    ];
    let expected = vec![
        ("".to_string(), 2usize),
        ("B".to_string(), 1),
        ("aaa".to_string(), 1),
        ("bbb".to_string(), 3),
    ];
    assert_eq!(summarize_fingerprints(&entries), expected);
    assert_eq!(preview_backup(&entries).fingerprints, expected);
    assert_eq!(summarize_fingerprints(&vec![]), vec![]);
    assert_eq!(
        summarize(&strs(&["z", "a", "z", "m", "a", "z"])),
        vec![("a".to_string(), 2usize), ("m".to_string(), 1), ("z".to_string(), 3)]
    );
    assert_eq!(source_of(&entry("1", None)), "");
    assert_eq!(source_of(&entry("1", Some("fp"))), "fp");
}

#[test]
fn mapping_binds_to_known_targets_only() {
    let entries = vec![
        entry("a", Some("old1")),
        entry("b", Some("old2")),
        entry("c", None),
        entry("d", Some("old3")),
        entry("e", Some("unmapped")),
    ];
    let map = mapping(&[
        ("old1", Some("new1")),
        ("old2", None),
        ("", Some("new1")),
        ("old3", Some("elsewhere")),
    ]);
    let allowed = strs(&["new1", "new2"]);
    let out = map_entries(entries, map, &allowed);
    assert_eq!(
        bound(&out),
        vec![
            ("a".to_string(), Some("new1".to_string())),
            ("c".to_string(), Some("new1".to_string()))
        ]
    );
    assert_eq!(out[0].label, "label-a");
}

#[test]
fn later_mapping_lines_override_earlier_ones() {
    let map = mapping(&[("x", Some("one")), ("x", Some("two")), ("y", Some("one")), ("y", None)]);
    assert_eq!(find_target(&map, &"x".to_string()), Some("two".to_string()));
    assert_eq!(find_target(&map, &"y".to_string()), None);
    assert_eq!(find_target(&map, &"z".to_string()), None);
    assert!(holds(&strs(&["a", "b"]), &"b".to_string()));
    assert!(!holds(&strs(&["a", "b"]), &"c".to_string()));
    assert!(!holds(&vec![], &"".to_string()));
}

#[test]
fn raw_payload_keeps_entries_of_known_vaults() {
    let mut all = EntriesFile { entries: vec![entry("x", Some("fp1"))] };
    let incoming = vec![
        entry("a", Some("fp1")),
        entry("b", Some("gone")),
        entry("c", None),
        entry("x", Some("fp1")),
    ];
    let n = import_entries_payload(&mut all, incoming, false, &strs(&["fp1"]));
    assert_eq!(n, 1);
    assert_eq!(
        bound(&all.entries),
        vec![
            ("x".to_string(), Some("fp1".to_string())),
            ("a".to_string(), Some("fp1".to_string()))
        ]
    );
    let incoming = vec![entry("p", Some("fp1")), entry("q", Some("gone"))];
    let n = import_entries_payload(&mut all, incoming, true, &strs(&["fp1"]));
    assert_eq!(n, 1);
    assert_eq!(bound(&all.entries), vec![("p".to_string(), Some("fp1".to_string()))]);
}

#[test]
fn import_with_mapping_commits_survivors() {
    let mut all = EntriesFile { entries: vec![entry("a", Some("here"))] };
    let incoming = vec![entry("a", Some("there")), entry("b", Some("there")), entry("c", None)];
    let n = import_with_mapping(
        &mut all,
        incoming,
        mapping(&[("there", Some("here"))]),
        false,
        &strs(&["here"]),
    );
    assert_eq!(n, 1);
    assert_eq!(
        bound(&all.entries),
        vec![
            ("a".to_string(), Some("here".to_string())),
            ("b".to_string(), Some("here".to_string()))
        ]
    );
    let incoming = vec![entry("z", Some("there"))];
    let n = import_with_mapping(
        &mut all,
        incoming,
        mapping(&[("there", Some("here"))]),
        true,
        &strs(&["here"]),
    );
    assert_eq!(n, 1);
    assert_eq!(bound(&all.entries), vec![("z".to_string(), Some("here".to_string()))]);
}

#[test]
fn commit_replaces_or_merges() {
    let mut all = EntriesFile { entries: vec![entry("a", None)] };
    assert_eq!(commit(&mut all, vec![entry("a", None), entry("b", None)], false), 1);
    assert_eq!(all.entries.len(), 2);
    assert_eq!(commit(&mut all, vec![entry("q", None)], true), 1);
    assert_eq!(all.entries.len(), 1);
    assert_eq!(all.entries[0].id, "q");
}
