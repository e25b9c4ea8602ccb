use aes_gcm::aead::{Aead, KeyInit};
use aes_gcm::Aes256Gcm;
use argon2::{Algorithm, Argon2, Params, Version};
use base64::engine::general_purpose::STANDARD_NO_PAD;
use base64::Engine;
use chacha20poly1305::ChaCha20Poly1305;
use saforia::backup::cost_from_stored;
use saforia::crypto::{
    decode_fields, default_cost, default_mem, derive_key, derive_key_with,
    fingerprint, fits_base64, fits_sealing, historical, load_master, master_fingerprint,
    open_first, open_with, save_master, seal_master, Cipher, CryptoError, KdfCost, KdfSettings,
    MasterFile, Platform,
};

fn argon(password: &str, salt: &[u8], mem: u32, iters: u32, lanes: u32) -> Vec<u8> {
    let params = Params::new(mem, iters, lanes, Some(32)).unwrap();
    let alg = Argon2::new(Algorithm::Argon2id, Version::V0x13, params);
    let mut out = [0u8; 32];
    alg.hash_password_into(password.as_bytes(), salt, &mut out).unwrap();
    out.to_vec()
}

fn oldest_record(password: &str, secret: &str, mem: u32) -> MasterFile {
    let salt = [7u8; 16];
    let nonce = [9u8; 12];
    let key = argon(password, &salt, mem, 2, 1);
    let cipher = ChaCha20Poly1305::new(chacha20poly1305::Key::from_slice(&key));
    let ct = cipher
        .encrypt(chacha20poly1305::Nonce::from_slice(&nonce), secret.as_bytes())
        .unwrap();
    MasterFile {
        version: 1,
        settings: None,
        salt_b64: STANDARD_NO_PAD.encode(salt),
        nonce_b64: STANDARD_NO_PAD.encode(nonce),
        ciphertext_b64: STANDARD_NO_PAD.encode(ct),
    }
}

#[test]
fn platform_costs_are_fixed() {
    assert_eq!(default_mem(Platform::Desktop), 19456);
    assert_eq!(default_mem(Platform::Mobile), 8192);
    assert_eq!(
        default_cost(Platform::Desktop),
        KdfCost { mem_kib: 19456, iterations: 2, parallelism: 1 }
    );
    assert_eq!(
        historical(),
        vec![
            KdfCost { mem_kib: 19456, iterations: 2, parallelism: 1 },
            KdfCost { mem_kib: 8192, iterations: 2, parallelism: 1 }
        ]
    );
    assert_eq!(
        cost_from_stored(0, 0, 0),
        KdfCost { mem_kib: 1024, iterations: 1, parallelism: 1 }
    );
    assert_eq!(
        cost_from_stored(4096, 3, 2),
        KdfCost { mem_kib: 4096, iterations: 3, parallelism: 2 }
    );
}

#[test]
fn fingerprint_is_md5_hex_of_secret() {
    assert_eq!(fingerprint("test"), "098f6bcd4621d373cade4e832627b4f6");
    assert_eq!(fingerprint(""), "d41d8cd98f00b204e9800998ecf8427e");
    assert_eq!(fingerprint("h\u{e9}"), format!("{:x}", md5::compute("h\u{e9}".as_bytes())));
}

#[test]
fn key_derivation_matches_argon2id() {
    let salt = [1u8; 16];
    assert_eq!(
        derive_key_with("viewer", &salt, 1024, 1, 1),
        Some(argon("viewer", &salt, 1024, 1, 1))
    );
    assert_eq!(
        derive_key("viewer", &salt, Platform::Mobile),
        Some(argon("viewer", &salt, 8192, 2, 1))
    );
    assert_ne!(
        derive_key_with("viewer", &salt, 1024, 1, 1),
        derive_key_with("viewer", &salt, 1024, 2, 1)
    );
}

#[test]
fn key_derivation_rejects_bad_inputs() {
    assert_eq!(derive_key_with("viewer", &[1u8; 7], 1024, 1, 1), None);
    assert_eq!(derive_key_with("viewer", &[1u8; 8], 7, 1, 1), None);
    assert_eq!(derive_key_with("viewer", &[1u8; 8], 1024, 0, 1), None);
    assert_eq!(derive_key_with("viewer", &[1u8; 8], 1024, 1, 0), None);
    assert_eq!(derive_key_with("viewer", &[1u8; 8], 15, 1, 2), None);
    assert_eq!(derive_key_with("viewer", &[1u8; 8], 1024, 1, 0x100_0000), None);
    assert_eq!(derive_key_with("viewer", &[1u8; 8], 1024, 1, u32::MAX), None);
    assert!(derive_key_with("", &[1u8; 8], 8, 1, 1).is_some());
    assert!(derive_key_with("viewer", &[1u8; 8], 16, 1, 2).is_some());
}

#[test]
fn size_limits() {
    assert!(fits_base64(0));
    assert!(fits_base64(1 << 20));
    assert!(!fits_base64(usize::MAX));
    assert!(!fits_base64(usize::MAX / 4 * 3 + 3));
    assert!(fits_sealing(0));
    assert!(fits_sealing(1 << 30));
    assert!(!fits_sealing(usize::MAX));
    assert!(!fits_sealing((1usize << 36) + 1));
}

#[test]
fn save_then_load_returns_secret() {
    let (fp, record) = save_master("viewer pw", "master s\u{e9}cret", Platform::Mobile).unwrap();
    assert_eq!(fp, fingerprint("master s\u{e9}cret"));
    assert_eq!(record.version, 2);
    assert_eq!(
        record.settings,
        Some(KdfSettings {
            kdf: "argon2id".to_string(),
            mem_kib: 8192,
            iterations: 2,
            parallelism: 1,
            cipher: "aes256gcm".to_string(),
        })
    );
    assert_eq!(STANDARD_NO_PAD.decode(&record.salt_b64).unwrap().len(), 16);
    assert_eq!(STANDARD_NO_PAD.decode(&record.nonce_b64).unwrap().len(), 12);
    let loaded = load_master("viewer pw", Some(&record)).unwrap();
    assert_eq!(loaded.secret, "master s\u{e9}cret");
    assert_eq!(loaded.migrated, None);
    assert_eq!(master_fingerprint("viewer pw", Some(&record)), Ok(fp));
}

#[test]
fn load_with_wrong_password_is_decryption_error() {
    let (_, record) = save_master("viewer pw", "secret", Platform::Mobile).unwrap();
    assert_eq!(load_master("other pw", Some(&record)), Err(CryptoError::Decryption));
    assert_eq!(load_master("", Some(&record)), Err(CryptoError::Decryption));
    assert_eq!(master_fingerprint("other pw", Some(&record)), Err(CryptoError::Decryption));
}

#[test]
fn load_without_record_is_not_found() {
    assert_eq!(load_master("viewer pw", None), Err(CryptoError::NotFound));
    assert_eq!(master_fingerprint("viewer pw", None), Err(CryptoError::NotFound));
}

#[test]
fn salts_and_nonces_are_fresh() {
    let (_, a) = save_master("viewer pw", "secret", Platform::Mobile).unwrap();
    let (_, b) = save_master("viewer pw", "secret", Platform::Mobile).unwrap();
    assert_ne!(a.salt_b64, b.salt_b64);
    assert_ne!(a.nonce_b64, b.nonce_b64);
    assert_ne!(a.ciphertext_b64, b.ciphertext_b64);
}

#[test]
fn seal_master_is_exact() {
    let salt = vec![0u8; 16];
    let nonce = vec![1u8; 12];
    let record = seal_master("viewer", "secret", &salt, &nonce, Platform::Mobile).unwrap();
    assert_eq!(record.salt_b64, "AAAAAAAAAAAAAAAAAAAAAA");
    assert_eq!(record.nonce_b64, "AQEBAQEBAQEBAQEB");
    let key = argon("viewer", &salt, 8192, 2, 1);
    let cipher = Aes256Gcm::new(aes_gcm::Key::<Aes256Gcm>::from_slice(&key));
    let ct = cipher.encrypt(aes_gcm::Nonce::from_slice(&nonce), "secret".as_bytes()).unwrap();
    assert_eq!(record.ciphertext_b64, STANDARD_NO_PAD.encode(&ct));
    assert_eq!(ct.len(), 6 + 16);
    let again = seal_master("viewer", "secret", &salt, &nonce, Platform::Mobile).unwrap();
    assert_eq!(again, record);
    assert_eq!(load_master("viewer", Some(&record)).unwrap().secret, "secret");
}

#[test]
fn seal_master_rejects_bad_salt_and_nonce() {
    assert_eq!(
        seal_master("viewer", "secret", &vec![0u8; 7], &vec![1u8; 12], Platform::Mobile),
        Err(CryptoError::Decryption)
    );
    assert_eq!(
        seal_master("viewer", "secret", &vec![0u8; 16], &vec![1u8; 11], Platform::Mobile),
        Err(CryptoError::Decryption)
    );
    assert_eq!(
        seal_master("viewer", "secret", &vec![0u8; 16], &vec![1u8; 13], Platform::Mobile),
        Err(CryptoError::Decryption)
    );
}

#[test]
fn empty_secret_round_trips() {
    let (_, record) = save_master("viewer", "", Platform::Mobile).unwrap();
    assert_eq!(load_master("viewer", Some(&record)).unwrap().secret, "");
}

#[test]
fn oldest_record_is_migrated_on_load() {
    for mem in [19456u32, 8192] {
        let record = oldest_record("viewer", "old secret", mem);
        let loaded = load_master("viewer", Some(&record)).unwrap();
        assert_eq!(loaded.secret, "old secret");
        let migrated = loaded.migrated.expect("migrated record");
        assert_eq!(migrated.version, 2);
        assert_eq!(migrated.salt_b64, record.salt_b64);
        assert_ne!(migrated.nonce_b64, record.nonce_b64);
        assert_eq!(
            migrated.settings,
            Some(KdfSettings {
                kdf: "argon2id".to_string(),
                mem_kib: mem,
                iterations: 2,
                parallelism: 1,
                cipher: "aes256gcm".to_string(),
            })
        );
        let second = load_master("viewer", Some(&migrated)).unwrap();
        assert_eq!(second.secret, "old secret");
        assert_eq!(second.migrated, None);
        assert_eq!(load_master("wrong", Some(&migrated)), Err(CryptoError::Decryption));
    }
}

#[test]
fn oldest_record_with_wrong_password_fails() {
    let record = oldest_record("viewer", "old secret", 8192);
    assert_eq!(load_master("nope", Some(&record)), Err(CryptoError::Decryption));
}

#[test]
fn oldest_record_with_empty_secret_is_not_migrated() {
    let record = oldest_record("viewer", "", 8192);
    let loaded = load_master("viewer", Some(&record)).unwrap();
    assert_eq!(loaded.secret, "");
    assert_eq!(loaded.migrated, None);
}

#[test]
fn version_two_record_without_settings_is_read_and_migrated() {
    let salt = [3u8; 16];
    let nonce = [4u8; 12];
    let key = argon("viewer", &salt, 19456, 2, 1);
    let cipher = Aes256Gcm::new(aes_gcm::Key::<Aes256Gcm>::from_slice(&key));
    let ct = cipher.encrypt(aes_gcm::Nonce::from_slice(&nonce), "s3".as_bytes()).unwrap();
    let record = MasterFile {
        version: 2,
        settings: None,
        salt_b64: STANDARD_NO_PAD.encode(salt),
        nonce_b64: STANDARD_NO_PAD.encode(nonce),
        ciphertext_b64: STANDARD_NO_PAD.encode(ct),
    };
    let loaded = load_master("viewer", Some(&record)).unwrap();
    assert_eq!(loaded.secret, "s3");
    let migrated = loaded.migrated.unwrap();
    assert_eq!(migrated.settings.as_ref().unwrap().mem_kib, 19456);
    assert_eq!(load_master("viewer", Some(&migrated)).unwrap().secret, "s3");
}

#[test]
fn damaged_records_are_decryption_errors() {
    let (_, good) = save_master("viewer", "secret", Platform::Mobile).unwrap();
    let damage = |f: &dyn Fn(&mut MasterFile)| {
        let mut r = MasterFile {
            version: good.version,
            settings: Some(KdfSettings {
                kdf: "argon2id".to_string(),
                mem_kib: 8192,
                iterations: 2,
                parallelism: 1,
                cipher: "aes256gcm".to_string(),
            }),
            salt_b64: good.salt_b64.clone(),
            nonce_b64: good.nonce_b64.clone(),
            ciphertext_b64: good.ciphertext_b64.clone(),
        };
        f(&mut r);
        load_master("viewer", Some(&r))
    };
    assert!(damage(&|_| {}).is_ok());
    assert_eq!(damage(&|r| r.salt_b64 = "!!".to_string()), Err(CryptoError::Decryption));
    assert_eq!(damage(&|r| r.salt_b64 = "AAAA".to_string()), Err(CryptoError::Decryption));
    assert_eq!(damage(&|r| r.nonce_b64 = "AAAA".to_string()), Err(CryptoError::Decryption));
    assert_eq!(damage(&|r| r.nonce_b64 = "A".to_string()), Err(CryptoError::Decryption));
    assert_eq!(damage(&|r| r.ciphertext_b64 = "AAAA".to_string()), Err(CryptoError::Decryption));
    assert_eq!(damage(&|r| r.ciphertext_b64.push('='))
        , Err(CryptoError::Decryption));
    assert_eq!(damage(&|r| r.version = 1), Err(CryptoError::Decryption));
    assert_eq!(
        damage(&|r| r.settings.as_mut().unwrap().mem_kib = 4096),
        Err(CryptoError::Decryption)
    );
    assert_eq!(
        damage(&|r| r.settings.as_mut().unwrap().parallelism = u32::MAX),
        Err(CryptoError::Decryption)
    );
}

#[test]
fn secret_that_is_not_utf8_is_a_decryption_error() {
    let salt = [5u8; 16];
    let nonce = [6u8; 12];
    let key = argon("viewer", &salt, 8192, 2, 1);
    let cipher = Aes256Gcm::new(aes_gcm::Key::<Aes256Gcm>::from_slice(&key));
    let ct = cipher.encrypt(aes_gcm::Nonce::from_slice(&nonce), &[0xff, 0xfe][..]).unwrap();
    let record = MasterFile {
        version: 2,
        settings: Some(KdfSettings {
            kdf: "argon2id".to_string(),
            mem_kib: 8192,
            iterations: 2,
            parallelism: 1,
            cipher: "aes256gcm".to_string(),
        }),
        salt_b64: STANDARD_NO_PAD.encode(salt),
        nonce_b64: STANDARD_NO_PAD.encode(nonce),
        ciphertext_b64: STANDARD_NO_PAD.encode(ct),
    };
    assert_eq!(load_master("viewer", Some(&record)), Err(CryptoError::Decryption));
}

#[test]
fn decode_fields_needs_three_valid_fields() {
    assert_eq!(
        decode_fields("AAAA", "AQEBAQEBAQEBAQEB", "/w"),
        Some((vec![0, 0, 0], vec![1u8; 12], vec![0xff]))
    );
    assert_eq!(decode_fields("AA==", "AQEBAQEBAQEBAQEB", "/w"), None);
    assert_eq!(decode_fields("AAAA", "AQEB", "/w"), None);
    assert_eq!(decode_fields("AAAA", "AQEBAQEBAQEBAQEB", "/x"), None);
    assert_eq!(decode_fields("AAAA", "AQEBAQEBAQEBAQEB", " /w"), None);
    assert_eq!(
        decode_fields("", "AQEBAQEBAQEBAQEB", ""),
        Some((vec![], vec![1u8; 12], vec![]))
    );
}

#[test]
fn open_first_reports_the_cost_that_opened() {
    let salt = vec![7u8; 16];
    let nonce = vec![9u8; 12];
    let key = argon("pw", &salt, 8192, 2, 1);
    let cipher = ChaCha20Poly1305::new(chacha20poly1305::Key::from_slice(&key));
    let ct = cipher.encrypt(chacha20poly1305::Nonce::from_slice(&nonce), &b"data"[..]).unwrap();
    let found =
        open_first("pw", &salt, &nonce, &ct, Cipher::ChaCha20Poly1305, &historical()).unwrap();
    assert_eq!(found.index, 1);
    assert_eq!(found.key, key);
    assert_eq!(found.plaintext, b"data".to_vec());
    assert!(open_first("pw", &salt, &nonce, &ct, Cipher::Aes256Gcm, &historical()).is_none());
    assert!(open_first("pw", &salt, &nonce, &ct, Cipher::ChaCha20Poly1305, &vec![]).is_none());
    assert_eq!(open_with(Cipher::ChaCha20Poly1305, &key, &nonce, &ct), Some(b"data".to_vec()));
    assert_eq!(open_with(Cipher::Aes256Gcm, &key, &nonce, &ct), None);
    assert_eq!(open_with(Cipher::ChaCha20Poly1305, &key, &nonce, &ct[..3]), None);
    assert_eq!(open_with(Cipher::ChaCha20Poly1305, &key[..31], &nonce, &ct), None);
    assert_eq!(open_with(Cipher::ChaCha20Poly1305, &key, &nonce[..11], &ct), None);
    assert_eq!(open_with(Cipher::Aes256Gcm, &[], &[], &ct), None);
    assert!(
        open_first("pw", &salt, &vec![9u8; 13], &ct, Cipher::ChaCha20Poly1305, &historical())
            .is_none()
    );
}

#[test]
fn current_record_is_opened_under_the_cost_it_names() {
    let salt = [8u8; 16];
    let nonce = [2u8; 12];
    let key = argon("viewer", &salt, 64, 1, 2);
    let cipher = Aes256Gcm::new(aes_gcm::Key::<Aes256Gcm>::from_slice(&key));
    let ct = cipher.encrypt(aes_gcm::Nonce::from_slice(&nonce), "s".as_bytes()).unwrap();
    let record = MasterFile {
        version: 2,
        settings: Some(KdfSettings {
            kdf: "argon2id".to_string(),
            mem_kib: 64,
            iterations: 1,
            parallelism: 2,
            cipher: "aes256gcm".to_string(),
        }),
        salt_b64: STANDARD_NO_PAD.encode(salt),
        nonce_b64: STANDARD_NO_PAD.encode(nonce),
        ciphertext_b64: STANDARD_NO_PAD.encode(ct),
    };
    let loaded = load_master("viewer", Some(&record)).unwrap();
    assert_eq!(loaded.secret, "s");
    assert_eq!(loaded.migrated, None);
}

#[test]
fn forgetting_a_key_empties_it() {
    let salt = vec![7u8; 16];
    let nonce = vec![9u8; 12];
    let key = argon("pw", &salt, 8192, 2, 1);
    let cipher = ChaCha20Poly1305::new(chacha20poly1305::Key::from_slice(&key));
    let ct = cipher.encrypt(chacha20poly1305::Nonce::from_slice(&nonce), &b"data"[..]).unwrap();
    let mut found =
        open_first("pw", &salt, &nonce, &ct, Cipher::ChaCha20Poly1305, &historical()).unwrap();
    assert_eq!(found.key.len(), 32);
    found.forget_key();
    assert!(found.key.is_empty());
    assert_eq!(found.index, 1);
    assert_eq!(found.plaintext, b"data".to_vec());
}
