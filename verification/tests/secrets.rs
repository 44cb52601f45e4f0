use quietwrite::hex::{hex_decode, hex_encode};
use quietwrite::vault::{
    agree, create_secret_lock, decrypt_secret, encrypt_secret, encrypt_with_draw, encrypt_with_nonce,
    is_encrypted, key_if_known, legacy_password_hash, lock_of, lock_with_draw, lock_with_salt, magic,
    parse_lock, password_material, unlock_secret, Fault, FaultKind, Unlocked, VaultError,
};

#[test]
fn secret_ciphertext_round_trips_and_detects_tampering() {
    let key = [42_u8; 32];
    let plaintext = b"a private line of poetry";
    let encrypted = encrypt_secret(&key, plaintext).unwrap();
    assert!(encrypted.starts_with(&magic()));
    assert!(!encrypted
        .windows(plaintext.len())
        .any(|part| part == plaintext));
    assert_eq!(decrypt_secret(&key, &encrypted).unwrap(), plaintext);
    assert!(decrypt_secret(&[41_u8; 32], &encrypted).is_err());
    let mut damaged = encrypted;
    *damaged.last_mut().unwrap() ^= 1;
    assert!(decrypt_secret(&key, &damaged).is_err());
}

#[test]
fn secret_lock_verifier_accepts_only_matching_input() {
    let lock = create_secret_lock(b"sample phrase").unwrap();
    match unlock_secret(&lock.contents, b"sample phrase").unwrap() {
        Unlocked::Key(key) => assert_eq!(key, lock.key),
        other => panic!("{other:?}"),
    }
    assert!(matches!(
        unlock_secret(&lock.contents, b"different phrase").unwrap(),
        Unlocked::Wrong
    ));
}

#[test]
fn a_lock_is_written_as_version_salt_and_verifier() {
    let salt = [7_u8; 16];
    let lock = lock_with_salt(b"sample phrase", &salt).unwrap();
    let material = password_material(b"sample phrase", &salt).unwrap();
    assert_eq!(material.len(), 64);
    assert_eq!(lock.key.to_vec(), material[..32].to_vec());
    assert_eq!(
        lock.contents,
        format!("v2:{}:{}\n", hex_encode(&salt), hex_encode(&material[32..]))
    );
    let parsed = parse_lock(&lock.contents).unwrap();
    assert!(!parsed.legacy);
    assert_eq!(parsed.salt, salt.to_vec());
    assert_eq!(parsed.verifier, material[32..].to_vec());
}

#[test]
fn locks_of_the_first_format_are_renewed() {
    let salt = [3_u8; 16];
    let hash = legacy_password_hash(b"old password", &salt).unwrap();
    assert_eq!(hash.len(), 32);
    let contents = format!("v1:{}:{}\n", hex_encode(&salt), hex_encode(&hash));
    assert!(matches!(unlock_secret(&contents, b"another one").unwrap(), Unlocked::Wrong));
    match unlock_secret(&contents, b"old password").unwrap() {
        Unlocked::Renewed(lock) => match unlock_secret(&lock.contents, b"old password").unwrap() {
            Unlocked::Key(key) => assert_eq!(key, lock.key),
            other => panic!("{other:?}"),
        },
        other => panic!("{other:?}"),
    }
}

#[test]
fn password_hashes_are_those_of_argon2id() {
    let params = argon2::Params::new(19456, 2, 1, Some(64)).unwrap();
    let mut expected = vec![0_u8; 64];
    argon2::Argon2::new(argon2::Algorithm::Argon2id, argon2::Version::V0x13, params)
        .hash_password_into(b"phrase", &[9_u8; 16], &mut expected)
        .unwrap();
    assert_eq!(password_material(b"phrase", &[9_u8; 16]).unwrap(), expected);
}

#[test]
fn unreadable_locks_say_why() {
    let salt = hex_encode(&[1_u8; 16]);
    let verifier = hex_encode(&[2_u8; 32]);
    for contents in ["".to_string(), "v3:aa:bb".into(), format!("V2:{salt}:{verifier}")] {
        let error = unlock_secret(&contents, b"password").unwrap_err();
        assert_eq!(error.fault, Fault::UnsupportedLock);
        assert_eq!(error.message(), "unsupported lock format");
    }
    for contents in [
        "v2".to_string(),
        format!("v2:{salt}"),
        format!("v2:{salt}:{verifier}:00"),
        format!("v2:{salt}0:{verifier}"),
        format!("v2:zz{}:{verifier}", &salt[2..]),
        format!("v2:{verifier}:{verifier}"),
    ] {
        let error = unlock_secret(&contents, b"password").unwrap_err();
        assert_eq!(error.fault, Fault::InvalidLock);
        assert_eq!(error.message(), "invalid lock data");
    }
    let error = password_material(b"password", b"short").unwrap_err();
    assert_eq!(error.fault, Fault::Derivation);
    assert!(!error.message().is_empty());
}

#[test]
fn unreadable_notes_say_why() {
    let key = [1_u8; 32];
    let plain = decrypt_secret(&key, b"# A plain note").unwrap_err();
    assert_eq!(plain.fault, Fault::Unencrypted);
    assert_eq!(plain.message(), "unencrypted Secret Thoughts file");
    let mut short = magic();
    short.extend_from_slice(&[0_u8; 23]);
    assert_eq!(decrypt_secret(&key, &short).unwrap_err().fault, Fault::Truncated);
    short.push(0);
    let damaged = decrypt_secret(&key, &short).unwrap_err();
    assert_eq!(damaged.fault, Fault::Damaged);
    assert_eq!(damaged.message(), "wrong password or damaged encrypted file");
    for (fault, words) in [
        (Fault::EncryptionFailed, "encryption failed"),
        (Fault::Truncated, "truncated encrypted file"),
        (Fault::Locked, "Secret Thoughts are locked"),
        (Fault::InvalidText, "invalid document text"),
        (Fault::UnlockFirst, "Unlock Secret Thoughts first"),
    ] {
        assert_eq!(VaultError::plain(fault).message(), words);
    }
    let drawn = VaultError { fault: Fault::Random, detail: "no source".into() };
    assert_eq!(drawn.message(), "no source");
}

#[test]
fn an_encrypted_note_is_mark_nonce_and_sealed_text() {
    let key = [5_u8; 32];
    let nonce = [6_u8; 24];
    let bytes = encrypt_with_nonce(&key, &nonce, b"text").unwrap();
    assert_eq!(&bytes[..10], b"QWSECRET1\0");
    assert_eq!(&bytes[10..34], &nonce);
    assert_eq!(bytes.len(), 10 + 24 + 4 + 16);
    assert_ne!(&bytes[34..38], b"text");
    assert!(is_encrypted(&bytes));
    assert!(!is_encrypted(b"QWSECRET"));
    assert_eq!(decrypt_secret(&key, &bytes).unwrap(), b"text");
    let first = encrypt_secret(&key, b"").unwrap();
    let second = encrypt_secret(&key, b"").unwrap();
    assert_ne!(first, second);
    assert_eq!(decrypt_secret(&key, &first).unwrap(), b"");
}

#[test]
fn hexadecimal_reads_back() {
    let bytes: Vec<u8> = (0..=255).collect();
    let text = hex_encode(&bytes);
    assert_eq!(&text[..8], "00010203");
    assert_eq!(&text[508..], "feff");
    assert_eq!(hex_decode(&text).unwrap(), bytes);
    assert_eq!(hex_decode("FFaA").unwrap(), vec![255, 170]);
    assert_eq!(hex_decode("+f").unwrap(), vec![15]);
    assert_eq!(hex_decode("").unwrap(), Vec::<u8>::new());
    assert!(hex_decode("abc").is_none());
    assert!(hex_decode("0g").is_none());
    assert!(hex_decode("-1").is_none());
    assert!(hex_decode("éa").is_none());
}

#[test]
fn encrypted_notes_are_longer_by_mark_nonce_and_tag() {
    let key = [8_u8; 32];
    for length in [0, 1, 63, 64, 65, 1000] {
        let plain = vec![7_u8; length];
        let bytes = encrypt_secret(&key, &plain).unwrap();
        assert_eq!(bytes.len(), length + 50);
        assert_eq!(decrypt_secret(&key, &bytes).unwrap(), plain);
    }
}

#[test]
fn what_cannot_be_decrypted_is_invalid() {
    let key = [8_u8; 32];
    let bytes = encrypt_secret(&key, b"poetry").unwrap();
    for at in 0..bytes.len() {
        let mut changed = bytes.clone();
        changed[at] ^= 4;
        let error = decrypt_secret(&key, &changed).unwrap_err();
        assert_eq!(error.fault.kind(), FaultKind::Invalid);
        let error = decrypt_secret(&key, &bytes[..at]).unwrap_err();
        assert_eq!(error.fault.kind(), FaultKind::Invalid);
    }
    let error = decrypt_secret(&[9; 32], &bytes).unwrap_err();
    assert_eq!(error.fault.kind(), FaultKind::Invalid);
}

#[test]
fn faults_are_denied_invalid_or_other() {
    for fault in [Fault::Locked, Fault::UnlockFirst] {
        assert_eq!(fault.kind(), FaultKind::Denied);
    }
    for fault in [
        Fault::UnsupportedLock,
        Fault::InvalidLock,
        Fault::Unencrypted,
        Fault::Truncated,
        Fault::Damaged,
        Fault::InvalidText,
    ] {
        assert_eq!(fault.kind(), FaultKind::Invalid);
    }
    for fault in [Fault::Random, Fault::Derivation, Fault::EncryptionFailed] {
        assert_eq!(fault.kind(), FaultKind::Other);
    }
}

#[test]
fn failed_draws_are_told() {
    let error = encrypt_with_draw(&[1; 32], Err("no source".into()), b"text").unwrap_err();
    assert_eq!(error.fault, Fault::Random);
    assert_eq!(error.message(), "no source");
    let error = lock_with_draw(b"sample phrase", Err("no source".into())).unwrap_err();
    assert_eq!(error.fault, Fault::Random);
    assert_eq!(error.message(), "no source");
    assert_eq!(VaultError::told(Fault::Derivation, "too long".into()).message(), "too long");
    assert_eq!(VaultError::told(Fault::Damaged, "x".into()).message(), VaultError::plain(Fault::Damaged).message());
    let bytes = encrypt_with_draw(&[1; 32], Ok(vec![2; 24]), b"text").unwrap();
    assert_eq!(bytes, encrypt_with_nonce(&[1; 32], &[2; 24], b"text").unwrap());
    let lock = lock_with_draw(b"sample phrase", Ok(vec![3; 16])).unwrap();
    assert_eq!(lock.contents, lock_with_salt(b"sample phrase", &[3; 16]).unwrap().contents);
}

#[test]
fn a_short_salt_is_named() {
    let error = password_material(b"sample phrase", &[0; 7]).unwrap_err();
    assert_eq!(error.fault, Fault::Derivation);
    assert_eq!(error.message(), "salt is too short");
    let error = legacy_password_hash(b"sample phrase", &[]).unwrap_err();
    assert_eq!(error.message(), "salt is too short");
    let error = lock_with_salt(b"sample phrase", &[0; 3]).unwrap_err();
    assert_eq!(error.message(), "salt is too short");
}

#[test]
fn derived_bytes_are_key_and_verifier() {
    let derived: Vec<u8> = (0..64).collect();
    let lock = lock_of(&derived, &[0xab; 16]);
    assert_eq!(lock.key.to_vec(), derived[..32]);
    assert_eq!(
        lock.contents,
        format!("v2:{}:{}\n", "ab".repeat(16), hex_encode(&derived[32..]))
    );
    assert_eq!(key_if_known(&derived, &derived[32..]), Some(lock.key));
    for at in 0..32 {
        let mut other = derived[32..].to_vec();
        other[at] ^= 1;
        assert!(key_if_known(&derived, &other).is_none());
        assert!(!agree(&other, &derived[32..]));
    }
    assert!(agree(&derived, &derived.clone()));
}
