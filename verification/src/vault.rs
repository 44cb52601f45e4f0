//! The lock on Secret Thoughts and the encryption of what it guards.
use chacha20poly1305::aead::{Aead, KeyInit};
use vstd::prelude::*;
use zeroize::Zeroize;

use crate::hex;
use crate::keys;
use crate::text;

verus! {

/// What can go wrong with the vault.
#[derive(Debug, Clone, Copy, PartialEq, Eq, Structural)]
pub enum Fault {
    UnsupportedLock,
    InvalidLock,
    Random,
    Derivation,
    EncryptionFailed,
    Unencrypted,
    Truncated,
    Damaged,
    Locked,
    InvalidText,
    UnlockFirst,
}

/// The kinds of faults: what may not be done, what is not as it should be, and
/// all others.
#[derive(Debug, Clone, Copy, PartialEq, Eq, Structural)]
pub enum FaultKind {
    Denied,
    Invalid,
    Other,
}

impl Fault {
    /// Of which kind a fault is.
    pub open spec fn sort(self) -> FaultKind {
        match self {
            Fault::Locked | Fault::UnlockFirst => FaultKind::Denied,
            Fault::Random | Fault::Derivation | Fault::EncryptionFailed => FaultKind::Other,
            _ => FaultKind::Invalid,
        }
    }

    /// Tells of which kind a fault is.
    pub fn kind(self) -> (kind: FaultKind)
        ensures
            kind == self.sort(),
    {
        match self {
            Fault::Locked | Fault::UnlockFirst => FaultKind::Denied,
            Fault::Random | Fault::Derivation | Fault::EncryptionFailed => FaultKind::Other,
            _ => FaultKind::Invalid,
        }
    }
}

/// A fault, with what the failed call had to say about it.
#[derive(Debug)]
pub struct VaultError {
    pub fault: Fault,
    pub detail: String,
}

impl VaultError {
    /// The words for the fault.
    pub open spec fn words(&self) -> Seq<char> {
        match self.fault {
            Fault::UnsupportedLock => "unsupported lock format"@,
            Fault::InvalidLock => "invalid lock data"@,
            Fault::Random => self.detail@,
            Fault::Derivation => self.detail@,
            Fault::EncryptionFailed => "encryption failed"@,
            Fault::Unencrypted => "unencrypted Secret Thoughts file"@,
            Fault::Truncated => "truncated encrypted file"@,
            Fault::Damaged => "wrong password or damaged encrypted file"@,
            Fault::Locked => "Secret Thoughts are locked"@,
            Fault::InvalidText => "invalid document text"@,
            Fault::UnlockFirst => "Unlock Secret Thoughts first"@,
        }
    }

    /// A fault that needs no more words.
    pub fn plain(fault: Fault) -> (error: VaultError)
        ensures
            error.fault == fault,
    {
        VaultError { fault, detail: String::new() }
    }

    /// A fault that a failed call has told about; its words are those of the call
    /// where the fault has none of its own.
    pub fn told(fault: Fault, detail: String) -> (error: VaultError)
        ensures
            error.fault == fault,
            error.detail@ == detail@,
            fault == Fault::Random || fault == Fault::Derivation ==> error.words() == detail@,
    {
        VaultError { fault, detail }
    }

    /// Says what went wrong.
    pub fn message(&self) -> (words: String)
        ensures
            words@ == self.words(),
    {
        match self.fault {
            Fault::UnsupportedLock => text::owned("unsupported lock format"),
            Fault::InvalidLock => text::owned("invalid lock data"),
            Fault::Random => text::owned(self.detail.as_str()),
            Fault::Derivation => text::owned(self.detail.as_str()),
            Fault::EncryptionFailed => text::owned("encryption failed"),
            Fault::Unencrypted => text::owned("unencrypted Secret Thoughts file"),
            Fault::Truncated => text::owned("truncated encrypted file"),
            Fault::Damaged => text::owned("wrong password or damaged encrypted file"),
            Fault::Locked => text::owned("Secret Thoughts are locked"),
            Fault::InvalidText => text::owned("invalid document text"),
            Fault::UnlockFirst => text::owned("Unlock Secret Thoughts first"),
        }
    }
}

/// The hash that Argon2id, version 1.3, without secret and associated data,
/// makes of a password and a salt: memory in KiB, passes, lanes, password, salt,
/// and how many bytes are asked for.
pub uninterp spec fn argon2id(
    memory: u32,
    passes: u32,
    lanes: u32,
    password: Seq<u8>,
    salt: Seq<u8>,
    length: usize,
) -> Seq<u8>;

/// The longest password or salt that Argon2 takes.
pub const ARGON2_LIMIT: u64 = 0xffff_ffff;

/// Calls `argon2::Argon2::hash_password_into` for Argon2id, version 1.3. It
/// succeeds on every password of at most `ARGON2_LIMIT` bytes and every salt from
/// eight bytes up to that, and fails on all others, saying which of the two is at
/// fault. It fills all the bytes that it is asked for; they are named, not
/// described.
#[verifier::external_body]
fn hash_password(
    password: &[u8],
    salt: &[u8],
    memory: u32,
    passes: u32,
    lanes: u32,
    length: usize,
) -> (hash: Result<Vec<u8>, String>)
    requires
        1 <= lanes,
        8 * lanes <= memory <= 65536,
        1 <= passes,
        4 <= length <= 1024,
    ensures
        hash is Ok == derivable(password@, salt@),
        hash matches Err(words) ==> words@ == derivation_words(password@, salt@),
        hash matches Ok(bytes) ==> bytes@.len() == length && bytes@ == argon2id(
            memory,
            passes,
            lanes,
            password@,
            salt@,
            length,
        ),
{
    let params = argon2::Params::new(memory, passes, lanes, Some(length))
        .map_err(|error| error.to_string())?;
    let mut bytes = vec![0_u8; length];
    argon2::Argon2::new(argon2::Algorithm::Argon2id, argon2::Version::V0x13, params)
        .hash_password_into(password, salt, &mut bytes)
        .map_err(|error| error.to_string())?;
    Ok(bytes)
}

/// Calls `getrandom::fill`, which fills the whole buffer from the system's
/// source of randomness or fails. A failure is told in words; nothing is stated
/// of the bytes, of the words or of when it fails.
#[verifier::external_body]
pub(crate) fn random_bytes(count: usize) -> (bytes: Result<Vec<u8>, String>)
    ensures
        bytes matches Ok(filled) ==> filled@.len() == count,
        bytes matches Err(words) ==> words@.len() > 0,
{
    let mut bytes = vec![0_u8; count];
    getrandom::fill(&mut bytes).map_err(|error| error.to_string())?;
    Ok(bytes)
}

/// What XChaCha20-Poly1305 makes of a plaintext without associated data under a
/// key and a nonce: the encrypted bytes and the tag behind them.
pub uninterp spec fn xchacha_seal(key: Seq<u8>, nonce: Seq<u8>, plaintext: Seq<u8>) -> Seq<u8>;

/// What XChaCha20-Poly1305 reads from bytes without associated data under a key
/// and a nonce; nothing if the tag does not fit.
pub uninterp spec fn xchacha_open(key: Seq<u8>, nonce: Seq<u8>, ciphertext: Seq<u8>) -> Option<
    Seq<u8>,
>;

/// The longest plaintext that the keystream reaches: one block less than the
/// block counter has values left.
pub const CIPHER_LIMIT: u64 = 0x3f_ffff_ff80;

/// Calls `XChaCha20Poly1305::encrypt`. It succeeds on every plaintext up to
/// `CIPHER_LIMIT` bytes, adds a tag of sixteen bytes, and decryption under the
/// same key and nonce reads the plaintext back. The bytes themselves are named,
/// not described; that they hide the plaintext, or that changed bytes are
/// refused, is not stated.
#[verifier::external_body]
fn seal(key: &[u8; 32], nonce: &[u8], plaintext: &[u8]) -> (sealed: Option<Vec<u8>>)
    requires
        nonce@.len() == 24,
        plaintext@.len() <= CIPHER_LIMIT,
    ensures
        sealed is Some,
        sealed matches Some(bytes) ==> bytes@ == xchacha_seal(key@, nonce@, plaintext@)
            && bytes@.len() == plaintext@.len() + 16 && xchacha_open(key@, nonce@, bytes@) == Some(
            plaintext@,
        ),
{
    chacha20poly1305::XChaCha20Poly1305::new(key.into())
        .encrypt(chacha20poly1305::XNonce::from_slice(nonce), plaintext)
        .ok()
}

/// Calls `XChaCha20Poly1305::decrypt`. Bytes shorter than a tag are refused;
/// what is read is sixteen bytes shorter than what was given. Which bytes are
/// refused otherwise, and what is read from the others, is named.
#[verifier::external_body]
fn open(key: &[u8; 32], nonce: &[u8], ciphertext: &[u8]) -> (opened: Option<Vec<u8>>)
    requires
        nonce@.len() == 24,
        ciphertext@.len() <= CIPHER_LIMIT + 16,
    ensures
        match opened {
            Some(plaintext) => xchacha_open(key@, nonce@, ciphertext@) == Some(plaintext@)
                && ciphertext@.len() == plaintext@.len() + 16,
            None => xchacha_open(key@, nonce@, ciphertext@) is None,
        },
{
    chacha20poly1305::XChaCha20Poly1305::new(key.into())
        .decrypt(chacha20poly1305::XNonce::from_slice(nonce), ciphertext)
        .ok()
}

/// Calls `Zeroize::zeroize` on a key, which sets each of its bytes to zero.
#[verifier::external_body]
pub(crate) fn wipe(key: &mut [u8; 32])
    ensures
        forall|i: int| 0 <= i < 32 ==> final(key)@[i] == 0,
{
    key.zeroize();
}

/// The bytes that every encrypted note begins with.
pub open spec fn secret_magic() -> Seq<u8> {
    seq![81u8, 87u8, 83u8, 69u8, 67u8, 82u8, 69u8, 84u8, 49u8, 0u8]
}

/// The bytes that every encrypted note begins with: `QWSECRET1` and a zero.
pub fn magic() -> (bytes: Vec<u8>)
    ensures
        bytes@ == secret_magic(),
{
    let bytes: Vec<u8> = vec![81, 87, 83, 69, 67, 82, 69, 84, 49, 0];
    assert(bytes@ == secret_magic());
    bytes
}

/// Whether bytes are marked as an encrypted note.
pub fn is_encrypted(bytes: &[u8]) -> (yes: bool)
    ensures
        yes == secret_magic().is_prefix_of(bytes@),
{
    keys::begins(bytes, magic().as_slice())
}

/// What a password and a salt give: the key, and behind it the verifier.
pub open spec fn material(password: Seq<u8>, salt: Seq<u8>) -> Seq<u8> {
    argon2id(19456, 2, 1, password, salt, 64)
}

/// What the first lock format kept to recognise a password.
pub open spec fn legacy_hash(password: Seq<u8>, salt: Seq<u8>) -> Seq<u8> {
    argon2id(4096, 2, 1, password, salt, 32)
}

/// Whether Argon2 takes a password and a salt.
pub open spec fn derivable(password: Seq<u8>, salt: Seq<u8>) -> bool {
    password.len() <= ARGON2_LIMIT && 8 <= salt.len() <= ARGON2_LIMIT
}

/// What Argon2 says of a password and a salt that it does not take.
pub open spec fn derivation_words(password: Seq<u8>, salt: Seq<u8>) -> Seq<char> {
    if password.len() > ARGON2_LIMIT {
        "password is too long"@
    } else if salt.len() < 8 {
        "salt is too short"@
    } else {
        "salt is too long"@
    }
}

/// Derives the key and the verifier from a password.
pub fn password_material(password: &[u8], salt: &[u8]) -> (result: Result<Vec<u8>, VaultError>)
    ensures
        match result {
            Ok(bytes) => derivable(password@, salt@) && bytes@ == material(password@, salt@)
                && bytes@.len() == 64,
            Err(error) => !derivable(password@, salt@) && error.fault == Fault::Derivation
                && error.words() == derivation_words(password@, salt@),
        },
{
    match hash_password(password, salt, 19456, 2, 1, 64) {
        Ok(bytes) => Ok(bytes),
        Err(detail) => Err(VaultError::told(Fault::Derivation, detail)),
    }
}

/// Derives what the first lock format kept.
pub fn legacy_password_hash(password: &[u8], salt: &[u8]) -> (result: Result<Vec<u8>, VaultError>)
    ensures
        match result {
            Ok(bytes) => derivable(password@, salt@) && bytes@ == legacy_hash(password@, salt@)
                && bytes@.len() == 32,
            Err(error) => !derivable(password@, salt@) && error.fault == Fault::Derivation
                && error.words() == derivation_words(password@, salt@),
        },
{
    match hash_password(password, salt, 4096, 2, 1, 32) {
        Ok(bytes) => Ok(bytes),
        Err(detail) => Err(VaultError::told(Fault::Derivation, detail)),
    }
}

/// What a lock file holds: the format, the salt, and the verifier.
#[derive(Debug)]
pub struct Lock {
    pub legacy: bool,
    pub salt: Vec<u8>,
    pub verifier: Vec<u8>,
}

/// A field of a lock file; empty if there is none.
pub open spec fn field(fields: Seq<Seq<char>>, index: int) -> Seq<char> {
    if index < fields.len() {
        fields[index]
    } else {
        Seq::empty()
    }
}

/// The fields of a lock file.
pub open spec fn lock_fields(contents: Seq<char>) -> Seq<Seq<char>> {
    text::pieces(text::trimmed(contents), ':')
}

/// What is wrong with a lock file, if anything.
pub open spec fn lock_fault(contents: Seq<char>) -> Option<Fault> {
    let fields = lock_fields(contents);
    let salt = field(fields, 1);
    let verifier = field(fields, 2);
    if fields[0] != "v2"@ && fields[0] != "v1"@ {
        Some(Fault::UnsupportedLock)
    } else if !hex::is_hex(salt) || !hex::is_hex(verifier) || hex::hex_bytes(salt).len() != 16
        || hex::hex_bytes(verifier).len() != 32 || fields.len() > 3 {
        Some(Fault::InvalidLock)
    } else {
        None
    }
}

/// The contents of the lock file for a salt and a verifier.
pub open spec fn lock_text(salt: Seq<u8>, verifier: Seq<u8>) -> Seq<char> {
    "v2:"@ + hex::hex_text(salt) + ":"@ + hex::hex_text(verifier) + "\n"@
}

fn field_of(fields: &Vec<Vec<char>>, index: usize) -> (result: String)
    ensures
        result@ == field(text::char_lists(fields@), index as int),
{
    if index < fields.len() {
        text::string_of(fields[index].as_slice())
    } else {
        let empty = String::new();
        assert(empty@ == Seq::<char>::empty());
        empty
    }
}

/// Reads a lock file.
pub fn parse_lock(contents: &str) -> (result: Result<Lock, VaultError>)
    ensures
        match result {
            Ok(lock) => {
                let fields = lock_fields(contents@);
                &&& lock_fault(contents@) is None
                &&& lock.legacy == (fields[0] == "v1"@)
                &&& lock.salt@ == hex::hex_bytes(field(fields, 1))
                &&& lock.salt@.len() == 16
                &&& lock.verifier@ == hex::hex_bytes(field(fields, 2))
                &&& lock.verifier@.len() == 32
            },
            Err(error) => lock_fault(contents@) == Some(error.fault),
        },
{
    let trimmed: Vec<char> = text::trim(text::chars_of(contents).as_slice());
    let fields: Vec<Vec<char>> = text::split(trimmed.as_slice(), ':');
    let ghost shown = text::char_lists(fields@);
    assert(shown.len() == fields@.len());
    let version: String = field_of(&fields, 0);
    assert(version@ == shown[0]);
    let current: bool = text::same(version.as_str(), "v2");
    let legacy: bool = text::same(version.as_str(), "v1");
    if !current && !legacy {
        return Err(VaultError::plain(Fault::UnsupportedLock));
    }
    let salt: Vec<u8> = match hex::hex_decode(field_of(&fields, 1).as_str()) {
        Some(bytes) => bytes,
        None => {
            return Err(VaultError::plain(Fault::InvalidLock));
        },
    };
    let verifier: Vec<u8> = match hex::hex_decode(field_of(&fields, 2).as_str()) {
        Some(bytes) => bytes,
        None => {
            return Err(VaultError::plain(Fault::InvalidLock));
        },
    };
    if salt.len() != 16 || verifier.len() != 32 || fields.len() > 3 {
        return Err(VaultError::plain(Fault::InvalidLock));
    }
    Ok(Lock { legacy, salt, verifier })
}

/// A key and the lock file that belongs to it.
#[derive(Debug)]
pub struct SecretLock {
    pub key: [u8; 32],
    pub contents: String,
}

impl SecretLock {
    /// Whether this is the lock that a password and a salt make.
    pub open spec fn made_of(&self, password: Seq<u8>, salt: Seq<u8>) -> bool {
        &&& material(password, salt).len() == 64
        &&& self.key@ == material(password, salt).take(32)
        &&& self.contents@ == lock_text(salt, material(password, salt).skip(32))
    }
}

fn key_of(bytes: &Vec<u8>) -> (key: [u8; 32])
    requires
        bytes@.len() >= 32,
    ensures
        key@ == bytes@.take(32),
{
    let mut key: [u8; 32] = [0u8; 32];
    let mut i: usize = 0;
    while i < 32
        invariant
            i <= 32,
            bytes@.len() >= 32,
            forall|k: int| 0 <= k < i ==> key@[k] == bytes@[k],
        decreases 32 - i,
    {
        key[i] = bytes[i];
        i += 1;
    }
    assert(key@ == bytes@.take(32));
    key
}

/// The lock that derived bytes and their salt make: the first half of the bytes
/// is the key, and the file keeps the other.
pub fn lock_of(derived: &Vec<u8>, salt: &[u8]) -> (lock: SecretLock)
    requires
        derived@.len() == 64,
    ensures
        lock.key@ == derived@.take(32),
        lock.contents@ == lock_text(salt@, derived@.skip(32)),
{
    let verifier: Vec<u8> = text::bytes_between(derived.as_slice(), 32, 64);
    assert(verifier@ == derived@.skip(32));
    let mut contents: String = text::owned("v2:");
    contents.append(hex::hex_encode(salt).as_str());
    contents.append(":");
    contents.append(hex::hex_encode(verifier.as_slice()).as_str());
    contents.append("\n");
    SecretLock { key: key_of(derived), contents }
}

/// Makes the lock of a password with a given salt.
pub fn lock_with_salt(password: &[u8], salt: &[u8]) -> (result: Result<SecretLock, VaultError>)
    ensures
        match result {
            Ok(lock) => derivable(password@, salt@) && lock.made_of(password@, salt@),
            Err(error) => !derivable(password@, salt@) && error.fault == Fault::Derivation
                && error.words() == derivation_words(password@, salt@),
        },
{
    match password_material(password, salt) {
        Ok(derived) => Ok(lock_of(&derived, salt)),
        Err(error) => Err(error),
    }
}

/// Makes the lock of a password with a salt of sixteen bytes that was drawn, or
/// says why none could be drawn.
pub fn lock_with_draw(password: &[u8], draw: Result<Vec<u8>, String>) -> (result: Result<
    SecretLock,
    VaultError,
>)
    requires
        draw matches Ok(salt) ==> salt@.len() == 16,
    ensures
        match (draw, result) {
            (Ok(salt), Ok(lock)) => password@.len() <= ARGON2_LIMIT && lock.made_of(
                password@,
                salt@,
            ),
            (Ok(_), Err(error)) => password@.len() > ARGON2_LIMIT && error.fault
                == Fault::Derivation && error.words() == "password is too long"@,
            (Err(detail), Ok(_)) => false,
            (Err(detail), Err(error)) => error.fault == Fault::Random && error.words() == detail@,
        },
{
    match draw {
        Ok(salt) => lock_with_salt(password, salt.as_slice()),
        Err(detail) => Err(VaultError::told(Fault::Random, detail)),
    }
}

/// Makes a lock for a password, with a salt drawn at random: the key, and what
/// the lock file is to hold.
pub fn create_secret_lock(password: &[u8]) -> (result: Result<SecretLock, VaultError>)
    ensures
        match result {
            Ok(lock) => password@.len() <= ARGON2_LIMIT && exists|salt: Seq<u8>|
                salt.len() == 16 && lock.made_of(password@, salt),
            Err(error) => (error.fault == Fault::Random && error.words().len() > 0) || (error.fault
                == Fault::Derivation && password@.len() > ARGON2_LIMIT && error.words() == "password is too long"@),
        },
{
    lock_with_draw(password, random_bytes(16))
}

/// Compares two byte strings of one length without stopping at a difference.
pub fn agree(a: &[u8], b: &[u8]) -> (yes: bool)
    requires
        a@.len() == b@.len(),
    ensures
        yes == (a@ == b@),
{
    let mut difference: u8 = 0;
    let mut i: usize = 0;
    while i < a.len()
        invariant
            i <= a@.len() == b@.len(),
            difference == 0 <==> (forall|k: int| 0 <= k < i ==> a@[k] == b@[k]),
        decreases a@.len() - i,
    {
        let x: u8 = a[i];
        let y: u8 = b[i];
        assert(difference | (x ^ y) == 0 <==> difference == 0 && x == y) by (bit_vector);
        difference = difference | (x ^ y);
        i += 1;
    }
    assert(difference == 0 ==> a@ == b@);
    difference == 0
}

/// The key in derived bytes, if their other half is the verifier of a lock.
pub fn key_if_known(derived: &Vec<u8>, verifier: &[u8]) -> (key: Option<[u8; 32]>)
    requires
        derived@.len() == 64,
        verifier@.len() == 32,
    ensures
        match key {
            Some(found) => derived@.skip(32) == verifier@ && found@ == derived@.take(32),
            None => derived@.skip(32) != verifier@,
        },
{
    let actual: Vec<u8> = text::bytes_between(derived.as_slice(), 32, 64);
    assert(actual@ == derived@.skip(32));
    if agree(actual.as_slice(), verifier) {
        Some(key_of(derived))
    } else {
        None
    }
}

/// What came of a password that was tried on a lock.
#[derive(Debug)]
pub enum Unlocked {
    /// The password does not fit.
    Wrong,
    /// The key.
    Key([u8; 32]),
    /// The password fits a lock of the first format; this one takes its place.
    Renewed(SecretLock),
}

/// Tries a password on the contents of a lock file.
pub fn unlock_secret(contents: &str, password: &[u8]) -> (result: Result<Unlocked, VaultError>)
    ensures
        ({
            let fields = lock_fields(contents@);
            let salt = hex::hex_bytes(field(fields, 1));
            let verifier = hex::hex_bytes(field(fields, 2));
            let legacy = fields[0] == "v1"@;
            let known = lock_fault(contents@) is None && password@.len() <= ARGON2_LIMIT;
            match result {
                Ok(Unlocked::Wrong) => known && verifier != (if legacy {
                    legacy_hash(password@, salt)
                } else {
                    material(password@, salt).skip(32)
                }),
                Ok(Unlocked::Key(key)) => known && !legacy && verifier == material(
                    password@,
                    salt,
                ).skip(32) && key@ == material(password@, salt).take(32),
                Ok(Unlocked::Renewed(lock)) => known && legacy && verifier == legacy_hash(
                    password@,
                    salt,
                ) && exists|fresh: Seq<u8>| fresh.len() == 16 && lock.made_of(password@, fresh),
                Err(error) => {
                    ||| lock_fault(contents@) == Some(error.fault)
                    ||| lock_fault(contents@) is None && error.fault == Fault::Derivation
                        && password@.len() > ARGON2_LIMIT && error.words()
                        == "password is too long"@
                    ||| known && legacy && verifier == legacy_hash(password@, salt) && error.fault
                        == Fault::Random && error.words().len() > 0
                },
            }
        }),
{
    let lock: Lock = match parse_lock(contents) {
        Ok(lock) => lock,
        Err(error) => {
            return Err(error);
        },
    };
    if lock.legacy {
        let actual: Vec<u8> = match legacy_password_hash(password, lock.salt.as_slice()) {
            Ok(bytes) => bytes,
            Err(error) => {
                return Err(error);
            },
        };
        if !agree(actual.as_slice(), lock.verifier.as_slice()) {
            return Ok(Unlocked::Wrong);
        }
        return match create_secret_lock(password) {
            Ok(renewed) => Ok(Unlocked::Renewed(renewed)),
            Err(error) => Err(error),
        };
    }
    match password_material(password, lock.salt.as_slice()) {
        Ok(derived) => match key_if_known(&derived, lock.verifier.as_slice()) {
            Some(key) => Ok(Unlocked::Key(key)),
            None => Ok(Unlocked::Wrong),
        },
        Err(error) => Err(error),
    }
}

/// Every lock opens with the password that it was made of, and gives the key
/// that was made with it.
pub proof fn law_a_lock_opens_with_its_password(
    lock: SecretLock,
    password: Seq<u8>,
    salt: Seq<u8>,
)
    requires
        salt.len() == 16,
        lock.made_of(password, salt),
    ensures
        lock_fault(lock.contents@) is None,
        lock_fields(lock.contents@)[0] == "v2"@,
        lock_fields(lock.contents@)[0] != "v1"@,
        hex::hex_bytes(field(lock_fields(lock.contents@), 1)) == salt,
        hex::hex_bytes(field(lock_fields(lock.contents@), 2)) == material(password, salt).skip(32),
        lock.key@ == material(password, salt).take(32),
{
    let verifier = material(password, salt).skip(32);
    lemma_lock_text(salt, verifier);
}

pub proof fn lemma_lock_text(salt: Seq<u8>, verifier: Seq<u8>)
    requires
        salt.len() == 16,
        verifier.len() == 32,
    ensures
        lock_fault(lock_text(salt, verifier)) is None,
        lock_fields(lock_text(salt, verifier)) == seq![
            "v2"@,
            hex::hex_text(salt),
            hex::hex_text(verifier),
        ],
        "v2"@ != "v1"@,
        hex::hex_bytes(field(lock_fields(lock_text(salt, verifier)), 1)) == salt,
        hex::hex_bytes(field(lock_fields(lock_text(salt, verifier)), 2)) == verifier,
{
    reveal_strlit("v2:");
    reveal_strlit("v2");
    reveal_strlit("v1");
    reveal_strlit(":");
    reveal_strlit("\n");
    let a = hex::hex_text(salt);
    let b = hex::hex_text(verifier);
    let line = "v2"@ + seq![':'] + (a + seq![':'] + b);
    assert(lock_text(salt, verifier) == line + seq!['\n']);
    assert("v2"@[1] != "v1"@[1]);
    assert forall|i: int| 0 <= i < a.len() implies a[i] != ':' by {
        hex::lemma_hex_characters(salt, i);
    }
    assert forall|i: int| 0 <= i < b.len() implies b[i] != ':' by {
        hex::lemma_hex_characters(verifier, i);
    }
    assert(line[0] == 'v');
    assert(line.last() == b.last());
    hex::lemma_hex_characters(verifier, b.len() - 1);
    text::lemma_trimmed_line(line);
    text::lemma_pieces_join("v2"@, ':', a + seq![':'] + b);
    text::lemma_pieces_join(a, ':', b);
    text::lemma_pieces_single(b, ':');
    let fields = lock_fields(lock_text(salt, verifier));
    assert(fields == seq!["v2"@, a, b]);
    hex::law_hex_reads_back(salt);
    hex::law_hex_reads_back(verifier);
}

/// An encrypted note: the mark, the nonce, and what was sealed under it.
pub open spec fn encrypted(key: Seq<u8>, nonce: Seq<u8>, plaintext: Seq<u8>) -> Seq<u8> {
    secret_magic() + nonce + xchacha_seal(key, nonce, plaintext)
}

/// What is read from a file of the secret shelf, or what is wrong with it.
pub open spec fn decrypted(key: Seq<u8>, bytes: Seq<u8>) -> Result<Seq<u8>, Fault> {
    let rest = bytes.skip(10);
    if !secret_magic().is_prefix_of(bytes) {
        Err(Fault::Unencrypted)
    } else if rest.len() < 24 {
        Err(Fault::Truncated)
    } else if rest.len() > CIPHER_LIMIT + 40 {
        Err(Fault::Damaged)
    } else {
        match xchacha_open(key, rest.take(24), rest.skip(24)) {
            Some(plaintext) => Ok(plaintext),
            None => Err(Fault::Damaged),
        }
    }
}

/// Whether bytes are an encrypted note with a plaintext: made under some nonce,
/// marked, longer than the plaintext by the mark, the nonce and the tag, and such
/// that the key reads the plaintext from them.
pub open spec fn encrypts(key: Seq<u8>, plaintext: Seq<u8>, bytes: Seq<u8>) -> bool {
    &&& exists|nonce: Seq<u8>| nonce.len() == 24 && bytes == encrypted(key, nonce, plaintext)
    &&& secret_magic().is_prefix_of(bytes)
    &&& bytes.len() == plaintext.len() + 50
    &&& decrypted(key, bytes) == Ok::<Seq<u8>, Fault>(plaintext)
}

/// Encrypts a note under a given nonce.
pub fn encrypt_with_nonce(key: &[u8; 32], nonce: &[u8], plaintext: &[u8]) -> (result: Result<
    Vec<u8>,
    VaultError,
>)
    requires
        nonce@.len() == 24,
    ensures
        match result {
            Ok(bytes) => plaintext@.len() <= CIPHER_LIMIT && bytes@ == encrypted(
                key@,
                nonce@,
                plaintext@,
            ) && bytes@.len() == plaintext@.len() + 50 && decrypted(key@, bytes@) == Ok::<
                Seq<u8>,
                Fault,
            >(plaintext@),
            Err(error) => plaintext@.len() > CIPHER_LIMIT && error.fault
                == Fault::EncryptionFailed,
        },
{
    if plaintext.len() as u64 > CIPHER_LIMIT {
        return Err(VaultError::plain(Fault::EncryptionFailed));
    }
    match seal(key, nonce, plaintext) {
        Some(sealed) => {
            let mut output: Vec<u8> = magic();
            output.extend_from_slice(nonce);
            output.extend_from_slice(sealed.as_slice());
            proof {
                assert(output@ == encrypted(key@, nonce@, plaintext@));
                let rest = output@.skip(10);
                assert(secret_magic() == output@.take(10));
                assert(rest.take(24) == nonce@);
                assert(rest.skip(24) == sealed@);
            }
            Ok(output)
        },
        None => Err(VaultError::plain(Fault::EncryptionFailed)),
    }
}

/// Encrypts a note under a nonce of twenty-four bytes that was drawn, or says why
/// none could be drawn.
pub fn encrypt_with_draw(key: &[u8; 32], draw: Result<Vec<u8>, String>, plaintext: &[u8]) -> (result:
    Result<Vec<u8>, VaultError>)
    requires
        draw matches Ok(nonce) ==> nonce@.len() == 24,
    ensures
        match (draw, result) {
            (Ok(nonce), Ok(bytes)) => plaintext@.len() <= CIPHER_LIMIT && bytes@ == encrypted(
                key@,
                nonce@,
                plaintext@,
            ) && encrypts(key@, plaintext@, bytes@),
            (Ok(_), Err(error)) => plaintext@.len() > CIPHER_LIMIT && error.fault
                == Fault::EncryptionFailed,
            (Err(detail), Ok(_)) => false,
            (Err(detail), Err(error)) => error.fault == Fault::Random && error.words() == detail@,
        },
{
    match draw {
        Ok(nonce) => {
            let result: Result<Vec<u8>, VaultError> = encrypt_with_nonce(
                key,
                nonce.as_slice(),
                plaintext,
            );
            proof {
                if let Ok(bytes) = &result {
                    assert(secret_magic() == bytes@.take(10));
                }
            }
            result
        },
        Err(detail) => Err(VaultError::told(Fault::Random, detail)),
    }
}

/// Encrypts a note under a nonce drawn at random.
pub fn encrypt_secret(key: &[u8; 32], plaintext: &[u8]) -> (result: Result<Vec<u8>, VaultError>)
    ensures
        match result {
            Ok(bytes) => plaintext@.len() <= CIPHER_LIMIT && encrypts(
                key@,
                plaintext@,
                bytes@,
            ),
            Err(error) => (error.fault == Fault::Random && error.words().len() > 0) || (error.fault
                == Fault::EncryptionFailed && plaintext@.len() > CIPHER_LIMIT),
        },
{
    encrypt_with_draw(key, random_bytes(24), plaintext)
}

/// What is not read as an encrypted note is refused as invalid. Bytes without the
/// mark are refused, whatever the key, and so are bytes with the mark that end
/// before the nonce does.
pub proof fn law_what_is_no_note_is_invalid(key: Seq<u8>, bytes: Seq<u8>)
    ensures
        decrypted(key, bytes) matches Err(fault) ==> fault.sort() == FaultKind::Invalid,
        !secret_magic().is_prefix_of(bytes) ==> decrypted(key, bytes) == Err::<Seq<u8>, Fault>(
            Fault::Unencrypted,
        ),
        secret_magic().is_prefix_of(bytes) && bytes.len() < 34 ==> decrypted(key, bytes) == Err::<
            Seq<u8>,
            Fault,
        >(Fault::Truncated),
{
}

/// Decrypts a note.
pub fn decrypt_secret(key: &[u8; 32], ciphertext: &[u8]) -> (result: Result<Vec<u8>, VaultError>)
    ensures
        match result {
            Ok(plaintext) => decrypted(key@, ciphertext@) == Ok::<Seq<u8>, Fault>(plaintext@)
                && ciphertext@.len() == plaintext@.len() + 50,
            Err(error) => decrypted(key@, ciphertext@) == Err::<Seq<u8>, Fault>(error.fault),
        },
{
    if !is_encrypted(ciphertext) {
        return Err(VaultError::plain(Fault::Unencrypted));
    }
    assert(ciphertext@.len() >= 10);
    if ciphertext.len() - 10 < 24 {
        return Err(VaultError::plain(Fault::Truncated));
    }
    if (ciphertext.len() - 10) as u64 > CIPHER_LIMIT + 40 {
        return Err(VaultError::plain(Fault::Damaged));
    }
    let nonce: Vec<u8> = text::bytes_between(ciphertext, 10, 34);
    let sealed: Vec<u8> = text::bytes_between(ciphertext, 34, ciphertext.len());
    proof {
        let rest = ciphertext@.skip(10);
        assert(nonce@ == rest.take(24));
        assert(sealed@ == rest.skip(24));
    }
    match open(key, nonce.as_slice(), sealed.as_slice()) {
        Some(plaintext) => Ok(plaintext),
        None => Err(VaultError::plain(Fault::Damaged)),
    }
}

/// Encrypted notes are marked by the name of their format, eight letters and a
/// digit, and a zero byte.
pub proof fn law_the_mark_is_a_name(i: int)
    requires
        0 <= i < 9,
    ensures
        secret_magic().len() == 10,
        secret_magic()[i] as char == "QWSECRET1"@[i],
        secret_magic()[9] == 0,
{
    reveal_strlit("QWSECRET1");
}

/// An encrypted note is the mark, then twenty-four bytes of nonce, then what was
/// sealed; and it is read in the same parts.
pub proof fn law_an_encrypted_note_has_three_parts(
    key: Seq<u8>,
    nonce: Seq<u8>,
    plaintext: Seq<u8>,
    sealed: Seq<u8>,
)
    requires
        nonce.len() == 24,
        sealed.len() <= CIPHER_LIMIT,
    ensures
        encrypted(key, nonce, plaintext).take(10) == secret_magic(),
        encrypted(key, nonce, plaintext).subrange(10, 34) == nonce,
        encrypted(key, nonce, plaintext).skip(34) == xchacha_seal(key, nonce, plaintext),
        decrypted(key, secret_magic() + nonce + sealed) == match xchacha_open(key, nonce, sealed) {
            Some(opened) => Ok::<Seq<u8>, Fault>(opened),
            None => Err::<Seq<u8>, Fault>(Fault::Damaged),
        },
{
    let bytes = secret_magic() + nonce + sealed;
    assert(bytes.take(10) == secret_magic());
    assert(bytes.skip(10).take(24) == nonce);
    assert(bytes.skip(10).skip(24) == sealed);
}

/// A key takes nineteen mebibytes of memory to derive from a password, in two
/// passes, and has half of the sixty-four bytes; a lock of the first format took
/// four.
pub proof fn law_keys_are_derived_from_passwords(password: Seq<u8>, salt: Seq<u8>)
    ensures
        material(password, salt) == argon2id((19 * 1024) as u32, 2, 1, password, salt, 64),
        legacy_hash(password, salt) == argon2id((4 * 1024) as u32, 2, 1, password, salt, 32),
        derivable(password, salt) <==> password.len() <= 0xffff_ffff && 8 <= salt.len()
            <= 0xffff_ffff,
        salt.len() < 8 && password.len() <= 0xffff_ffff ==> derivation_words(password, salt)
            == "salt is too short"@,
        password.len() > 0xffff_ffff ==> derivation_words(password, salt)
            == "password is too long"@,
{
}

/// A lock file names its format, and has two fields behind it: sixteen bytes of
/// salt and thirty-two to recognise the password by, all in hexadecimal. A line
/// feed behind it does not matter. Of another format, or with fields of another
/// length, it is refused.
#[verifier::spinoff_prover]
#[verifier::rlimit(40)]
pub proof fn law_lock_files_have_three_fields(
    format: Seq<char>,
    salt: Seq<u8>,
    verifier: Seq<u8>,
)
    requires
        !format.contains(':'),
        format.len() > 0,
        !text::space(format[0]),
        verifier.len() > 0,
    ensures
        ({
            let line = format + seq![':'] + (hex::hex_text(salt) + seq![':'] + hex::hex_text(
                verifier,
            ));
            &&& (format == "v1"@ || format == "v2"@) && salt.len() == 16 && verifier.len() == 32
                ==> lock_fault(line) is None && lock_fault(line + seq!['\n']) is None
            &&& format != "v1"@ && format != "v2"@ ==> lock_fault(line) == Some(
                Fault::UnsupportedLock,
            )
            &&& (format == "v1"@ || format == "v2"@) && (salt.len() != 16 || verifier.len() != 32)
                ==> lock_fault(line) == Some(Fault::InvalidLock)
            &&& lock_fields(line) == seq![format, hex::hex_text(salt), hex::hex_text(verifier)]
        }),
        lock_text(salt, verifier) == "v2"@ + seq![':'] + (hex::hex_text(salt) + seq![':']
            + hex::hex_text(verifier)) + seq!['\n'],
{
    let a = hex::hex_text(salt);
    let b = hex::hex_text(verifier);
    let line = format + seq![':'] + (a + seq![':'] + b);
    assert forall|i: int| 0 <= i < a.len() implies a[i] != ':' by {
        hex::lemma_hex_characters(salt, i);
    }
    assert forall|i: int| 0 <= i < b.len() implies b[i] != ':' by {
        hex::lemma_hex_characters(verifier, i);
    }
    assert(line[0] == format[0]);
    assert(line.last() == b.last());
    hex::lemma_hex_characters(verifier, b.len() - 1);
    text::lemma_trimmed_line(line);
    text::lemma_pieces_join(format, ':', a + seq![':'] + b);
    text::lemma_pieces_join(a, ':', b);
    text::lemma_pieces_single(b, ':');
    assert(seq![format] + (seq![a] + seq![b]) == seq![format, a, b]);
    hex::law_hex_reads_back(salt);
    hex::law_hex_reads_back(verifier);
    reveal_strlit("v2:");
    reveal_strlit("v2");
    reveal_strlit(":");
    reveal_strlit("\n");
    assert(lock_text(salt, verifier) == "v2"@ + seq![':'] + (a + seq![':'] + b) + seq!['\n']);
}

/// What each fault says, and of which kind it is.
pub proof fn law_faults_say_what_is_wrong(error: VaultError)
    ensures
        error.fault == Fault::UnsupportedLock ==> error.words() == "unsupported lock format"@,
        error.fault == Fault::InvalidLock ==> error.words() == "invalid lock data"@,
        error.fault == Fault::EncryptionFailed ==> error.words() == "encryption failed"@,
        error.fault == Fault::Unencrypted ==> error.words() == "unencrypted Secret Thoughts file"@,
        error.fault == Fault::Truncated ==> error.words() == "truncated encrypted file"@,
        error.fault == Fault::Damaged ==> error.words()
            == "wrong password or damaged encrypted file"@,
        error.fault == Fault::Locked ==> error.words() == "Secret Thoughts are locked"@,
        error.fault == Fault::InvalidText ==> error.words() == "invalid document text"@,
        error.fault == Fault::UnlockFirst ==> error.words() == "Unlock Secret Thoughts first"@,
        error.fault == Fault::Random || error.fault == Fault::Derivation ==> error.words()
            == error.detail@,
        error.fault.sort() == FaultKind::Denied <==> error.fault == Fault::Locked || error.fault
            == Fault::UnlockFirst,
        error.fault.sort() == FaultKind::Other <==> error.fault == Fault::Random || error.fault
            == Fault::Derivation || error.fault == Fault::EncryptionFailed,
{
}

} // verus!
