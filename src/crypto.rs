//! Key derivation, password hashing and authenticated encryption.
//!
//! The primitives themselves come from orion; what each call returns is
//! given a name here, and the vault's own functions are proved against those
//! names.
use vstd::prelude::*;
use vstd::string::*;
use vstd::utf8::*;

use crate::error::VaultError;

verus! {

/// Length in bytes of every symmetric key of the vault.
pub const KEY_LEN: usize = 32;

/// Length in bytes of the salt that key derivation uses.
pub const SALT_LEN: usize = 16;

/// Shortest salt that key derivation accepts.
pub const MIN_SALT_LEN: usize = 8;

/// Longest password or salt, in bytes, that key derivation accepts.
pub const MAX_KDF_INPUT_LEN: usize = 0xFFFF_FFFF;

/// Bytes that sealing adds to a plaintext: a 24-byte nonce and a 16-byte tag.
pub const SEAL_OVERHEAD: usize = 40;

/// Shortest encoded password hash that orion reads.
pub const MIN_ENCODED_HASH_LEN: usize = 92;

/// Longest encoded password hash that orion reads.
pub const MAX_ENCODED_HASH_LEN: usize = 110;

/// Argon2i passes, for key derivation and password hashing alike.
pub const KDF_ITERATIONS: u32 = 3;

/// Argon2i memory cost in KiB (64 MiB), for key derivation and password
/// hashing alike.
pub const KDF_MEMORY_KIB: u32 = 65536;

/// What authenticated decryption of ciphertext `c` under key `k` gives:
/// `Some(p)` when it opens to the plaintext `p`, `None` when it does not
/// open.
pub uninterp spec fn opened(k: Seq<u8>, c: Seq<u8>) -> Option<Seq<u8>>;

/// The key of `length` bytes that Argon2i derives from a password and a
/// salt with the given passes and memory cost.
pub uninterp spec fn argon2_output(
    password: Seq<char>,
    salt: Seq<u8>,
    iterations: u32,
    memory: u32,
    length: u32,
) -> Seq<u8>;

/// The vault key that a password and a salt give.
pub open spec fn kdf_output(password: Seq<char>, salt: Seq<u8>) -> Seq<u8> {
    argon2_output(password, salt, KDF_ITERATIONS, KDF_MEMORY_KIB, KEY_LEN as u32)
}

/// The decimal digits of `n`, without leading zeros.
pub open spec fn decimal(n: nat) -> Seq<char>
    decreases n,
{
    let digits = seq!['0', '1', '2', '3', '4', '5', '6', '7', '8', '9'];
    if n < 10 {
        seq![digits[n as int]]
    } else {
        decimal(n / 10).push(digits[(n % 10) as int])
    }
}

/// The start of an encoded Argon2i password hash with the given memory cost
/// (KiB) and passes: `$argon2i$v=19$m=<memory>,t=<passes>,p=1$`.
pub open spec fn hash_prefix(memory: nat, iterations: nat) -> Seq<char> {
    "$argon2i$v=19$m="@ + decimal(memory) + ",t="@ + decimal(iterations) + ",p=1$"@
}

/// Whether a password verifies against an encoded password hash.
pub uninterp spec fn password_matches(password: Seq<char>, encoded: Seq<char>) -> bool;

/// A symmetric key of the vault: always exactly `KEY_LEN` bytes.
pub struct Key {
    bytes: Vec<u8>,
}

impl View for Key {
    type V = Seq<u8>;

    closed spec fn view(&self) -> Seq<u8> {
        self.bytes@
    }
}

impl Key {
    #[verifier::type_invariant]
    spec fn inv(&self) -> bool {
        self.bytes@.len() == KEY_LEN
    }

    /// Makes a key from raw bytes; `None` unless there are exactly `KEY_LEN` of them.
    pub fn from_bytes(bytes: Vec<u8>) -> (r: Option<Key>)
        ensures
            r is Some <==> bytes@.len() == KEY_LEN,
            r matches Some(k) ==> k@ == bytes@,
    {
        if bytes.len() == KEY_LEN {
            Some(Key { bytes })
        } else {
            None
        }
    }

    /// A fresh random key.
    pub fn generate() -> (r: Key)
        ensures
            r@.len() == KEY_LEN,
    {
        let bytes = random_key_bytes();
        Key { bytes }
    }

    /// The raw key bytes.
    pub fn as_bytes(&self) -> (r: &Vec<u8>)
        ensures
            r@ == self@,
            r@.len() == KEY_LEN,
    {
        proof {
            use_type_invariant(self);
        }
        &self.bytes
    }

    /// A copy of the key.
    pub fn duplicate(&self) -> (r: Key)
        ensures
            r@ == self@,
    {
        proof {
            use_type_invariant(self);
        }
        let mut bytes: Vec<u8> = Vec::new();
        let mut i: usize = 0;
        while i < self.bytes.len()
            invariant
                i <= self.bytes@.len(),
                bytes@ == self.bytes@.subrange(0, i as int),
            decreases self.bytes@.len() - i,
        {
            bytes.push(self.bytes[i]);
            i = i + 1;
        }
        assert(bytes@ == self.bytes@);
        Key { bytes }
    }
}

/// What `decrypt` gives for a key and a ciphertext.
pub open spec fn decryption(k: Seq<u8>, c: Seq<u8>) -> Result<Seq<u8>, VaultError> {
    match opened(k, c) {
        Some(p) => Ok(p),
        None => Err(VaultError::DecryptionFailed),
    }
}

/// `c` is a sealing of `p` under `k`: it opens under `k` to exactly `p`.
pub open spec fn seals(k: Seq<u8>, p: Seq<u8>, c: Seq<u8>) -> bool {
    opened(k, c) == Some(p)
}

/// The byte length of a password as key derivation and hashing see it.
pub open spec fn password_len(password: &str) -> nat {
    password.spec_bytes().len()
}

/// A password that the hashing and derivation primitives accept.
pub open spec fn usable_password(password: &str) -> bool {
    0 < password_len(password) <= MAX_KDF_INPUT_LEN
}

/// What `derive_key` gives for a password and a salt.
pub open spec fn derivation(password: &str, salt: Seq<u8>) -> Result<Seq<u8>, VaultError> {
    if !usable_password(password) {
        Err(VaultError::InvalidPassword)
    } else if salt.len() < MIN_SALT_LEN || salt.len() > MAX_KDF_INPUT_LEN {
        Err(VaultError::InvalidSalt)
    } else {
        Ok(kdf_output(password@, salt))
    }
}

/// Relies on orion's `kdf::derive_key` (Argon2i): deterministic in its
/// arguments; with at least 3 passes, a memory cost from 8 to 65536 KiB and
/// a 32-byte output it fails only on an empty password, on a salt shorter
/// than 8 bytes, or on inputs longer than `u32::MAX` bytes.
#[verifier::external_body]
fn argon2_derive(password: &str, salt: &[u8], iterations: u32, memory: u32, length: u32) -> (r:
    Option<Vec<u8>>)
    ensures
        r matches Some(k) ==> k@ == argon2_output(password@, salt@, iterations, memory, length)
            && k@.len() == length,
        (usable_password(password) && MIN_SALT_LEN <= salt@.len() <= MAX_KDF_INPUT_LEN
            && iterations >= 3 && 8 <= memory <= 65536 && length == 32) ==> r is Some,
{
    let password = orion::kdf::Password::from_slice(password.as_bytes()).ok()?;
    let salt = orion::kdf::Salt::from_slice(salt).ok()?;
    let key = orion::kdf::derive_key(&password, &salt, iterations, memory, length).ok()?;
    Some(key.unprotected_as_bytes().to_vec())
}

/// Relies on orion's `pwhash::hash_password` (Argon2i) and
/// `PasswordHash::unprotected_as_encoded`: the encoded hash carries its own
/// random salt and its cost parameters, and verifies against the password it
/// was made from; with at least 3 passes and a memory cost from 8 to 65536
/// KiB it fails only on an empty password or one longer than `u32::MAX`
/// bytes.
#[verifier::external_body]
fn argon2_hash(password: &str, iterations: u32, memory: u32) -> (r: Option<String>)
    ensures
        r matches Some(h) ==> password_matches(password@, h@) && hash_prefix(
            memory as nat,
            iterations as nat,
        ).is_prefix_of(h@),
        (usable_password(password) && iterations >= 3 && 8 <= memory <= 65536) ==> r is Some,
{
    let password = orion::pwhash::Password::from_slice(password.as_bytes()).ok()?;
    let hash = orion::pwhash::hash_password(&password, iterations, memory).ok()?;
    Some(hash.unprotected_as_encoded().to_string())
}

/// Relies on orion's `PasswordHash::from_encoded` and
/// `pwhash::hash_password_verify`: the answer depends on the password and the
/// encoded hash alone (a malformed hash or a password that orion refuses
/// gives `false`, as does any encoding shorter than 92 or longer than 110
/// bytes).
#[verifier::external_body]
fn argon2_verify(password: &str, encoded: &str) -> (r: bool)
    ensures
        r == password_matches(password@, encoded@),
        (encoded.spec_bytes().len() < MIN_ENCODED_HASH_LEN || encoded.spec_bytes().len()
            > MAX_ENCODED_HASH_LEN) ==> !r,
{
    let hash = match orion::pwhash::PasswordHash::from_encoded(encoded) {
        Ok(h) => h,
        Err(_) => return false,
    };
    match orion::pwhash::Password::from_slice(password.as_bytes()) {
        Ok(p) => orion::pwhash::hash_password_verify(&hash, &p).is_ok(),
        Err(_) => false,
    }
}

/// Relies on orion's `kdf::Salt::default`: 16 random bytes.
#[verifier::external_body]
fn random_salt_bytes() -> (r: Vec<u8>)
    ensures
        r@.len() == SALT_LEN,
{
    orion::kdf::Salt::default().as_ref().to_vec()
}

/// Relies on orion's `aead::SecretKey::default`: 32 random bytes.
#[verifier::external_body]
fn random_key_bytes() -> (r: Vec<u8>)
    ensures
        r@.len() == KEY_LEN,
{
    orion::aead::SecretKey::default().unprotected_as_bytes().to_vec()
}

/// Relies on orion's `aead::seal` (XChaCha20-Poly1305 with a random nonce):
/// the result opens under the same key to the plaintext; it fails only on an
/// empty plaintext or a key that is not 32 bytes.
#[verifier::external_body]
fn aead_seal(key: &Vec<u8>, plaintext: &[u8]) -> (r: Option<Vec<u8>>)
    ensures
        r matches Some(c) ==> opened(key@, c@) == Some(plaintext@) && c@.len() == plaintext@.len()
            + SEAL_OVERHEAD,
        (key@.len() == KEY_LEN && plaintext@.len() > 0) ==> r is Some,
{
    let key = orion::aead::SecretKey::from_slice(key).ok()?;
    orion::aead::seal(&key, plaintext).ok()
}

/// Relies on orion's `aead::open`: deterministic in key and ciphertext; it
/// fails on a wrong key and on tampered or truncated data.
#[verifier::external_body]
pub(crate) fn aead_open(key: &Vec<u8>, ciphertext: &[u8]) -> (r: Option<Vec<u8>>)
    ensures
        r matches Some(p) ==> opened(key@, ciphertext@) == Some(p@),
        r is None ==> opened(key@, ciphertext@) is None,
        ciphertext@.len() <= SEAL_OVERHEAD ==> r is None,
{
    let key = orion::aead::SecretKey::from_slice(key).ok()?;
    orion::aead::open(&key, ciphertext).ok()
}

/// Relies on `std::str::from_utf8`: it succeeds exactly on valid UTF-8, and
/// the text it gives has the same bytes.
#[verifier::external_body]
pub(crate) fn utf8_text(bytes: &[u8]) -> (r: Option<String>)
    ensures
        r is Some <==> valid_utf8(bytes@),
        r matches Some(s) ==> encode_utf8(s@) == bytes@,
{
    match std::str::from_utf8(bytes) {
        Ok(s) => Some(s.to_string()),
        Err(_) => None,
    }
}

/// Derives the vault key from a password and a salt.
pub fn derive_key(password: &str, salt: &[u8]) -> (r: Result<Key, VaultError>)
    ensures
        match r {
            Ok(k) => derivation(password, salt@) == Ok::<Seq<u8>, VaultError>(k@),
            Err(e) => derivation(password, salt@) == Err::<Seq<u8>, VaultError>(e),
        },
{
    let n = password.as_bytes().len();
    if n == 0 || n > MAX_KDF_INPUT_LEN {
        return Err(VaultError::InvalidPassword);
    }
    if salt.len() < MIN_SALT_LEN || salt.len() > MAX_KDF_INPUT_LEN {
        return Err(VaultError::InvalidSalt);
    }
    match argon2_derive(password, salt, KDF_ITERATIONS, KDF_MEMORY_KIB, KEY_LEN as u32) {
        Some(bytes) => Ok(Key { bytes }),
        None => Err(VaultError::InvalidPassword),
    }
}

/// A fresh random salt for key derivation.
pub fn generate_salt() -> (r: Vec<u8>)
    ensures
        r@.len() == SALT_LEN,
{
    random_salt_bytes()
}

/// Hashes a password for storage; the hash carries its own random salt.
pub fn hash_password(password: &str) -> (r: Result<String, VaultError>)
    ensures
        r is Ok <==> usable_password(password),
        r matches Ok(h) ==> password_matches(password@, h@) && hash_prefix(
            KDF_MEMORY_KIB as nat,
            KDF_ITERATIONS as nat,
        ).is_prefix_of(h@),
        r matches Err(e) ==> e == VaultError::InvalidPassword,
{
    let n = password.as_bytes().len();
    if n == 0 || n > MAX_KDF_INPUT_LEN {
        return Err(VaultError::InvalidPassword);
    }
    match argon2_hash(password, KDF_ITERATIONS, KDF_MEMORY_KIB) {
        Some(h) => Ok(h),
        None => Err(VaultError::InvalidPassword),
    }
}

/// Whether `password` matches an encoded password hash; `false` on a
/// malformed hash.
pub fn verify_hash(password: &str, hash: &str) -> (r: bool)
    ensures
        r == password_matches(password@, hash@),
        (hash.spec_bytes().len() < MIN_ENCODED_HASH_LEN || hash.spec_bytes().len()
            > MAX_ENCODED_HASH_LEN) ==> !r,
{
    argon2_verify(password, hash)
}

/// Seals `bytes` under `key`; only an empty plaintext cannot be sealed.
pub fn encrypt(key: &Key, bytes: &[u8]) -> (r: Result<Vec<u8>, VaultError>)
    ensures
        r is Ok <==> bytes@.len() > 0,
        r matches Ok(c) ==> seals(key@, bytes@, c@) && c@.len() == bytes@.len() + SEAL_OVERHEAD,
        r matches Err(e) ==> e == VaultError::EncryptionFailed,
{
    proof {
        use_type_invariant(key);
    }
    if bytes.len() == 0 {
        return Err(VaultError::EncryptionFailed);
    }
    match aead_seal(&key.bytes, bytes) {
        Some(c) => Ok(c),
        None => Err(VaultError::EncryptionFailed),
    }
}

/// Opens a ciphertext sealed under `key`; fails with `DecryptionFailed` on a
/// wrong key or tampered or truncated data.
pub fn decrypt(key: &Key, bytes: &[u8]) -> (r: Result<Vec<u8>, VaultError>)
    ensures
        match r {
            Ok(p) => decryption(key@, bytes@) == Ok::<Seq<u8>, VaultError>(p@),
            Err(e) => decryption(key@, bytes@) == Err::<Seq<u8>, VaultError>(e),
        },
        bytes@.len() <= SEAL_OVERHEAD ==> r == Err::<Vec<u8>, VaultError>(VaultError::DecryptionFailed),
{
    match aead_open(&key.bytes, bytes) {
        Some(p) => Ok(p),
        None => Err(VaultError::DecryptionFailed),
    }
}

/// Decrypting what was encrypted under the same key gives back the plaintext.
pub proof fn lemma_decrypt_encrypt(k: Seq<u8>, p: Seq<u8>, c: Seq<u8>)
    requires
        seals(k, p, c),
    ensures
        decryption(k, c) == Ok::<Seq<u8>, VaultError>(p),
{
}

/// Key derivation is deterministic: the same password and salt give the same
/// result.
pub proof fn lemma_derive_key_deterministic(p1: &str, s1: Seq<u8>, p2: &str, s2: Seq<u8>)
    requires
        p1@ == p2@,
        s1 == s2,
    ensures
        derivation(p1, s1) == derivation(p2, s2),
{
    assert(p1.spec_bytes() == p2.spec_bytes());
}

} // verus!
