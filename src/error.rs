use vstd::prelude::*;

verus! {

/// The kinds of failure that the vault's operations report.
#[derive(Debug, Clone, Copy, PartialEq, Eq, Structural)]
pub enum VaultError {
    /// The master password does not match the stored hash.
    AuthenticationFailed,
    /// No secret, user or session is stored under the given key.
    NotFound,
    /// A secret with the requested name already exists.
    DuplicateName,
    /// A ciphertext could not be opened: wrong key, tampered or truncated data.
    DecryptionFailed,
    /// A plaintext could not be sealed (it is empty).
    EncryptionFailed,
    /// A password cannot be used: it is empty or too long.
    InvalidPassword,
    /// A salt cannot be used for key derivation: it is too short or too long.
    InvalidSalt,
    /// A decrypted value is not valid UTF-8 text.
    InvalidUtf8,
    /// A session token is malformed, unknown or has been tampered with.
    InvalidSessionToken,
    /// A session token is genuine but its lifetime has passed.
    SessionExpired,
    /// A template line does not have the form `NAME=VALUE`.
    ParseError,
    /// The stored data cannot take the requested change.
    StorageFailure,
}

impl VaultError {
    /// A short human-readable description of the error.
    pub fn message(&self) -> (r: &'static str) {
        match self {
            VaultError::AuthenticationFailed => "Invalid master password",
            VaultError::NotFound => "Not found",
            VaultError::DuplicateName => "A secret with that name already exists",
            VaultError::DecryptionFailed => "Failed to open encrypted value",
            VaultError::EncryptionFailed => "Failed to seal input value",
            VaultError::InvalidPassword => "Password must not be empty",
            VaultError::InvalidSalt => "Invalid salt",
            VaultError::InvalidUtf8 => "Value is not valid UTF-8",
            VaultError::InvalidSessionToken => "Invalid session token",
            VaultError::SessionExpired => "Session key has expired",
            VaultError::ParseError => "Failed to parse variable from string",
            VaultError::StorageFailure => "Storage failure",
        }
    }
}

} // verus!
