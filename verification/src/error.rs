//! Error types raised by the vault core.

use vstd::prelude::*;
use crate::strutil::dec_chars;
use crate::strutil::push_dec;

verus! {

/// A failure reported by the encrypted document store, mirrored as plain data
/// so that the rest of the library can match on it.
#[derive(Debug, Clone)]
pub enum StoreError {
    /// Reading or writing the backing file failed.
    Io(String),
    /// Turning the document into bytes failed.
    Serialization(String),
    /// Turning bytes back into the document failed.
    Deserialization(String),
    /// Encrypting the payload failed.
    Encryption(String),
    /// Wrong master password, or a corrupted file.
    DecryptionFailed,
    /// Deriving the encryption key from the master password failed.
    Kdf(String),
    /// The backing file is not a vault file.
    InvalidFormat(String),
    /// The backing file was written by a newer file-format revision.
    UnsupportedVersion(u8),
    /// The decrypted payload did not hold a vault document this revision accepts.
    CorruptPayload,
}

/// An error raised by the vault core.
#[derive(Debug)]
pub enum CoreError {
    /// Any failure from the encrypted document store.
    Vault(StoreError),
    /// `update` or `delete` named an id that is not in the document.
    NotFound(u128),
    /// The password generator was given no character class.
    EmptyCharset,
    /// The password generator was given length zero.
    InvalidLength,
}

/// The one-line description of a store failure.
pub open spec fn store_error_text(e: StoreError) -> Seq<char> {
    match e {
        StoreError::Io(m) => "I/O error: "@ + m@,
        StoreError::Serialization(m) => "Serialization error: "@ + m@,
        StoreError::Deserialization(m) => "Deserialization error: "@ + m@,
        StoreError::Encryption(m) => "Encryption error: "@ + m@,
        StoreError::DecryptionFailed => "Decryption failed \u{2014} wrong password or corrupted vault"@,
        StoreError::Kdf(m) => "Key derivation error: "@ + m@,
        StoreError::InvalidFormat(m) => "Invalid vault format: "@ + m@,
        StoreError::UnsupportedVersion(v) => "Unsupported vault version: "@ + dec_chars(v as nat),
        StoreError::CorruptPayload => "Invalid vault payload"@,
    }
}

/// The one-line description of a core error.
pub open spec fn core_error_text(e: CoreError) -> Seq<char> {
    match e {
        CoreError::Vault(inner) => "Vault error: "@ + store_error_text(inner),
        CoreError::NotFound(_) => "Secret not found"@,
        CoreError::EmptyCharset => "Password generator requires at least one character class"@,
        CoreError::InvalidLength => "Password length must be at least 1"@,
    }
}

impl StoreError {
    /// A one-line human-readable description.
    pub fn message(&self) -> (r: String)
        ensures
            r@ == store_error_text(*self),
    {
        let mut s = String::new();
        match self {
            StoreError::Io(m) => {
                s.append("I/O error: ");
                s.append(m.as_str());
            },
            StoreError::Serialization(m) => {
                s.append("Serialization error: ");
                s.append(m.as_str());
            },
            StoreError::Deserialization(m) => {
                s.append("Deserialization error: ");
                s.append(m.as_str());
            },
            StoreError::Encryption(m) => {
                s.append("Encryption error: ");
                s.append(m.as_str());
            },
            StoreError::DecryptionFailed => {
                s.append("Decryption failed \u{2014} wrong password or corrupted vault");
            },
            StoreError::Kdf(m) => {
                s.append("Key derivation error: ");
                s.append(m.as_str());
            },
            StoreError::InvalidFormat(m) => {
                s.append("Invalid vault format: ");
                s.append(m.as_str());
            },
            StoreError::UnsupportedVersion(v) => {
                s.append("Unsupported vault version: ");
                push_dec(&mut s, *v as u64);
            },
            StoreError::CorruptPayload => {
                s.append("Invalid vault payload");
            },
        }
        proof {
            assert(s@ =~= store_error_text(*self));
        }
        s
    }
}

impl CoreError {
    /// A one-line human-readable description.
    pub fn message(&self) -> (r: String)
        ensures
            r@ == core_error_text(*self),
    {
        let mut s = String::new();
        match self {
            CoreError::Vault(inner) => {
                s.append("Vault error: ");
                let t = inner.message();
                s.append(t.as_str());
            },
            CoreError::NotFound(_) => {
                s.append("Secret not found");
            },
            CoreError::EmptyCharset => {
                s.append("Password generator requires at least one character class");
            },
            CoreError::InvalidLength => {
                s.append("Password length must be at least 1");
            },
        }
        proof {
            assert(s@ =~= core_error_text(*self));
        }
        s
    }
}

} // verus!
