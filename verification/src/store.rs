//! The boundary to the encrypted document store.
//!
//! The store keeps one encrypted file per vault; everything it does — key
//! derivation, authenticated encryption, atomic writes — is outside this
//! library and reached only through the declarations below.

use vstd::prelude::*;
use crate::error::StoreError;

verus! {

#[verifier::external_type_specification]
#[verifier::external_body]
pub struct ExVaultFile(serdevault::VaultFile);

#[verifier::external_type_specification]
#[verifier::external_body]
pub struct ExSerdeVaultError(serdevault::SerdeVaultError);

/// Relies on `serdevault::VaultFile::open`: builds a handle from a path and a
/// master password; no I/O happens until a load or a save.
#[verifier::external_body]
pub(crate) fn open_vault_file(path: &str, password: &str) -> serdevault::VaultFile {
    serdevault::VaultFile::open(path, password)
}

/// Relies on `serdevault::VaultFile::exists`: whether the backing file is on
/// disk right now. Nothing is promised of the value.
#[verifier::external_body]
pub(crate) fn vault_file_exists(v: &serdevault::VaultFile) -> bool {
    v.exists()
}

/// Relies on `serdevault::VaultFile::save` with a text payload: serializes the
/// text, encrypts it under the handle's master password, and writes the file
/// atomically. Nothing is promised of the outcome.
#[verifier::external_body]
pub(crate) fn vault_save_text(
    v: &serdevault::VaultFile,
    payload: &String,
) -> Result<(), serdevault::SerdeVaultError> {
    v.save(payload)
}

/// Relies on `serdevault::VaultFile::load` with a text payload: reads the
/// file, decrypts it under the handle's master password, and deserializes the
/// text. Nothing is promised of the value.
#[verifier::external_body]
pub(crate) fn vault_load_text(
    v: &serdevault::VaultFile,
) -> Result<String, serdevault::SerdeVaultError> {
    v.load::<String>()
}

/// Relies on `std::path::Path::exists`: whether a file is at the path right
/// now. Nothing is promised of the value.
#[verifier::external_body]
pub(crate) fn path_exists(p: &str) -> bool {
    std::path::Path::new(p).exists()
}

/// Relies on `serdevault::SerdeVaultError`: mirrors each variant of the store
/// failure as plain library data, rendering carried causes through `Display`.
#[verifier::external_body]
pub(crate) fn store_error_of(e: serdevault::SerdeVaultError) -> StoreError {
    match e {
        serdevault::SerdeVaultError::IoError(c) => StoreError::Io(format!("{c}")),
        serdevault::SerdeVaultError::SerializationError(m) => StoreError::Serialization(m),
        serdevault::SerdeVaultError::DeserializationError(m) => StoreError::Deserialization(m),
        serdevault::SerdeVaultError::EncryptionError(m) => StoreError::Encryption(m),
        serdevault::SerdeVaultError::DecryptionFailed => StoreError::DecryptionFailed,
        serdevault::SerdeVaultError::KdfError(m) => StoreError::Kdf(m),
        serdevault::SerdeVaultError::InvalidFormat(m) => StoreError::InvalidFormat(m),
        serdevault::SerdeVaultError::UnsupportedVersion(n) => StoreError::UnsupportedVersion(n),
    }
}

} // verus!
