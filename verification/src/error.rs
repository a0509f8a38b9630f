//! The failures the credential store reports to its callers.

use vstd::prelude::*;

verus! {

/// Why an operation on the credential store was refused or gave up.
#[derive(Debug, PartialEq, Eq)]
pub enum StoreError {
    /// An encrypted read or write needs the PIN, and none is cached.
    AuthRequired,
    /// The PIN presented as the current one does not verify.
    InvalidCredential,
    /// The new PIN and its confirmation differ.
    Mismatch,
    /// A ciphertext does not authenticate, or does not hold text.
    DecryptionError,
    /// No profile goes by the name that was given.
    NotFound,
    /// The only profile left cannot be deleted.
    LastProfile,
    /// A PIN hash is malformed, or hashing itself failed.
    HashingError,
    /// The store could not take or hold the data; the text says what failed.
    StorageError(String),
}

/// A [`StoreError`] as a mathematical value.
pub enum Failure {
    AuthRequired,
    InvalidCredential,
    Mismatch,
    DecryptionError,
    NotFound,
    LastProfile,
    HashingError,
    StorageError(Seq<char>),
}

impl View for StoreError {
    type V = Failure;

    open spec fn view(&self) -> Failure {
        match self {
            StoreError::AuthRequired => Failure::AuthRequired,
            StoreError::InvalidCredential => Failure::InvalidCredential,
            StoreError::Mismatch => Failure::Mismatch,
            StoreError::DecryptionError => Failure::DecryptionError,
            StoreError::NotFound => Failure::NotFound,
            StoreError::LastProfile => Failure::LastProfile,
            StoreError::HashingError => Failure::HashingError,
            StoreError::StorageError(context) => Failure::StorageError(context@),
        }
    }
}

/// The sentence shown to the user for each failure.
pub open spec fn failure_text(failure: Failure) -> Seq<char> {
    match failure {
        Failure::AuthRequired => "PIN authentication required. Please login again."@,
        Failure::InvalidCredential => "Current PIN is incorrect"@,
        Failure::Mismatch => "New PIN and confirmation do not match"@,
        Failure::DecryptionError => "Decryption failed"@,
        Failure::NotFound => "Profile not found"@,
        Failure::LastProfile => "Cannot delete the last profile"@,
        Failure::HashingError => "Failed to hash or verify the PIN"@,
        Failure::StorageError(context) => context,
    }
}

impl StoreError {
    /// The sentence shown to the user for this failure.
    pub fn message(&self) -> (text: String)
        ensures
            text@ == failure_text(self@),
    {
        match self {
            StoreError::AuthRequired => "PIN authentication required. Please login again.".to_owned(),
            StoreError::InvalidCredential => "Current PIN is incorrect".to_owned(),
            StoreError::Mismatch => "New PIN and confirmation do not match".to_owned(),
            StoreError::DecryptionError => "Decryption failed".to_owned(),
            StoreError::NotFound => "Profile not found".to_owned(),
            StoreError::LastProfile => "Cannot delete the last profile".to_owned(),
            StoreError::HashingError => "Failed to hash or verify the PIN".to_owned(),
            StoreError::StorageError(context) => context.clone(),
        }
    }
}

/// The result of an operation with its failure as a mathematical value.
pub open spec fn outcome<T>(res: Result<T, StoreError>) -> Result<T, Failure> {
    match res {
        Ok(value) => Ok(value),
        Err(e) => Err(e@),
    }
}

} // verus!
