//! Error types of the cache and its encryption layer.
use vstd::prelude::*;
use crate::text::owned;

verus! {

/// The outside error that AES-GCM reports: it is deliberately opaque.
#[verifier::external_type_specification]
#[verifier::external_body]
pub struct ExAeadError(aes_gcm::aead::Error);

/// Everything that can go wrong in a cache operation. Failures of the
/// operating system and of the JSON codec are carried as their messages.
#[derive(Debug, Clone, PartialEq, Eq)]
pub enum CacheError {
    CleanupError(String),
    IoError(String),
    EncryptionError,
    DecryptionError,
    NotFound,
    SerializationError(String),
    DeserializationError(String),
    IntegrityError,
    CompressionError(String),
    DecompressionError(String),
}

/// What can go wrong while setting up the encryption service.
#[derive(Debug)]
pub enum EncryptionError {
    IoError(String),
    AeadError(aes_gcm::aead::Error),
}

/// The error of a general asynchronous operation.
#[derive(Debug, Clone, PartialEq, Eq)]
pub enum GeneralError {
    OperationFailed(String),
    /// An I/O failure, carried as the operating system's message.
    IoError(String),
}

impl GeneralError {
    /// The error's message: "Operation failed: <reason>", or the I/O
    /// error's own message.
    pub fn message(&self) -> (m: String)
        ensures
            match self {
                GeneralError::OperationFailed(r) => m@ == "Operation failed: "@ + r@,
                GeneralError::IoError(e) => m@ == e@,
            },
    {
        match self {
            GeneralError::OperationFailed(r) => {
                let mut m = owned("Operation failed: ");
                m.append(r.as_str());
                m
            },
            GeneralError::IoError(e) => e.clone(),
        }
    }
}

/// A failed file-system call: whether the file was missing, and the
/// operating system's message.
#[derive(Debug, Clone, PartialEq, Eq)]
pub struct IoFailure {
    pub not_found: bool,
    pub message: String,
}

/// The outcome of removing the cache file: a file that is already gone
/// counts as cleaned; any other failure is a `CleanupError` reading
/// "Failed to clean cache: <message>".
pub fn clean_cache_result(removal: Option<IoFailure>) -> (r: Result<(), CacheError>)
    ensures
        match removal {
            None => r is Ok,
            Some(f) => if f.not_found {
                r is Ok
            } else {
                r matches Err(CacheError::CleanupError(m)) && m@ == "Failed to clean cache: "@
                    + f.message@
            },
        },
{
    match removal {
        None => Ok(()),
        Some(f) => {
            if f.not_found {
                Ok(())
            } else {
                let mut m = owned("Failed to clean cache: ");
                m.append(f.message.as_str());
                Err(CacheError::CleanupError(m))
            }
        },
    }
}

} // verus!
