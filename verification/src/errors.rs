//! Error taxonomy of the blob coordinator and of its clients.

use vstd::prelude::*;

verus! {

/// Errors of the blob lock and offset-allocation engine.
///
/// `DuplicateKeys`, `AlreadyExists` and `ProhibitedKey` are validation
/// failures, detected before any mutation. `CreateNotLocked`, `WrongNode` and
/// `LockExpired` mean the caller's lease is gone or was never held.
/// `DoesNotExist` and `NotWritten` are read-path results. `OffsetOverflow`
/// rejects a batch whose bytes cannot fit a slot's remaining `u64` range.
#[derive(Debug, Clone, PartialEq, Eq)]
pub enum BlobError {
    AlreadyExists(String),
    CreateNotLocked,
    DuplicateKeys,
    DoesNotExist(String),
    NotWritten,
    WrongNode,
    LockExpired,
    ProhibitedKey(String),
    OffsetOverflow,
}

/// Spec-level mirror of `BlobError`, with key payloads as character sequences.
pub enum BlobErrorModel {
    AlreadyExists(Seq<char>),
    CreateNotLocked,
    DuplicateKeys,
    DoesNotExist(Seq<char>),
    NotWritten,
    WrongNode,
    LockExpired,
    ProhibitedKey(Seq<char>),
    OffsetOverflow,
}

impl View for BlobError {
    type V = BlobErrorModel;

    open spec fn view(&self) -> BlobErrorModel {
        match self {
            BlobError::AlreadyExists(k) => BlobErrorModel::AlreadyExists(k@),
            BlobError::CreateNotLocked => BlobErrorModel::CreateNotLocked,
            BlobError::DuplicateKeys => BlobErrorModel::DuplicateKeys,
            BlobError::DoesNotExist(k) => BlobErrorModel::DoesNotExist(k@),
            BlobError::NotWritten => BlobErrorModel::NotWritten,
            BlobError::WrongNode => BlobErrorModel::WrongNode,
            BlobError::LockExpired => BlobErrorModel::LockExpired,
            BlobError::ProhibitedKey(k) => BlobErrorModel::ProhibitedKey(k@),
            BlobError::OffsetOverflow => BlobErrorModel::OffsetOverflow,
        }
    }
}

impl BlobError {
    /// The fixed description of each error, as the coordinator reports it.
    pub open spec fn message_spec(&self) -> Seq<char> {
        match self {
            BlobError::AlreadyExists(_) => "Blob already exists"@,
            BlobError::CreateNotLocked => "Blob create not locked"@,
            BlobError::DuplicateKeys => "Blob duplicate keys"@,
            BlobError::DoesNotExist(_) => "Blob does not exist"@,
            BlobError::NotWritten => "Blob is not written"@,
            BlobError::WrongNode => "Blob is locked by another node"@,
            BlobError::LockExpired => "Blob lock expired"@,
            BlobError::ProhibitedKey(_) => "Blob key is prohibited"@,
            BlobError::OffsetOverflow => "Blob offset would overflow"@,
        }
    }

    /// Renders the error as a human-readable message.
    pub fn message(&self) -> (r: String)
        ensures
            r@ == self.message_spec(),
    {
        match self {
            BlobError::AlreadyExists(_) => String::from_str("Blob already exists"),
            BlobError::CreateNotLocked => String::from_str("Blob create not locked"),
            BlobError::DuplicateKeys => String::from_str("Blob duplicate keys"),
            BlobError::DoesNotExist(_) => String::from_str("Blob does not exist"),
            BlobError::NotWritten => String::from_str("Blob is not written"),
            BlobError::WrongNode => String::from_str("Blob is locked by another node"),
            BlobError::LockExpired => String::from_str("Blob lock expired"),
            BlobError::ProhibitedKey(_) => String::from_str("Blob key is prohibited"),
            BlobError::OffsetOverflow => String::from_str("Blob offset would overflow"),
        }
    }
}

/// Errors that a blob client reports back to the coordinator's job layer.
#[derive(Debug, Clone, PartialEq, Eq)]
pub enum ClientError {
    /// Some download urls failed; the vector holds the urls that failed.
    DownloadFailed { urls: Vec<String> },
    /// Some IO error occurred on the client.
    IoError,
    /// Some HTTP transport error occurred on the client.
    ReqwestError,
    /// A blob error occurred while locking a blob for creation.
    BlobCreateLockError,
    /// A blob error occurred while unlocking a blob.
    BlobUnlockError,
}

} // verus!
