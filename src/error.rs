//! Errors of the store.
use vstd::prelude::*;

verus! {

/// Declares `std::io::Error`, carried opaquely by [`KvError::Io`].
#[verifier::external_type_specification]
#[verifier::external_body]
pub struct ExIoError(std::io::Error);

/// Declares `sled::Error`, carried opaquely by [`KvError::Sled`].
#[verifier::external_type_specification]
#[verifier::external_body]
pub struct ExSledError(sled::Error);

/// Declares `rayon::ThreadPoolBuildError`, carried opaquely by [`KvError::ThreadPool`].
#[verifier::external_type_specification]
#[verifier::external_body]
pub struct ExThreadPoolBuildError(rayon::ThreadPoolBuildError);

/// Text of the error for a key that is not in the store; a server sends it
/// back so that a client can tell an absent key from a storage failure.
pub open spec fn key_not_found_text() -> Seq<char> {
    "Key not found"@
}

/// Whether `m` is the message of `e`, as far as it is fixed by `e`.
pub open spec fn describes(e: KvError, m: Seq<char>) -> bool {
    &&& e is KeyNotFound ==> m == key_not_found_text()
    &&& e is Utf8 ==> m == "stored value is not valid UTF-8"@
    &&& e is UnKnownCommandType ==> m == "the command is unknown"@
    &&& e is UnKnownEngineType ==> m == "the engine type is unknown"@
    &&& e matches KvError::Encoding(t) ==> m == t@
    &&& e matches KvError::RemoteNetworkError(t) ==> m == t@
    &&& e matches KvError::RemoteStoreError(t) ==> m == t@
}

/// Everything that can go wrong in the store.
#[derive(Debug)]
pub enum KvError {
    /// A file or socket operation failed.
    Io(std::io::Error),
    /// Bytes that should hold a log record or a protocol message do not.
    Encoding(String),
    /// The embedded tree backend failed.
    Sled(sled::Error),
    /// A stored value is not valid UTF-8.
    Utf8,
    /// The key is not in the store.
    KeyNotFound,
    /// A log record of an unexpected kind was found where a value was expected.
    UnKnownCommandType,
    /// The backend asked for conflicts with the one the directory was made with.
    UnKnownEngineType,
    /// The work-stealing pool could not be built.
    ThreadPool(rayon::ThreadPoolBuildError),
    /// A server reported a network failure.
    RemoteNetworkError(String),
    /// A server reported a storage failure.
    RemoteStoreError(String),
}

impl KvError {
    /// A human-readable description of the error.
    pub fn message(&self) -> (r: String)
        ensures
            describes(*self, r@),
    {
        match self {
            KvError::Io(e) => e.to_string(),
            KvError::Encoding(m) => m.clone(),
            KvError::Sled(e) => e.to_string(),
            KvError::Utf8 => "stored value is not valid UTF-8".to_string(),
            KvError::KeyNotFound => {
                let r = "Key not found".to_string();
                proof {
                    reveal_strlit("Key not found");
                }
                r
            },
            KvError::UnKnownCommandType => "the command is unknown".to_string(),
            KvError::UnKnownEngineType => "the engine type is unknown".to_string(),
            KvError::ThreadPool(e) => e.to_string(),
            KvError::RemoteNetworkError(m) => m.clone(),
            KvError::RemoteStoreError(m) => m.clone(),
        }
    }
}

} // verus!
