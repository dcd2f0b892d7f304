//! The requests and responses that a client and a server exchange.
use crate::error::{key_not_found_text, KvError};
use vstd::prelude::*;

verus! {

/// A client's request.
#[derive(Debug, Clone, PartialEq, Eq)]
pub enum Request {
    Put { key: String, value: String },
    Get { key: String },
    Remove { key: String },
}

/// A server's answer to one request.
#[derive(Debug, Clone, PartialEq, Eq)]
pub enum Response {
    /// Success, with the value where the request was a `Get` that found one.
    Success(Option<String>),
    NetworkError(String),
    StorageError(String),
}

/// What a client makes of a storage failure reported with the message `m`.
pub open spec fn storage_failure(m: String) -> KvError {
    if m@ == key_not_found_text() {
        KvError::KeyNotFound
    } else {
        KvError::RemoteStoreError(m)
    }
}

/// What a client makes of a response to a `Get`.
pub open spec fn value_result(res: Response) -> Result<Option<String>, KvError> {
    match res {
        Response::Success(v) => Ok(v),
        Response::NetworkError(m) => Err(KvError::RemoteNetworkError(m)),
        Response::StorageError(m) => Err(storage_failure(m)),
    }
}

/// What a client makes of a response to a `Put` or a `Remove`.
pub open spec fn unit_result(res: Response) -> Result<(), KvError> {
    match res {
        Response::Success(_) => Ok(()),
        Response::NetworkError(m) => Err(KvError::RemoteNetworkError(m)),
        Response::StorageError(m) => Err(storage_failure(m)),
    }
}

/// The error for a storage failure reported with the message `m`: a server
/// reports an absent key with the text of `KeyNotFound`, which is read back
/// as `KeyNotFound`.
pub fn storage_failure_of(m: String) -> (r: KvError)
    ensures
        r == storage_failure(m),
{
    let absent = KvError::KeyNotFound.message();
    if m == absent {
        KvError::KeyNotFound
    } else {
        KvError::RemoteStoreError(m)
    }
}

impl From<Response> for Result<Option<String>, KvError> {
    fn from(res: Response) -> (r: Self) {
        match res {
            Response::Success(v) => Ok(v),
            Response::NetworkError(m) => Err(KvError::RemoteNetworkError(m)),
            Response::StorageError(m) => Err(storage_failure_of(m)),
        }
    }
}

impl vstd::std_specs::convert::FromSpecImpl<Response> for Result<Option<String>, KvError> {
    open spec fn obeys_from_spec() -> bool {
        true
    }

    open spec fn from_spec(res: Response) -> Self {
        value_result(res)
    }
}

impl From<Response> for Result<(), KvError> {
    fn from(res: Response) -> (r: Self) {
        match res {
            Response::Success(_) => Ok(()),
            Response::NetworkError(m) => Err(KvError::RemoteNetworkError(m)),
            Response::StorageError(m) => Err(storage_failure_of(m)),
        }
    }
}

impl vstd::std_specs::convert::FromSpecImpl<Response> for Result<(), KvError> {
    open spec fn obeys_from_spec() -> bool {
        true
    }

    open spec fn from_spec(res: Response) -> Self {
        unit_result(res)
    }
}

} // verus!
