//! Storage backends as a server sees them, and the handling of one request.
use crate::error::{describes, KvError};
use crate::protocol::{unit_result, value_result, Request, Response};
use vstd::prelude::*;

verus! {

/// A storage backend that the handlers of a server share: each handler holds
/// a clone, and every clone reaches the same store.
///
/// Each backend says, through the `*_answer` predicates, what its answers
/// may be for a given key; what it holds lives outside the program. A
/// backend that says nothing may answer anything.
pub trait KvsEngine: Clone + Send + 'static {
    /// Whether `r` may answer a `set` of `key` to `value`.
    open spec fn set_answer(&self, key: Seq<char>, value: Seq<char>, r: Result<(), KvError>) -> bool {
        true
    }

    /// Whether `r` may answer a `get` of `key`.
    open spec fn get_answer(&self, key: Seq<char>, r: Result<Option<String>, KvError>) -> bool {
        true
    }

    /// Whether `r` may answer a `remove` of `key`.
    open spec fn remove_answer(&self, key: Seq<char>, r: Result<(), KvError>) -> bool {
        true
    }

    /// Sets `key` to `value`.
    fn set(&self, key: String, value: String) -> (r: Result<(), KvError>)
        ensures
            self.set_answer(key@, value@, r),
    ;

    /// The value of `key`; `None` where the store does not hold `key`.
    fn get(&self, key: String) -> (r: Result<Option<String>, KvError>)
        ensures
            self.get_answer(key@, r),
    ;

    /// Removes `key`; fails with `KeyNotFound` where the store does not hold it.
    fn remove(&self, key: String) -> (r: Result<(), KvError>)
        ensures
            self.remove_answer(key@, r),
    ;
}

/// Whether `r` is the response to a `Get` whose lookup gave `outcome`.
pub open spec fn answers_value(outcome: Result<Option<String>, KvError>, r: Response) -> bool {
    match outcome {
        Ok(v) => r == Response::Success(v),
        Err(e) => r matches Response::StorageError(m) && describes(e, m@),
    }
}

/// Whether `r` is the response to a `Put` or a `Remove` that gave `outcome`.
pub open spec fn answers_unit(outcome: Result<(), KvError>, r: Response) -> bool {
    match outcome {
        Ok(()) => r == Response::Success(None),
        Err(e) => r matches Response::StorageError(m) && describes(e, m@),
    }
}

/// The response to a `Get` whose lookup gave `outcome`: the value, or the
/// failure's message as a storage error.
pub fn value_response(outcome: Result<Option<String>, KvError>) -> (r: Response)
    ensures
        answers_value(outcome, r),
{
    match outcome {
        Ok(v) => Response::Success(v),
        Err(e) => Response::StorageError(e.message()),
    }
}

/// The response to a `Put` or a `Remove` that gave `outcome`.
pub fn unit_response(outcome: Result<(), KvError>) -> (r: Response)
    ensures
        answers_unit(outcome, r),
{
    match outcome {
        Ok(()) => Response::Success(None),
        Err(e) => Response::StorageError(e.message()),
    }
}

/// Carries out `request` on `engine`. A failure of the engine becomes a
/// storage error in the response; it never ends the handler.
pub fn serve_request<E: KvsEngine>(engine: &E, request: Request) -> (r: Response)
    ensures
        request matches Request::Get { key } ==> exists|o: Result<Option<String>, KvError>|
            engine.get_answer(key@, o) && answers_value(o, r),
        request matches Request::Put { key, value } ==> exists|o: Result<(), KvError>|
            engine.set_answer(key@, value@, o) && answers_unit(o, r),
        request matches Request::Remove { key } ==> exists|o: Result<(), KvError>|
            engine.remove_answer(key@, o) && answers_unit(o, r),
{
    match request {
        Request::Get { key } => value_response(engine.get(key)),
        Request::Put { key, value } => unit_response(engine.set(key, value)),
        Request::Remove { key } => unit_response(engine.remove(key)),
    }
}

/// What the client makes of the server's answer: a value found reaches it
/// unchanged, success stays success, and a key that the server's engine
/// reports absent reaches it as `KeyNotFound`, apart from other failures.
pub proof fn lemma_client_reads_server_answer(
    value_outcome: Result<Option<String>, KvError>,
    value_answer: Response,
    unit_outcome: Result<(), KvError>,
    unit_answer: Response,
)
    requires
        answers_value(value_outcome, value_answer),
        answers_unit(unit_outcome, unit_answer),
    ensures
        value_outcome matches Ok(v) ==> value_result(value_answer) == Ok::<Option<String>, KvError>(v),
        value_outcome matches Err(e) && e is KeyNotFound ==> value_result(value_answer) matches Err(
            KvError::KeyNotFound,
        ),
        unit_outcome is Ok ==> unit_result(unit_answer) == Ok::<(), KvError>(()),
        unit_outcome matches Err(e) && e is KeyNotFound ==> unit_result(unit_answer) matches Err(
            KvError::KeyNotFound,
        ),
{
}

} // verus!
