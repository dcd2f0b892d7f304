use kvs::engine::{unit_response, value_response};
use kvs::{serve_request, KvError, KvsEngine, Request, Response};
use std::collections::HashMap;
use std::sync::{Arc, Mutex};

#[derive(Clone, Default)]
struct MemoryEngine {
    map: Arc<Mutex<HashMap<String, String>>>,
}

impl KvsEngine for MemoryEngine {
    fn set(&self, key: String, value: String) -> Result<(), KvError> {
        self.map.lock().unwrap().insert(key, value);
        Ok(())
    }

    fn get(&self, key: String) -> Result<Option<String>, KvError> {
        Ok(self.map.lock().unwrap().get(&key).cloned())
    }

    fn remove(&self, key: String) -> Result<(), KvError> {
        match self.map.lock().unwrap().remove(&key) {
            Some(_) => Ok(()),
            None => Err(KvError::KeyNotFound),
        }
    }
}

#[test]
fn client_set_then_get_through_handler() {
    let engine = MemoryEngine::default();
    let answer = serve_request(&engine, Request::Put { key: "x".to_string(), value: "y".to_string() });
    assert_eq!(answer, Response::Success(None));
    let set: Result<(), KvError> = Result::from(answer);
    assert!(set.is_ok());
    let answer = serve_request(&engine, Request::Get { key: "x".to_string() });
    assert_eq!(answer, Response::Success(Some("y".to_string())));
    let got: Result<Option<String>, KvError> = Result::from(answer);
    assert_eq!(got.unwrap(), Some("y".to_string()));
}

#[test]
fn absent_key_reaches_client_as_key_not_found() {
    let engine = MemoryEngine::default();
    let answer = serve_request(&engine, Request::Remove { key: "nope".to_string() });
    assert_eq!(answer, Response::StorageError("Key not found".to_string()));
    let removed: Result<(), KvError> = Result::from(answer);
    assert!(matches!(removed, Err(KvError::KeyNotFound)));
    let answer = serve_request(&engine, Request::Get { key: "nope".to_string() });
    assert_eq!(answer, Response::Success(None));
}

#[test]
fn other_failures_stay_remote_errors() {
    let got: Result<Option<String>, KvError> = Result::from(Response::StorageError("disk full".to_string()));
    assert!(matches!(got, Err(KvError::RemoteStoreError(m)) if m == "disk full"));
    let got: Result<(), KvError> = Result::from(Response::NetworkError("reset".to_string()));
    assert!(matches!(got, Err(KvError::RemoteNetworkError(m)) if m == "reset"));
    let got: Result<(), KvError> = Result::from(Response::Success(Some("ignored".to_string())));
    assert!(got.is_ok());
}

#[test]
fn engine_failures_become_storage_errors() {
    assert_eq!(
        value_response(Err(KvError::UnKnownCommandType)),
        Response::StorageError("the command is unknown".to_string())
    );
    assert_eq!(
        unit_response(Err(KvError::RemoteStoreError("gone".to_string()))),
        Response::StorageError("gone".to_string())
    );
    assert_eq!(value_response(Ok(Some("v".to_string()))), Response::Success(Some("v".to_string())));
    assert_eq!(unit_response(Ok(())), Response::Success(None));
}

#[test]
fn error_messages() {
    assert_eq!(KvError::KeyNotFound.message(), "Key not found");
    assert_eq!(KvError::UnKnownEngineType.message(), "the engine type is unknown");
    assert_eq!(KvError::Encoding("bad".to_string()).message(), "bad");
    assert_eq!(KvError::RemoteNetworkError("down".to_string()).message(), "down");
    assert_eq!(KvError::Utf8.message(), "stored value is not valid UTF-8");
    let io = std::io::Error::new(std::io::ErrorKind::Other, "boom");
    assert_eq!(KvError::Io(io).message(), "boom");
}
