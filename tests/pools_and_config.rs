use kvs::sled_engine::found_value;
use kvs::{
    get_engine, parse_engine_record, pool_size, ControlMessage, EngineType, KvError, KvsEngine,
    Monitor, NaiveThreadPool, RayonThreadPool, SledKvsEngine,
};
use std::path::PathBuf;
use std::sync::mpsc;
use std::time::Duration;

#[test]
fn pool_sizes() {
    assert_eq!(pool_size(3), 3);
    assert!(pool_size(0) >= 1);
}

#[test]
fn panicking_jobs_leave_the_pool_full() {
    let mut monitor = Monitor::new(4);
    assert_eq!(monitor.live_workers(), 4);
    for id in 0..4 {
        assert!(monitor.worker_exited(id, true));
    }
    assert_eq!(monitor.live_workers(), 4);
    assert!(!monitor.finished());
}

#[test]
fn monitor_shutdown() {
    let mut monitor = Monitor::new(2);
    monitor.control(ControlMessage::Start);
    assert!(!monitor.finished());
    monitor.control(ControlMessage::Stop);
    assert!(!monitor.worker_exited(0, false));
    assert_eq!(monitor.live_workers(), 1);
    assert!(!monitor.finished());
    assert!(monitor.worker_exited(1, true));
    assert!(!monitor.worker_exited(1, false));
    assert!(!monitor.worker_exited(7, true));
    assert_eq!(monitor.live_workers(), 0);
    assert!(monitor.finished());
}

#[test]
fn rayon_pool_runs_jobs() {
    let pool = RayonThreadPool::new(2).unwrap();
    let (tx, rx) = mpsc::channel();
    for i in 0..4 {
        let tx = tx.clone();
        pool.spawn(move || tx.send(i * 10).unwrap());
    }
    let mut got: Vec<i32> = (0..4).map(|_| rx.recv_timeout(Duration::from_secs(5)).unwrap()).collect();
    got.sort();
    assert_eq!(got, vec![0, 10, 20, 30]);
}

#[test]
fn naive_pool_is_made() {
    assert!(NaiveThreadPool::new(0).is_ok());
    NaiveThreadPool::some();
}

#[test]
fn engine_selection() {
    assert_eq!(get_engine(None, None).unwrap(), EngineType::Kvs);
    assert_eq!(get_engine(None, Some(EngineType::Sled)).unwrap(), EngineType::Sled);
    assert_eq!(get_engine(Some(EngineType::Sled), None).unwrap(), EngineType::Sled);
    assert_eq!(get_engine(Some(EngineType::Kvs), Some(EngineType::Kvs)).unwrap(), EngineType::Kvs);
    assert!(matches!(
        get_engine(Some(EngineType::Kvs), Some(EngineType::Sled)),
        Err(KvError::UnKnownEngineType)
    ));
}

#[test]
fn engine_records() {
    assert_eq!(parse_engine_record("Kvs").unwrap(), EngineType::Kvs);
    assert_eq!(parse_engine_record("Sled").unwrap(), EngineType::Sled);
    assert!(matches!(parse_engine_record("sled"), Err(KvError::UnKnownEngineType)));
    assert!(matches!(parse_engine_record(""), Err(KvError::UnKnownEngineType)));
    assert_eq!(EngineType::Sled.name(), "Sled");
    assert_eq!(EngineType::Kvs.name(), "Kvs");
}

#[test]
fn stored_bytes_to_value() {
    assert_eq!(found_value(None).unwrap(), None);
    assert_eq!(found_value(Some("héllo".as_bytes().to_vec())).unwrap(), Some("héllo".to_string()));
    assert!(matches!(found_value(Some(vec![0xff, 0xfe])), Err(KvError::Utf8)));
}

#[test]
fn sled_backend_set_get_remove() {
    let dir = PathBuf::from("/tmp/kvs-sled-backend-test");
    let engine = SledKvsEngine::new(&dir).unwrap();
    let _ = engine.remove("a".to_string());
    engine.set("a".to_string(), "1".to_string()).unwrap();
    assert_eq!(engine.get("a".to_string()).unwrap(), Some("1".to_string()));
    let shared = engine.clone();
    shared.set("a".to_string(), "2".to_string()).unwrap();
    assert_eq!(engine.get("a".to_string()).unwrap(), Some("2".to_string()));
    engine.remove("a".to_string()).unwrap();
    assert_eq!(engine.get("a".to_string()).unwrap(), None);
    assert!(matches!(engine.remove("a".to_string()), Err(KvError::KeyNotFound)));
}

#[test]
fn two_writers_through_one_shared_handle() {
    let dir = PathBuf::from("/tmp/kvs-sled-two-writers-test");
    let engine = SledKvsEngine::new(&dir).unwrap();
    let pool = RayonThreadPool::new(2).unwrap();
    let (tx, rx) = mpsc::channel();
    for writer in 0..2 {
        let engine = engine.clone();
        let tx = tx.clone();
        pool.spawn(move || {
            for i in 0..100 {
                engine.set(format!("w{}-k{}", writer, i), format!("old{}", i)).unwrap();
                engine.set(format!("w{}-k{}", writer, i), format!("v{}-{}", writer, i)).unwrap();
            }
            tx.send(writer).unwrap();
        });
    }
    for _ in 0..2 {
        rx.recv_timeout(Duration::from_secs(60)).unwrap();
    }
    for writer in 0..2 {
        for i in 0..100 {
            assert_eq!(
                engine.get(format!("w{}-k{}", writer, i)).unwrap(),
                Some(format!("v{}-{}", writer, i))
            );
        }
    }
}
