use kvs::codec::{decode_command, encode_command};
use kvs::{
    read_value, Command, KvError, KvStore, LogPointer, RayonThreadPool, Written, COMPACT_THRESHOLD,
};
use std::sync::{mpsc, Arc, Mutex};
use std::time::Duration;

// The active segment, kept in memory the way the engine expects it on disk.
struct Segment {
    bytes: Vec<u8>,
}

impl Segment {
    fn open() -> (KvStore, Segment) {
        let (store, compaction) = KvStore::open(0, &[]).unwrap();
        assert!(compaction.is_none());
        (store, Segment { bytes: Vec::new() })
    }

    fn write(&mut self, written: Written) {
        self.bytes.extend_from_slice(&written.record);
        if let Some(plan) = written.compaction {
            self.copy(plan);
        }
    }

    fn copy(&mut self, plan: Vec<LogPointer>) {
        let mut next = Vec::new();
        for p in plan {
            next.extend_from_slice(self.read(p));
        }
        self.bytes = next;
    }

    fn set(&mut self, store: &mut KvStore, key: &str, value: &str) {
        assert!(store.put_fits(key, value));
        let written = store.set(key.to_string(), value.to_string());
        self.write(written);
    }

    fn remove(&mut self, store: &mut KvStore, key: &str) -> Result<(), KvError> {
        assert!(store.remove_fits(key));
        let written = store.remove(key.to_string())?;
        self.write(written);
        Ok(())
    }

    fn read(&self, p: LogPointer) -> &[u8] {
        &self.bytes[p.offset as usize..(p.offset + p.len) as usize]
    }

    fn get(&self, store: &KvStore, key: &str) -> Result<Option<String>, KvError> {
        store.get(key, |p| Ok(self.read(p).to_vec()))
    }

    fn compact(&mut self, store: &mut KvStore) {
        let plan = store.compact();
        self.copy(plan);
    }
}

#[test]
fn scenario_set_get_remove() {
    let (mut store, mut seg) = Segment::open();
    seg.set(&mut store, "a", "1");
    seg.set(&mut store, "b", "2");
    assert_eq!(seg.get(&store, "a").unwrap(), Some("1".to_string()));
    seg.remove(&mut store, "a").unwrap();
    assert_eq!(seg.get(&store, "a").unwrap(), None);
    assert!(matches!(seg.remove(&mut store, "a"), Err(KvError::KeyNotFound)));
    assert_eq!(seg.get(&store, "b").unwrap(), Some("2".to_string()));
}

#[test]
fn value_survives_reopen() {
    let (mut store, mut seg) = Segment::open();
    seg.set(&mut store, "k", "v");
    seg.set(&mut store, "other", "x");
    seg.set(&mut store, "k", "w");
    drop(store);
    let reopened = KvStore::open(0, &seg.bytes).unwrap().0;
    assert_eq!(seg.get(&reopened, "k").unwrap(), Some("w".to_string()));
    assert_eq!(seg.get(&reopened, "other").unwrap(), Some("x".to_string()));
    assert_eq!(seg.get(&reopened, "missing").unwrap(), None);
}

#[test]
fn replayed_index_matches_live_index() {
    let (mut store, mut seg) = Segment::open();
    seg.set(&mut store, "a", "1");
    seg.set(&mut store, "b", "22");
    seg.set(&mut store, "a", "333");
    seg.remove(&mut store, "b").unwrap();
    seg.set(&mut store, "c", "");
    seg.set(&mut store, "b", "4");
    let replayed = KvStore::open(0, &seg.bytes).unwrap().0;
    for key in ["a", "b", "c", "d"] {
        assert_eq!(store.locate(key), replayed.locate(key));
    }
    assert_eq!(replayed.log_file_size(), seg.bytes.len() as u64);
    assert_eq!(store.log_file_size(), seg.bytes.len() as u64);
}

#[test]
fn removing_an_absent_key_appends_nothing() {
    let (mut store, mut seg) = Segment::open();
    seg.set(&mut store, "present", "1");
    let before = store.log_file_size();
    assert!(matches!(store.remove("absent".to_string()), Err(KvError::KeyNotFound)));
    assert_eq!(store.log_file_size(), before);
    assert!(seg.remove(&mut store, "present").is_ok());
    assert!(store.log_file_size() > before);
    assert!(matches!(store.remove("present".to_string()), Err(KvError::KeyNotFound)));
}

#[test]
fn compaction_keeps_values_and_is_stable() {
    let (mut store, mut seg) = Segment::open();
    for i in 0..20 {
        seg.set(&mut store, &format!("key{}", i % 5), &format!("value{}", i));
    }
    seg.remove(&mut store, "key3").unwrap();
    let before: Vec<Option<String>> =
        (0..6).map(|i| seg.get(&store, &format!("key{}", i)).unwrap()).collect();
    let old_size = store.log_file_size();
    seg.compact(&mut store);
    assert_eq!(store.log_file_id(), 1);
    assert!(store.log_file_size() < old_size);
    assert_eq!(store.log_file_size(), seg.bytes.len() as u64);
    let after: Vec<Option<String>> =
        (0..6).map(|i| seg.get(&store, &format!("key{}", i)).unwrap()).collect();
    assert_eq!(before, after);
    assert_eq!(after[3], None);
    assert_eq!(after[4], Some("value19".to_string()));
    let once = seg.bytes.clone();
    seg.compact(&mut store);
    assert_eq!(store.log_file_id(), 2);
    assert_eq!(seg.bytes, once);
    let reopened = KvStore::open(2, &seg.bytes).unwrap().0;
    assert_eq!(seg.get(&reopened, "key0").unwrap(), Some("value15".to_string()));
}

#[test]
fn compacting_an_empty_store() {
    let (mut store, mut seg) = Segment::open();
    seg.set(&mut store, "a", "1");
    seg.remove(&mut store, "a").unwrap();
    seg.compact(&mut store);
    assert!(seg.bytes.is_empty());
    assert_eq!(store.log_file_size(), 0);
    assert_eq!(seg.get(&store, "a").unwrap(), None);
}

#[test]
fn compaction_threshold() {
    let (mut store, mut seg) = Segment::open();
    assert!(!store.needs_compaction());
    // A record is 17 bytes plus its key and value.
    let value = "x".repeat(COMPACT_THRESHOLD as usize - 18);
    seg.set(&mut store, "k", &value);
    assert_eq!(store.log_file_size(), COMPACT_THRESHOLD);
    assert!(!store.needs_compaction());
    assert_eq!(store.log_file_id(), 0);
    // One more record passes the threshold: the store compacts on its own.
    seg.set(&mut store, "k", "");
    assert_eq!(store.log_file_id(), 1);
    assert_eq!(store.log_file_size(), 18);
    assert_eq!(seg.bytes.len(), 18);
    assert!(!store.needs_compaction());
    assert_eq!(seg.get(&store, "k").unwrap(), Some(String::new()));
}

#[test]
fn oversized_segment_is_compacted_on_open() {
    let mut bytes = Vec::new();
    let big = "v".repeat(1000);
    for i in 0..300 {
        let cmd = Command::Put { key: format!("k{}", i % 3), value: format!("{}{}", big, i) };
        bytes.extend_from_slice(&encode_command(&cmd));
    }
    assert!(bytes.len() as u64 > COMPACT_THRESHOLD);
    let (store, compaction) = KvStore::open(4, &bytes).unwrap();
    assert_eq!(store.log_file_id(), 5);
    let mut seg = Segment { bytes };
    seg.copy(compaction.unwrap());
    assert_eq!(store.log_file_size(), seg.bytes.len() as u64);
    assert!(!store.needs_compaction());
    assert_eq!(seg.get(&store, "k0").unwrap(), Some(format!("{}{}", big, 297)));
    assert_eq!(seg.get(&store, "k2").unwrap(), Some(format!("{}{}", big, 299)));
    let small = encode_command(&Command::Put { key: "a".to_string(), value: "1".to_string() });
    let (store, compaction) = KvStore::open(4, &small).unwrap();
    assert!(compaction.is_none());
    assert_eq!(store.log_file_id(), 4);
}

#[test]
fn read_failure_is_passed_on() {
    let (mut store, mut seg) = Segment::open();
    seg.set(&mut store, "a", "1");
    let failed = store.get("a", |_| Err(KvError::Encoding("unreadable".to_string())));
    assert!(matches!(failed, Err(KvError::Encoding(m)) if m == "unreadable"));
    assert_eq!(store.get("b", |_| panic!("nothing to read")).unwrap(), None);
}

#[test]
fn record_layout() {
    let record = encode_command(&Command::Put { key: "a".to_string(), value: "é".to_string() });
    assert_eq!(
        record,
        vec![1, 1, 0, 0, 0, 0, 0, 0, 0, b'a', 2, 0, 0, 0, 0, 0, 0, 0, 0xc3, 0xa9]
    );
    let record = encode_command(&Command::Remove { key: "ab".to_string() });
    assert_eq!(record, vec![2, 2, 0, 0, 0, 0, 0, 0, 0, b'a', b'b']);
}

#[test]
fn record_decodes_to_its_command() {
    let mut bytes = encode_command(&Command::Put { key: "key".to_string(), value: "val".to_string() });
    let len = bytes.len();
    bytes.extend_from_slice(&[9, 9, 9]);
    match decode_command(&bytes) {
        Some((Command::Put { key, value }, n)) => {
            assert_eq!(key, "key");
            assert_eq!(value, "val");
            assert_eq!(n, len);
        }
        _ => panic!("record did not decode"),
    }
    assert!(decode_command(&bytes[..len - 1]).is_none());
    assert!(decode_command(&[3, 0, 0]).is_none());
    assert!(decode_command(&[]).is_none());
}

#[test]
fn malformed_segment_is_refused() {
    let mut bytes = encode_command(&Command::Put { key: "a".to_string(), value: "1".to_string() });
    bytes.pop();
    assert!(matches!(KvStore::open(0, &bytes), Err(KvError::Encoding(_))));
    let bad_utf8 = vec![2, 1, 0, 0, 0, 0, 0, 0, 0, 0xff];
    assert!(matches!(KvStore::open(0, &bad_utf8), Err(KvError::Encoding(_))));
}

#[test]
fn reading_a_value_record() {
    let put = encode_command(&Command::Put { key: "a".to_string(), value: "1".to_string() });
    assert_eq!(read_value(&put).unwrap(), "1");
    let remove = encode_command(&Command::Remove { key: "a".to_string() });
    assert!(matches!(read_value(&remove), Err(KvError::UnKnownCommandType)));
    let mut longer = put.clone();
    longer.push(0);
    assert!(matches!(read_value(&longer), Err(KvError::Encoding(_))));
    assert!(matches!(read_value(&put[..3]), Err(KvError::Encoding(_))));
}

#[test]
fn open_keeps_generation() {
    let store = KvStore::open(7, &[]).unwrap().0;
    assert_eq!(store.log_file_id(), 7);
    assert_eq!(store.log_file_size(), 0);
}

#[test]
fn two_writers_through_one_locked_store() {
    let shared = Arc::new(Mutex::new(Segment::open()));
    let pool = RayonThreadPool::new(2).unwrap();
    let (tx, rx) = mpsc::channel();
    for writer in 0..2 {
        let shared = Arc::clone(&shared);
        let tx = tx.clone();
        pool.spawn(move || {
            for i in 0..100 {
                let mut guard = shared.lock().unwrap();
                let (store, seg) = &mut *guard;
                seg.set(store, &format!("w{}-k{}", writer, i), &format!("v{}-{}", writer, i));
            }
            tx.send(writer).unwrap();
        });
    }
    for _ in 0..2 {
        rx.recv_timeout(Duration::from_secs(60)).unwrap();
    }
    let guard = shared.lock().unwrap();
    let (store, seg) = &*guard;
    for writer in 0..2 {
        for i in 0..100 {
            assert_eq!(
                seg.get(store, &format!("w{}-k{}", writer, i)).unwrap(),
                Some(format!("v{}-{}", writer, i))
            );
        }
    }
}
