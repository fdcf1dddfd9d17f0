//! What a caller does with a database, on real databases in temporary directories.

use std::path::{Component, Path, PathBuf};
use std::sync::{Condvar, Mutex};

use fjall_js::config::{DatabaseConfig, Writability};
use fjall_js::engine::{
    partition_opened, torn_down, with_keyspace, AttachAction, AttachEvent, Registry, ReleaseAction,
};
use fjall_js::error::{answer, map_err, panic_log_line, panic_message, panic_reason, EngineError};
use fjall_js::path::{FsPath, PathPart};
use fjall_js::persist::{parse_persist_mode, PersistMode};
use fjall_js::shared::{cv, registry, Shared};
use fjall_js::surface::{
    open, open_readonly, BatchEntry, Keyspace, Partition, ReadonlyKeyspace, ReadonlyPartition,
};
use fjall_js::table::PathMap;

fn fs_path(path: &Path) -> FsPath {
    let mut parts = Vec::new();
    for c in path.components() {
        match c {
            Component::RootDir => parts.push(PathPart::RootDir),
            Component::CurDir => parts.push(PathPart::CurDir),
            Component::ParentDir => parts.push(PathPart::ParentDir),
            Component::Normal(name) => {
                parts.push(PathPart::Normal(name.to_str().unwrap().as_bytes().to_vec()))
            }
            Component::Prefix(_) => unreachable!(),
        }
    }
    FsPath { parts }
}

fn config(path: &Path) -> DatabaseConfig {
    DatabaseConfig { path: fs_path(path), cache_size_bytes: None }
}

fn open_at(reg: &mut Registry, path: &Path) -> Keyspace {
    let task = open(config(path));
    assert!(task.writability == Writability::Writable);
    let mut event = AttachEvent::Arrived { key: fs_path(path) };
    loop {
        match task.compute(reg, event) {
            AttachAction::Attached { handle, .. } => return task.resolve(handle),
            AttachAction::Open { key } => {
                let keyspace = fjall::Config::new(path).open().unwrap();
                event = AttachEvent::Opened { key, canonical: fs_path(path), keyspace };
            }
            _ => panic!("nobody else opens"),
        }
    }
}

fn open_readonly_at(reg: &mut Registry, path: &Path) -> ReadonlyKeyspace {
    let task = open_readonly(config(path));
    let mut event = AttachEvent::Arrived { key: fs_path(path) };
    loop {
        match task.compute(reg, event) {
            AttachAction::Attached { handle, .. } => return task.resolve(handle),
            AttachAction::Open { key } => {
                let keyspace = fjall::Config::new(path).open().unwrap();
                event = AttachEvent::Opened { key, canonical: fs_path(path), keyspace };
            }
            _ => panic!("nobody else opens"),
        }
    }
}

fn partition_of(reg: &mut Registry, ks: &Keyspace, name: &str) -> Partition {
    let mut task = ks.partition(name.to_string());
    if !task.compute(reg).unwrap() {
        let opened = with_keyspace(reg, &task.state)
            .unwrap()
            .open_partition(&task.name, fjall::PartitionCreateOptions::default())
            .unwrap();
        partition_opened(reg, &task.state, opened).unwrap();
    }
    let partition = task.resolve();
    assert_eq!(partition.name, name);
    assert_eq!(task.name, "");
    partition
}

fn readonly_partition_of(
    reg: &mut Registry,
    ks: &ReadonlyKeyspace,
    name: &str,
) -> ReadonlyPartition {
    let mut task = ks.partition(name.to_string());
    if !task.compute(reg).unwrap() {
        let opened = with_keyspace(reg, &task.state)
            .unwrap()
            .open_partition(&task.name, fjall::PartitionCreateOptions::default())
            .unwrap();
        partition_opened(reg, &task.state, opened).unwrap();
    }
    let partition = task.resolve();
    assert_eq!(partition.name, name);
    partition
}

fn insert(reg: &Registry, partition: &Partition, key: &[u8], value: &[u8]) -> Result<(), String> {
    let mut task = partition.insert(key, value);
    let (p, key, value) = task.compute(reg)?;
    assert!(task.key.is_empty() && task.value.is_empty());
    answer(p.insert(key, value).map_err(|e| e.to_string())).map_err(map_err)
}

fn remove(reg: &Registry, partition: &Partition, key: &[u8]) -> Result<(), String> {
    let mut task = partition.remove(key);
    let (p, key) = task.compute(reg)?;
    assert!(task.key.is_empty());
    answer(p.remove(key).map_err(|e| e.to_string())).map_err(map_err)
}

fn get(reg: &Registry, partition: &Partition, key: &[u8]) -> Result<Option<Vec<u8>>, String> {
    let (p, key) = partition.get(reg, key)?;
    let reply = p.get(key).map(|v| v.map(|s| s.to_vec())).map_err(|e| e.to_string());
    answer(reply).map_err(map_err)
}

fn get_readonly(
    reg: &Registry,
    partition: &ReadonlyPartition,
    key: &[u8],
) -> Result<Option<Vec<u8>>, String> {
    let (p, key) = partition.get(reg, key)?;
    let reply = p.get(key).map(|v| v.map(|s| s.to_vec())).map_err(|e| e.to_string());
    answer(reply).map_err(map_err)
}

fn close(reg: &mut Registry, ks: &Keyspace) {
    if let ReleaseAction::TearDown { key, engine } = ks.close().compute(reg) {
        drop(engine);
        torn_down(reg, &key);
    }
}

const CLOSED: &str = "Keyspace is closed";

#[test]
fn quickstart() {
    let tmp = tempfile::tempdir().unwrap();
    let mut reg = Registry::new();
    let ks = open_at(&mut reg, &tmp.path().join("mydata"));
    let users = partition_of(&mut reg, &ks, "users");
    insert(&reg, &users, b"alice", b"{\"age\":30}").unwrap();
    insert(&reg, &users, b"bob", b"{\"age\":42}").unwrap();
    assert_eq!(get(&reg, &users, b"alice").unwrap(), Some(b"{\"age\":30}".to_vec()));
    assert_eq!(get(&reg, &users, b"carol").unwrap(), None);
    let flush = ks.persist(None);
    let (mode, keyspace) = flush.compute(&reg).unwrap();
    assert_eq!(mode, PersistMode::SyncData);
    keyspace.persist(fjall::PersistMode::SyncData).unwrap();
    close(&mut reg, &ks);
    assert_eq!(get(&reg, &users, b"alice"), Err(CLOSED.to_string()));
}

#[test]
fn a_write_is_seen_through_every_handle() {
    let tmp = tempfile::tempdir().unwrap();
    let dir = tmp.path().join("db");
    let mut reg = Registry::new();
    let writer = open_at(&mut reg, &dir);
    let reader = open_readonly_at(&mut reg, &dir);
    let written = partition_of(&mut reg, &writer, "p");
    let read = readonly_partition_of(&mut reg, &reader, "p");
    assert_eq!(get_readonly(&reg, &read, b"k").unwrap(), None);
    insert(&reg, &written, b"k", b"1").unwrap();
    assert_eq!(get_readonly(&reg, &read, b"k").unwrap(), Some(b"1".to_vec()));
    insert(&reg, &written, b"k", b"2").unwrap();
    assert_eq!(get_readonly(&reg, &read, b"k").unwrap(), Some(b"2".to_vec()));
    remove(&reg, &written, b"k").unwrap();
    assert_eq!(get_readonly(&reg, &read, b"k").unwrap(), None);
    remove(&reg, &written, b"k").unwrap();
}

#[test]
fn a_read_reaches_a_write_of_a_handle_that_is_closed() {
    let tmp = tempfile::tempdir().unwrap();
    let dir = tmp.path().join("db");
    let mut reg = Registry::new();
    let writer = open_at(&mut reg, &dir);
    let reader = open_readonly_at(&mut reg, &dir);
    let written = partition_of(&mut reg, &writer, "p");
    let read = readonly_partition_of(&mut reg, &reader, "p");
    insert(&reg, &written, b"k", b"1").unwrap();
    close(&mut reg, &writer);
    let other = open_at(&mut reg, &tmp.path().join("other"));
    partition_of(&mut reg, &other, "p");
    close(&mut reg, &other);
    assert_eq!(get_readonly(&reg, &read, b"k").unwrap(), Some(b"1".to_vec()));
    assert_eq!(get(&reg, &written, b"k"), Err(CLOSED.to_string()));
}

#[test]
fn a_reader_may_be_the_first_opener() {
    let tmp = tempfile::tempdir().unwrap();
    let dir = tmp.path().join("db");
    let mut reg = Registry::new();
    let reader = open_readonly_at(&mut reg, &dir);
    assert!(!reader.state.writable());
    let writer = open_at(&mut reg, &dir);
    assert!(writer.state.writable());
    assert_eq!(reg.refs(writer.state.key()), 2);
    assert!(matches!(reader.close().compute(&mut reg), ReleaseAction::Released));
    assert_eq!(reg.refs(writer.state.key()), 1);
}

#[test]
fn data_outlives_the_engine() {
    let tmp = tempfile::tempdir().unwrap();
    let dir = tmp.path().join("db");
    let mut reg = Registry::new();
    let ks = open_at(&mut reg, &dir);
    let p = partition_of(&mut reg, &ks, "p");
    insert(&reg, &p, b"k", b"v").unwrap();
    let (mode, keyspace) = {
        let task = ks.persist(Some("sync-all".to_string()));
        let (mode, keyspace) = task.compute(&reg).unwrap();
        (mode, keyspace.clone())
    };
    assert_eq!(mode, PersistMode::SyncAll);
    keyspace.persist(fjall::PersistMode::SyncAll).unwrap();
    drop(keyspace);
    close(&mut reg, &ks);

    let again = open_at(&mut reg, &dir);
    let p = partition_of(&mut reg, &again, "p");
    assert_eq!(get(&reg, &p, b"k").unwrap(), Some(b"v".to_vec()));
}

#[test]
fn a_batch_writes_all_its_entries() {
    let tmp = tempfile::tempdir().unwrap();
    let mut reg = Registry::new();
    let ks = open_at(&mut reg, &tmp.path().join("db"));
    let p = partition_of(&mut reg, &ks, "p");
    let q = partition_of(&mut reg, &ks, "q");
    let mut task = p.insert_batch(vec![
        BatchEntry { key: b"a".to_vec(), value: b"1".to_vec() },
        BatchEntry { key: b"b".to_vec(), value: b"2".to_vec() },
        BatchEntry { key: b"a".to_vec(), value: b"3".to_vec() },
    ]);
    assert_eq!(task.name, "p");
    assert_eq!(
        task.entries,
        vec![
            (b"a".to_vec(), b"1".to_vec()),
            (b"b".to_vec(), b"2".to_vec()),
            (b"a".to_vec(), b"3".to_vec())
        ]
    );
    assert!(task.fits());
    let batch = task.compute(&reg).unwrap().unwrap();
    assert_eq!(batch.len(), 3);
    assert!(task.entries.is_empty());
    assert_eq!(get(&reg, &p, b"b").unwrap(), None);
    batch.commit().unwrap();
    assert_eq!(get(&reg, &p, b"b").unwrap(), Some(b"2".to_vec()));
    assert!(get(&reg, &p, b"a").unwrap().is_some());
    assert_eq!(get(&reg, &q, b"a").unwrap(), None);
    assert_eq!(get(&reg, &q, b"b").unwrap(), None);
}

#[test]
fn an_empty_batch_is_nothing_to_do() {
    let tmp = tempfile::tempdir().unwrap();
    let mut reg = Registry::new();
    let ks = open_at(&mut reg, &tmp.path().join("db"));
    let p = partition_of(&mut reg, &ks, "p");
    assert!(p.insert_batch(vec![]).compute(&reg).unwrap().is_none());
    close(&mut reg, &ks);
    assert!(p.insert_batch(vec![]).compute(&reg).unwrap().is_none());
}

#[test]
fn a_batch_takes_keys_of_some_lengths() {
    let tmp = tempfile::tempdir().unwrap();
    let mut reg = Registry::new();
    let ks = open_at(&mut reg, &tmp.path().join("db"));
    let p = partition_of(&mut reg, &ks, "p");
    let one = |len: usize| vec![BatchEntry { key: vec![7; len], value: vec![] }];
    assert!(!p.insert_batch(one(0)).fits());
    assert!(p.insert_batch(one(1)).fits());
    assert!(p.insert_batch(one(65535)).fits());
    assert!(!p.insert_batch(one(65536)).fits());
    p.insert_batch(one(65535)).compute(&reg).unwrap().unwrap().commit().unwrap();
    assert_eq!(get(&reg, &p, &vec![7; 65535]).unwrap(), Some(vec![]));
}

#[test]
fn a_closed_handle_is_told_so() {
    let tmp = tempfile::tempdir().unwrap();
    let mut reg = Registry::new();
    let dir = tmp.path().join("db");
    let ks = open_at(&mut reg, &dir);
    let stays = open_readonly_at(&mut reg, &dir);
    let p = partition_of(&mut reg, &ks, "p");
    let seen = readonly_partition_of(&mut reg, &stays, "p");
    insert(&reg, &p, b"k", b"v").unwrap();
    close(&mut reg, &ks);

    let closed = CLOSED.to_string();
    assert_eq!(get(&reg, &p, b"k"), Err(closed.clone()));
    let mut task = p.insert(b"k", b"w");
    assert_eq!(task.compute(&reg).err(), Some(closed.clone()));
    assert_eq!((task.key, task.value), (b"k".to_vec(), b"w".to_vec()));
    let mut task = p.remove(b"k");
    assert_eq!(task.compute(&reg).err(), Some(closed.clone()));
    assert_eq!(task.key, b"k".to_vec());
    let mut task = p.insert_batch(vec![BatchEntry { key: b"k".to_vec(), value: b"w".to_vec() }]);
    assert_eq!(task.compute(&reg).err(), Some(closed.clone()));
    assert_eq!(task.entries.len(), 1);
    assert_eq!(ks.persist(None).compute(&reg).err(), Some(closed.clone()));
    assert_eq!(ks.partition("p".to_string()).compute(&reg).err(), Some(closed.clone()));
    assert_eq!(get_readonly(&reg, &seen, b"k").unwrap(), Some(b"v".to_vec()));

    assert!(matches!(stays.close().compute(&mut reg), ReleaseAction::TearDown { .. }));
    assert_eq!(get_readonly(&reg, &seen, b"k"), Err(closed.clone()));
    assert_eq!(stays.partition("p".to_string()).compute(&reg).err(), Some(closed));
}

#[test]
fn letting_go_closes_and_warns_once() {
    let tmp = tempfile::tempdir().unwrap();
    let mut reg = Registry::new();
    let dir = tmp.path().join("db");
    let ks = open_at(&mut reg, &dir);
    let ro = open_readonly_at(&mut reg, &dir);
    let (warn, action) = ks.abandon(&mut reg);
    assert!(warn);
    assert!(matches!(action, ReleaseAction::Released));
    let (warn, action) = ks.abandon(&mut reg);
    assert!(!warn);
    assert!(matches!(action, ReleaseAction::AlreadyClosed));
    let (warn, action) = ro.abandon(&mut reg);
    assert!(warn);
    assert!(matches!(action, ReleaseAction::TearDown { .. }));
}

#[test]
fn persist_modes() {
    assert_eq!(parse_persist_mode(None), Ok(PersistMode::SyncData));
    assert_eq!(parse_persist_mode(Some("sync-data")), Ok(PersistMode::SyncData));
    assert_eq!(parse_persist_mode(Some("buffer")), Ok(PersistMode::Buffer));
    assert_eq!(parse_persist_mode(Some("sync-all")), Ok(PersistMode::SyncAll));
    assert_eq!(
        parse_persist_mode(Some("fsync")),
        Err("invalid persist mode: 'fsync' (expected 'buffer', 'sync-data', or 'sync-all')"
            .to_string())
    );
    assert!(parse_persist_mode(Some("")).is_err());
    assert!(parse_persist_mode(Some("Buffer")).is_err());
}

#[test]
fn a_bad_mode_is_refused_before_a_closed_handle() {
    let tmp = tempfile::tempdir().unwrap();
    let mut reg = Registry::new();
    let ks = open_at(&mut reg, &tmp.path().join("db"));
    let bad = "invalid persist mode: 'x' (expected 'buffer', 'sync-data', or 'sync-all')";
    assert_eq!(ks.persist(Some("x".to_string())).compute(&reg).err(), Some(bad.to_string()));
    close(&mut reg, &ks);
    assert_eq!(ks.persist(Some("x".to_string())).compute(&reg).err(), Some(bad.to_string()));
}

#[test]
fn messages() {
    assert_eq!(EngineError::Closed.to_string(), "Keyspace is closed");
    assert_eq!(EngineError::Fjall("disk full".to_string()).to_string(), "disk full");
    assert_eq!(map_err(EngineError::Closed), "Keyspace is closed");
    assert!(matches!(answer::<u8>(Ok(3)), Ok(3)));
    match answer::<u8>(Err("disk full".to_string())) {
        Err(EngineError::Fjall(text)) => assert_eq!(text, "disk full"),
        _ => panic!("a failure of the storage"),
    }
    let text = "formatted".to_string();
    assert_eq!(panic_message(Some("literal"), Some(&text)), "literal");
    assert_eq!(panic_message(None, Some(&text)), "formatted");
    assert_eq!(panic_message(None, None), "unknown panic");
    assert_eq!(panic_reason("boom"), "fjall: internal error in background task: boom");
    assert_eq!(
        panic_log_line("InsertTask", "boom"),
        "fjall: caught panic in InsertTask background task: boom"
    );
}

#[test]
fn threads_share_a_registry() {
    let shared = Shared::new(Mutex::new(Registry::new()), Condvar::new());
    let tmp = tempfile::tempdir().unwrap();
    let key = fs_path(tmp.path());
    {
        let mut reg = registry(&shared).lock().unwrap();
        let ks = open_at(&mut reg, &tmp.path().join("db"));
        assert_eq!(reg.refs(ks.state.key()), 1);
    }
    cv(&shared).notify_all();
    let guard = registry(&shared).lock().unwrap();
    let guard = cv(&shared).wait_while(guard, |r| r.busy(&key)).unwrap();
    assert_eq!(guard.refs(&key), 0);
}

#[test]
fn a_map_of_paths() {
    let path = |text: &str| fs_path(&PathBuf::from(text));
    let mut map: PathMap<u8> = PathMap::new();
    assert_eq!(map.insert(path("/a"), 1), None);
    assert_eq!(map.insert(path("/b"), 2), None);
    assert_eq!(map.insert(path("/a"), 3), Some(1));
    assert_eq!(map.get(&path("/a")), Some(&3));
    assert_eq!(map.get(&path("/b")), Some(&2));
    assert_eq!(map.remove(&path("/a")), Some(3));
    assert_eq!(map.remove(&path("/a")), None);
    assert_eq!(map.get(&path("/a")), None);
    map.insert_new(path("/a"), 4);
    assert_eq!(map.get(&path("/a")), Some(&4));
}
