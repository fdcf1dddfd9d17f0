//! The registry, with real databases in temporary directories.

use std::path::{Component, Path, PathBuf};

use fjall_js::config::{open_fjall, EngineConfig, Writability};
use fjall_js::engine::{
    attach_or_create, open_partition, partition_opened, release, resolve_partition, torn_down,
    warn_if_unclosed, with_keyspace, AttachAction, AttachEvent, HandleState, Registry,
    ReleaseAction, Warning,
};
use fjall_js::error::EngineError;
use fjall_js::path::{canonical_key, CanonicalKey, FsPath, PathPart};

fn fs_path(path: &Path) -> FsPath {
    let mut parts = Vec::new();
    for c in path.components() {
        match c {
            Component::RootDir => parts.push(PathPart::RootDir),
            Component::CurDir => parts.push(PathPart::CurDir),
            Component::ParentDir => parts.push(PathPart::ParentDir),
            Component::Normal(name) => {
                parts.push(PathPart::Normal(name.to_str().unwrap().as_bytes().to_vec()))
            }
            Component::Prefix(_) => unreachable!(),
        }
    }
    FsPath { parts }
}

fn std_path(path: &FsPath) -> PathBuf {
    let mut out = PathBuf::new();
    for part in &path.parts {
        match part {
            PathPart::RootDir => out.push("/"),
            PathPart::CurDir => out.push("."),
            PathPart::ParentDir => out.push(".."),
            PathPart::Normal(name) => out.push(String::from_utf8(name.clone()).unwrap()),
        }
    }
    out
}

fn key_of(path: &FsPath) -> CanonicalKey {
    canonical_key(
        path,
        |p: &FsPath| std_path(p).canonicalize().ok().map(|c| fs_path(&c)),
        || None,
    )
}

fn cfg(path: &Path) -> EngineConfig {
    EngineConfig { path: fs_path(path), cache_size_bytes: None }
}

fn cfg_with_cache(path: &Path, bytes: u64) -> EngineConfig {
    EngineConfig { path: fs_path(path), cache_size_bytes: Some(bytes) }
}

fn open_database(cfg: &EngineConfig) -> Result<fjall::Keyspace, EngineError> {
    let config = open_fjall(cfg, fjall::Config::new(std_path(&cfg.path)));
    config.open().map_err(|e| EngineError::Fjall(e.to_string()))
}

fn attach_telling(
    reg: &mut Registry,
    cfg: &EngineConfig,
    w: Writability,
) -> Result<(HandleState, Vec<Warning>), EngineError> {
    let mut event = AttachEvent::Arrived { key: key_of(&cfg.path) };
    loop {
        assert!(reg.has_room());
        match attach_or_create(reg, cfg, w, event) {
            AttachAction::Attached { handle, warnings, .. } => return Ok((handle, warnings)),
            AttachAction::Failed { error } => return Err(error),
            AttachAction::Wait { .. } => panic!("nobody else opens"),
            AttachAction::Open { key } => {
                event = match open_database(cfg) {
                    Ok(keyspace) => AttachEvent::Opened {
                        key,
                        canonical: key_of(&cfg.path),
                        keyspace,
                    },
                    Err(error) => AttachEvent::OpenFailed { key, error },
                };
            }
        }
    }
}

fn attach(reg: &mut Registry, cfg: &EngineConfig, w: Writability) -> HandleState {
    attach_telling(reg, cfg, w).unwrap().0
}

fn close(reg: &mut Registry, handle: &HandleState) -> bool {
    match release(reg, handle) {
        ReleaseAction::TearDown { key, engine } => {
            drop(engine);
            torn_down(reg, &key);
            true
        }
        _ => false,
    }
}

fn open_named(reg: &mut Registry, handle: &HandleState, name: &str) {
    if !open_partition(reg, handle, &name.to_string()).unwrap() {
        let partition = with_keyspace(reg, handle)
            .unwrap()
            .open_partition(name, fjall::PartitionCreateOptions::default())
            .unwrap();
        partition_opened(reg, handle, partition).unwrap();
    }
}

#[test]
fn first_open_creates_second_attaches_same_engine() {
    let tmp = tempfile::tempdir().unwrap();
    let p = tmp.path().join("db");
    let mut reg = Registry::new();

    let h1 = attach(&mut reg, &cfg(&p), Writability::Writable);
    let h2 = attach(&mut reg, &cfg(&p), Writability::ReadOnly);

    let e1 = reg.engine_of(&h1).unwrap();
    let e2 = reg.engine_of(&h2).unwrap();
    assert_eq!(e1.ptr_id(), e2.ptr_id(), "both handles share one engine");
    assert_eq!(reg.refs(h1.key()), 2);
}

#[test]
fn distinct_paths_get_distinct_engines() {
    let tmp = tempfile::tempdir().unwrap();
    let mut reg = Registry::new();
    let a = attach(&mut reg, &cfg(&tmp.path().join("a")), Writability::Writable);
    let b = attach(&mut reg, &cfg(&tmp.path().join("b")), Writability::Writable);
    let ea = reg.engine_of(&a).unwrap();
    let eb = reg.engine_of(&b).unwrap();
    assert_ne!(ea.ptr_id(), eb.ptr_id());
}

#[test]
fn a_reader_may_open_first() {
    let tmp = tempfile::tempdir().unwrap();
    let p = tmp.path().join("db");
    let mut reg = Registry::new();
    let (reader, told) = attach_telling(&mut reg, &cfg(&p), Writability::ReadOnly).unwrap();
    assert!(!reader.writable());
    assert!(told.is_empty());
    let (writer, told) = attach_telling(&mut reg, &cfg(&p), Writability::Writable).unwrap();
    assert!(writer.writable());
    assert!(told.is_empty());
    assert_eq!(reg.refs(reader.key()), 2);
}

#[test]
fn a_second_writer_is_warned_about() {
    let tmp = tempfile::tempdir().unwrap();
    let p = tmp.path().join("db");
    let mut reg = Registry::new();
    let first = attach(&mut reg, &cfg(&p), Writability::Writable);
    let (_, told) = attach_telling(&mut reg, &cfg(&p), Writability::ReadOnly).unwrap();
    assert!(told.is_empty());
    let (second, told) = attach_telling(&mut reg, &cfg(&p), Writability::Writable).unwrap();
    assert_eq!(told, vec![Warning::SecondWriter]);
    close(&mut reg, &first);
    close(&mut reg, &second);
    let (_, told) = attach_telling(&mut reg, &cfg(&p), Writability::Writable).unwrap();
    assert!(told.is_empty());
}

#[test]
fn the_first_cache_size_wins() {
    let tmp = tempfile::tempdir().unwrap();
    let p = tmp.path().join("db");
    let mut reg = Registry::new();
    let h = attach(&mut reg, &cfg_with_cache(&p, 1_000_000), Writability::ReadOnly);
    assert_eq!(with_keyspace(&reg, &h).unwrap().cache_capacity(), 1_000_000);

    let (h2, told) =
        attach_telling(&mut reg, &cfg_with_cache(&p, 2_000_000), Writability::ReadOnly).unwrap();
    assert_eq!(
        told,
        vec![Warning::CacheSizeIgnored { requested: 2_000_000, actual: 1_000_000 }]
    );
    assert_eq!(with_keyspace(&reg, &h2).unwrap().cache_capacity(), 1_000_000);

    let (_, told) =
        attach_telling(&mut reg, &cfg_with_cache(&p, 1_000_000), Writability::ReadOnly).unwrap();
    assert!(told.is_empty());
    let (_, told) = attach_telling(&mut reg, &cfg(&p), Writability::ReadOnly).unwrap();
    assert!(told.is_empty());
}

#[test]
fn both_warnings_come_in_order() {
    let tmp = tempfile::tempdir().unwrap();
    let p = tmp.path().join("db");
    let mut reg = Registry::new();
    let _h = attach(&mut reg, &cfg_with_cache(&p, 5), Writability::Writable);
    let (_, told) = attach_telling(&mut reg, &cfg_with_cache(&p, 6), Writability::Writable).unwrap();
    assert_eq!(
        told,
        vec![Warning::CacheSizeIgnored { requested: 6, actual: 5 }, Warning::SecondWriter]
    );
}

#[test]
fn a_cache_size_after_none_is_warned_about() {
    let tmp = tempfile::tempdir().unwrap();
    let p = tmp.path().join("db");
    let mut reg = Registry::new();
    let h = attach(&mut reg, &cfg(&p), Writability::ReadOnly);
    let capacity = with_keyspace(&reg, &h).unwrap().cache_capacity();
    let (h2, told) =
        attach_telling(&mut reg, &cfg_with_cache(&p, 77), Writability::ReadOnly).unwrap();
    assert_eq!(told, vec![Warning::CacheSizeNotSet { requested: 77 }]);
    assert_eq!(with_keyspace(&reg, &h2).unwrap().cache_capacity(), capacity);
    let (_, told) = attach_telling(&mut reg, &cfg(&p), Writability::ReadOnly).unwrap();
    assert!(told.is_empty());
}

/// Reports that the directory claimed as `key` is open, as a database of its own in `at`.
fn report_opened(
    reg: &mut Registry,
    c: &EngineConfig,
    w: Writability,
    key: &CanonicalKey,
    canonical: &CanonicalKey,
    at: &Path,
) -> (HandleState, Vec<Warning>, bool) {
    let keyspace = fjall::Config::new(at).open().unwrap();
    let event =
        AttachEvent::Opened { key: key.copied(), canonical: canonical.copied(), keyspace };
    match attach_or_create(reg, c, w, event) {
        AttachAction::Attached { handle, warnings, surplus, wake } => {
            assert!(wake);
            (handle, warnings, surplus.is_some())
        }
        _ => panic!("the opener is attached"),
    }
}

fn claim(reg: &mut Registry, c: &EngineConfig, w: Writability, key: &CanonicalKey) {
    match attach_or_create(reg, c, w, AttachEvent::Arrived { key: key.copied() }) {
        AttachAction::Open { key: k } => assert!(k.same(key)),
        _ => panic!("an unused directory is opened"),
    }
}

#[test]
fn a_late_report_takes_no_engine_away() {
    let tmp = tempfile::tempdir().unwrap();
    let c = cfg_with_cache(&tmp.path().join("db"), 5);
    let d = cfg_with_cache(&tmp.path().join("db"), 6);
    let early = fs_path(Path::new("/early"));
    let late = fs_path(Path::new("/late"));
    let mut reg = Registry::new();
    claim(&mut reg, &c, Writability::Writable, &early);
    claim(&mut reg, &d, Writability::Writable, &late);

    let w = Writability::Writable;
    let (first, told, surplus) =
        report_opened(&mut reg, &c, w, &early, &late, &tmp.path().join("a"));
    assert!(told.is_empty() && !surplus);
    let (second, told, surplus) =
        report_opened(&mut reg, &d, w, &late, &late, &tmp.path().join("b"));
    assert_eq!(
        told,
        vec![Warning::CacheSizeIgnored { requested: 6, actual: 5 }, Warning::SecondWriter]
    );
    assert!(surplus);

    assert_eq!(reg.refs(&late), 2);
    assert_eq!(
        reg.engine_of(&first).unwrap().ptr_id(),
        reg.engine_of(&second).unwrap().ptr_id()
    );
    assert!(!reg.busy(&early) && !reg.busy(&late));
}

#[test]
fn a_late_failure_takes_no_engine_away() {
    let tmp = tempfile::tempdir().unwrap();
    let c = cfg(&tmp.path().join("db"));
    let early = fs_path(Path::new("/early"));
    let late = fs_path(Path::new("/late"));
    let mut reg = Registry::new();
    let w = Writability::ReadOnly;
    claim(&mut reg, &c, w, &early);
    claim(&mut reg, &c, w, &late);
    let (first, _, _) = report_opened(&mut reg, &c, w, &early, &late, &tmp.path().join("a"));
    let failed = attach_or_create(
        &mut reg,
        &c,
        w,
        AttachEvent::OpenFailed { key: late.copied(), error: EngineError::Fjall("no".to_string()) },
    );
    assert!(matches!(failed, AttachAction::Failed { .. }));
    assert!(reg.engine_of(&first).is_some());
    assert_eq!(reg.refs(&late), 1);
}

fn report_failed(reg: &mut Registry, c: &EngineConfig, w: Writability, key: &CanonicalKey) {
    let error = EngineError::Fjall("no".to_string());
    match attach_or_create(reg, c, w, AttachEvent::OpenFailed { key: key.copied(), error }) {
        AttachAction::Failed { error } => assert_eq!(error.to_string(), "no"),
        _ => panic!("the opener is told of the failure"),
    }
}

#[test]
fn openers_that_succeed_share_an_engine_though_others_fail() {
    let tmp = tempfile::tempdir().unwrap();
    let c = cfg(&tmp.path().join("db"));
    let w = Writability::ReadOnly;
    let keys: Vec<FsPath> =
        ["/first", "/second", "/third", "/fourth"].iter().map(|k| fs_path(Path::new(k))).collect();
    let mut reg = Registry::new();
    for key in &keys {
        claim(&mut reg, &c, w, key);
    }
    let canonical = &keys[1];
    report_failed(&mut reg, &c, w, &keys[0]);
    let (a, _, surplus) =
        report_opened(&mut reg, &c, w, &keys[2], canonical, &tmp.path().join("a"));
    assert!(!surplus);
    report_failed(&mut reg, &c, w, canonical);
    let (b, _, surplus) =
        report_opened(&mut reg, &c, w, &keys[3], canonical, &tmp.path().join("b"));
    assert!(surplus);
    assert_eq!(reg.engine_of(&a).unwrap().ptr_id(), reg.engine_of(&b).unwrap().ptr_id());
    assert_eq!(reg.refs(canonical), 2);
    assert!(keys.iter().all(|key| !reg.busy(key)));
}

#[test]
fn where_all_openers_fail_nothing_is_left() {
    let tmp = tempfile::tempdir().unwrap();
    let c = cfg(&tmp.path().join("db"));
    let w = Writability::Writable;
    let keys: Vec<FsPath> =
        ["/first", "/second"].iter().map(|k| fs_path(Path::new(k))).collect();
    let mut reg = Registry::new();
    for key in &keys {
        claim(&mut reg, &c, w, key);
    }
    for key in &keys {
        report_failed(&mut reg, &c, w, key);
    }
    for key in &keys {
        assert!(!reg.busy(key));
        assert_eq!(reg.refs(key), 0);
        claim(&mut reg, &c, w, key);
    }
}

#[test]
fn many_openers_share_one_engine() {
    let tmp = tempfile::tempdir().unwrap();
    let c = cfg(&tmp.path().join("db"));
    let kinds = [
        Writability::ReadOnly,
        Writability::Writable,
        Writability::ReadOnly,
        Writability::Writable,
        Writability::Writable,
    ];
    let mut reg = Registry::new();
    let handles: Vec<HandleState> = kinds.iter().map(|w| attach(&mut reg, &c, *w)).collect();
    let engine = reg.engine_of(&handles[0]).unwrap().ptr_id();
    for (handle, w) in handles.iter().zip(kinds) {
        assert!(handle.key().same(handles[0].key()));
        assert_eq!(handle.writable(), w == Writability::Writable);
        assert_eq!(reg.engine_of(handle).unwrap().ptr_id(), engine);
    }
    assert_eq!(reg.refs(handles[0].key()), 5);
    for handle in &handles[..4] {
        assert!(!close(&mut reg, handle));
    }
    assert!(close(&mut reg, &handles[4]));
}

#[test]
fn a_configuration_is_copied_whole() {
    let tmp = tempfile::tempdir().unwrap();
    let copy = cfg_with_cache(tmp.path(), 7).copied();
    assert_eq!(copy.cache_size_bytes, Some(7));
    assert!(copy.path.same(&fs_path(tmp.path())));
}

#[test]
fn a_busy_directory_is_waited_for() {
    let tmp = tempfile::tempdir().unwrap();
    let p = tmp.path().join("db");
    let c = cfg(&p);
    let key = key_of(&c.path);
    let mut reg = Registry::new();
    assert!(!reg.busy(&key));

    let claim = attach_or_create(
        &mut reg,
        &c,
        Writability::Writable,
        AttachEvent::Arrived { key: key.copied() },
    );
    let claimed = match claim {
        AttachAction::Open { key } => key,
        _ => panic!("an unused directory is opened"),
    };
    assert!(claimed.same(&key));
    assert!(reg.busy(&key));

    let second = attach_or_create(
        &mut reg,
        &c,
        Writability::ReadOnly,
        AttachEvent::Arrived { key: key.copied() },
    );
    match second {
        AttachAction::Wait { key: k } => assert!(k.same(&key)),
        _ => panic!("a claimed directory is waited for"),
    }
    assert!(reg.busy(&key));

    let keyspace = open_database(&c).unwrap();
    let opened = attach_or_create(
        &mut reg,
        &c,
        Writability::Writable,
        AttachEvent::Opened { key: claimed, canonical: key_of(&c.path), keyspace },
    );
    match opened {
        AttachAction::Attached { handle, warnings, surplus, wake } => {
            assert!(handle.key().same(&key));
            assert!(warnings.is_empty());
            assert!(surplus.is_none());
            assert!(wake);
        }
        _ => panic!("the opener is attached"),
    }
    assert!(!reg.busy(&key));
    assert_eq!(reg.refs(&key), 1);
}

#[test]
fn a_failed_open_is_told_and_leaves_nothing() {
    let file = tempfile::NamedTempFile::new().unwrap();
    let c = cfg(file.path());
    let mut reg = Registry::new();
    let error = match attach_telling(&mut reg, &c, Writability::Writable) {
        Err(error) => error,
        Ok(_) => panic!("a regular file is no database"),
    };
    match &error {
        EngineError::Fjall(text) => assert_eq!(text, &error.to_string()),
        EngineError::Closed => panic!("the storage failed"),
    }
    let key = key_of(&c.path);
    assert!(!reg.busy(&key));
    assert_eq!(reg.refs(&key), 0);
}

#[test]
fn an_engine_that_came_first_is_kept() {
    let tmp = tempfile::tempdir().unwrap();
    let p = tmp.path().join("db");
    let other = tmp.path().join("other");
    let mut reg = Registry::new();
    let h = attach(&mut reg, &cfg(&p), Writability::Writable);
    let canonical = key_of(&fs_path(&p));
    let odd = fs_path(&tmp.path().join("x").join("..").join("db"));

    let claim = attach_or_create(
        &mut reg,
        &cfg(&p),
        Writability::Writable,
        AttachEvent::Arrived { key: odd.copied() },
    );
    assert!(matches!(claim, AttachAction::Open { .. }));
    let keyspace = open_database(&cfg(&other)).unwrap();
    let action = attach_or_create(
        &mut reg,
        &cfg(&p),
        Writability::Writable,
        AttachEvent::Opened { key: odd.copied(), canonical: canonical.copied(), keyspace },
    );
    match action {
        AttachAction::Attached { handle, warnings, surplus, wake } => {
            assert!(handle.key().same(&canonical));
            assert_eq!(warnings, vec![Warning::SecondWriter]);
            assert!(surplus.is_some());
            assert!(wake);
            assert_eq!(
                reg.engine_of(&handle).unwrap().ptr_id(),
                reg.engine_of(&h).unwrap().ptr_id()
            );
        }
        _ => panic!("the opener is attached"),
    }
    assert!(!reg.busy(&odd));
    assert_eq!(reg.refs(&canonical), 2);
}

#[test]
fn the_last_close_frees_the_engine() {
    let tmp = tempfile::tempdir().unwrap();
    let p = tmp.path().join("db");
    let mut reg = Registry::new();
    let h1 = attach(&mut reg, &cfg(&p), Writability::Writable);
    let h2 = attach(&mut reg, &cfg(&p), Writability::ReadOnly);
    let first_id = reg.engine_of(&h1).unwrap().ptr_id();

    assert!(matches!(release(&mut reg, &h1), ReleaseAction::Released));
    assert_eq!(reg.refs(h1.key()), 1);
    assert!(reg.engine_of(&h2).is_some());

    match release(&mut reg, &h2) {
        ReleaseAction::TearDown { key, engine } => {
            assert_eq!(engine.ptr_id(), first_id);
            assert!(key.same(h2.key()));
            assert!(reg.busy(&key));
            drop(engine);
            torn_down(&mut reg, &key);
            assert!(!reg.busy(&key));
        }
        _ => panic!("the last close frees the engine"),
    }
    assert_eq!(reg.refs(h1.key()), 0);

    let h3 = attach(&mut reg, &cfg(&p), Writability::Writable);
    assert_ne!(reg.engine_of(&h3).unwrap().ptr_id(), first_id);
    assert!(reg.engine_of(&h1).is_none());
    assert!(reg.engine_of(&h2).is_none());
}

#[test]
fn an_opener_waits_for_a_teardown() {
    let tmp = tempfile::tempdir().unwrap();
    let c = cfg(&tmp.path().join("db"));
    let mut reg = Registry::new();
    let h = attach(&mut reg, &c, Writability::Writable);
    let going = release(&mut reg, &h);
    assert!(matches!(going, ReleaseAction::TearDown { .. }));
    let next = attach_or_create(
        &mut reg,
        &c,
        Writability::Writable,
        AttachEvent::Arrived { key: key_of(&c.path) },
    );
    assert!(matches!(next, AttachAction::Wait { .. }));
    drop(going);
    torn_down(&mut reg, h.key());
    assert!(attach_telling(&mut reg, &c, Writability::Writable).is_ok());
    torn_down(&mut reg, h.key());
    assert_eq!(reg.refs(h.key()), 1);
}

#[test]
fn closing_twice_is_closing_once() {
    let tmp = tempfile::tempdir().unwrap();
    let p = tmp.path().join("db");
    let mut reg = Registry::new();
    let h1 = attach(&mut reg, &cfg(&p), Writability::Writable);
    let h2 = attach(&mut reg, &cfg(&p), Writability::Writable);
    assert!(warn_if_unclosed(&reg, &h1));
    assert!(matches!(release(&mut reg, &h1), ReleaseAction::Released));
    assert!(!warn_if_unclosed(&reg, &h1));
    assert!(matches!(release(&mut reg, &h1), ReleaseAction::AlreadyClosed));
    assert_eq!(reg.refs(h2.key()), 1);
    assert!(warn_if_unclosed(&reg, &h2));
}

#[test]
fn open_and_close_leave_the_count_as_it_was() {
    let tmp = tempfile::tempdir().unwrap();
    let p = tmp.path().join("db");
    let mut reg = Registry::new();
    let h = attach(&mut reg, &cfg(&p), Writability::Writable);
    let id = reg.engine_of(&h).unwrap().ptr_id();
    for _ in 0..10 {
        let g = attach(&mut reg, &cfg(&p), Writability::ReadOnly);
        assert!(!close(&mut reg, &g));
    }
    assert_eq!(reg.refs(h.key()), 1);
    assert_eq!(reg.engine_of(&h).unwrap().ptr_id(), id);
}

#[test]
fn a_closed_handle_reaches_nothing() {
    let tmp = tempfile::tempdir().unwrap();
    let p = tmp.path().join("db");
    let mut reg = Registry::new();
    let h1 = attach(&mut reg, &cfg(&p), Writability::Writable);
    let h2 = attach(&mut reg, &cfg(&p), Writability::ReadOnly);
    open_named(&mut reg, &h1, "users");
    let users = "users".to_string();
    let stray = resolve_partition(&reg, &h1, &users).unwrap().clone();
    close(&mut reg, &h1);

    assert!(matches!(with_keyspace(&reg, &h1), Err(EngineError::Closed)));
    assert!(matches!(resolve_partition(&reg, &h1, &users), Err(EngineError::Closed)));
    assert!(matches!(open_partition(&reg, &h1, &users), Err(EngineError::Closed)));
    assert!(matches!(partition_opened(&mut reg, &h1, stray), Err(EngineError::Closed)));
    assert!(resolve_partition(&reg, &h2, &users).is_ok());
    assert!(with_keyspace(&reg, &h2).is_ok());
}

#[test]
fn partitions_are_shared_and_isolated() {
    let tmp = tempfile::tempdir().unwrap();
    let p = tmp.path().join("db");
    let mut reg = Registry::new();
    let h1 = attach(&mut reg, &cfg(&p), Writability::Writable);
    let h2 = attach(&mut reg, &cfg(&p), Writability::ReadOnly);
    let users = "users".to_string();
    let posts = "posts".to_string();

    assert!(matches!(open_partition(&reg, &h1, &users), Ok(false)));
    assert!(matches!(resolve_partition(&reg, &h1, &users), Err(EngineError::Closed)));
    open_named(&mut reg, &h1, "users");
    assert!(matches!(open_partition(&reg, &h2, &users), Ok(true)));
    open_named(&mut reg, &h2, "posts");

    let written = resolve_partition(&reg, &h1, &users).unwrap();
    written.insert("alice", "30").unwrap();
    let read = resolve_partition(&reg, &h2, &users).unwrap();
    assert_eq!(&*read.name, "users");
    assert_eq!(read.get("alice").unwrap().unwrap().to_vec(), b"30".to_vec());
    let other = resolve_partition(&reg, &h1, &posts).unwrap();
    assert_eq!(&*other.name, "posts");
    assert!(other.get("alice").unwrap().is_none());
}

#[test]
fn a_partition_that_came_first_is_kept() {
    let tmp = tempfile::tempdir().unwrap();
    let mut reg = Registry::new();
    let a = attach(&mut reg, &cfg(&tmp.path().join("a")), Writability::Writable);
    let b = attach(&mut reg, &cfg(&tmp.path().join("b")), Writability::Writable);
    open_named(&mut reg, &a, "users");
    open_named(&mut reg, &b, "users");
    let users = "users".to_string();
    resolve_partition(&reg, &b, &users).unwrap().insert("who", "b").unwrap();
    let foreign = resolve_partition(&reg, &b, &users).unwrap().clone();

    partition_opened(&mut reg, &a, foreign).unwrap();
    assert!(resolve_partition(&reg, &a, &users).unwrap().get("who").unwrap().is_none());
}
