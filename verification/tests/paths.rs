//! Registry keys.

use std::path::{Component, Path, PathBuf};

use fjall_js::path::{canonical_key, FsPath, PathPart};

fn fs_path(path: &Path) -> FsPath {
    let mut parts = Vec::new();
    for c in path.components() {
        match c {
            Component::RootDir => parts.push(PathPart::RootDir),
            Component::CurDir => parts.push(PathPart::CurDir),
            Component::ParentDir => parts.push(PathPart::ParentDir),
            Component::Normal(name) => {
                parts.push(PathPart::Normal(name.to_str().unwrap().as_bytes().to_vec()))
            }
            Component::Prefix(_) => unreachable!(),
        }
    }
    FsPath { parts }
}

fn std_path(path: &FsPath) -> PathBuf {
    let mut out = PathBuf::new();
    for part in &path.parts {
        match part {
            PathPart::RootDir => out.push("/"),
            PathPart::CurDir => out.push("."),
            PathPart::ParentDir => out.push(".."),
            PathPart::Normal(name) => out.push(String::from_utf8(name.clone()).unwrap()),
        }
    }
    out
}

fn p(text: &str) -> FsPath {
    fs_path(Path::new(text))
}

/// The key of `path` where only `existing` resolves, each to its second entry.
fn key_in(existing: &[(&str, &str)], cwd: Option<&str>, path: &str) -> PathBuf {
    std_path(&canonical_key(
        &p(path),
        |asked: &FsPath| {
            let asked = std_path(asked);
            existing.iter().find(|(from, _)| Path::new(from) == asked).map(|(_, to)| p(to))
        },
        || cwd.map(p),
    ))
}

#[test]
fn existing_dir_canonicalizes_to_same_key_for_relative_and_absolute() {
    let tmp = tempfile::tempdir().unwrap();
    let abs = tmp.path().join("db");
    let _made = tempfile::Builder::new().prefix("db").rand_bytes(0).tempdir_in(tmp.path()).unwrap();
    assert!(abs.is_dir());

    let cwd = tmp.path().to_path_buf();
    let canonicalize =
        |asked: &FsPath| cwd.join(std_path(asked)).canonicalize().ok().map(|c| fs_path(&c));
    let via_rel = canonical_key(&p("db"), canonicalize, || Some(fs_path(&cwd)));
    let via_abs = canonical_key(&fs_path(&abs), canonicalize, || Some(fs_path(&cwd)));
    assert!(via_rel.same(&via_abs), "relative and absolute spellings must match");
    assert_eq!(std_path(&via_abs), abs.canonicalize().unwrap());
}

#[test]
fn nonexistent_path_uses_nearest_existing_ancestor() {
    let tmp = tempfile::tempdir().unwrap();
    let missing = tmp.path().join("not-yet").join("db");
    let key = canonical_key(
        &fs_path(&missing),
        |asked: &FsPath| std_path(asked).canonicalize().ok().map(|c| fs_path(&c)),
        || None,
    );
    // The existing tmp prefix is canonicalized; the missing tail is preserved.
    let canon_tmp = tmp.path().canonicalize().unwrap();
    assert_eq!(std_path(&key), canon_tmp.join("not-yet").join("db"));
}

#[test]
fn an_existing_path_is_its_canonical_form() {
    let fs = [("/link", "/real/dir"), ("link", "/real/dir"), ("/", "/")];
    assert_eq!(key_in(&fs, Some("/"), "/link"), PathBuf::from("/real/dir"));
    assert_eq!(key_in(&fs, Some("/"), "link"), PathBuf::from("/real/dir"));
}

#[test]
fn a_missing_tail_comes_back_in_order() {
    let fs = [("/link", "/real/dir"), ("/", "/")];
    assert_eq!(key_in(&fs, None, "/link/a/b/c"), PathBuf::from("/real/dir/a/b/c"));
    assert_eq!(key_in(&fs, None, "/x/y"), PathBuf::from("/x/y"));
}

#[test]
fn a_relative_path_is_read_from_the_current_directory() {
    let fs = [("/home", "/mnt/home"), ("/", "/")];
    assert_eq!(key_in(&fs, Some("/home/me"), "db"), PathBuf::from("/mnt/home/me/db"));
    assert_eq!(key_in(&fs, Some("/home/me"), "./db"), PathBuf::from("/mnt/home/me/db"));
    assert_eq!(key_in(&fs, Some("/home/me"), ""), PathBuf::from("/mnt/home/me"));
}

#[test]
fn without_a_current_directory_a_relative_path_stays() {
    assert_eq!(key_in(&[("/", "/")], None, "a/b"), PathBuf::from("a/b"));
    assert_eq!(key_in(&[], None, "./a"), PathBuf::from("./a"));
}

#[test]
fn dot_dot_behind_a_missing_name_is_appended_again() {
    let fs = [("/", "/"), ("/a", "/canon")];
    assert_eq!(key_in(&fs, None, "/a/x/../db"), PathBuf::from("/canon/x/../db"));
    assert_eq!(key_in(&fs, None, "/a/x/.."), PathBuf::from("/canon/x/.."));
    assert_eq!(key_in(&fs, Some("/a"), "../x"), PathBuf::from("/canon/../x"));

    let tmp = tempfile::tempdir().unwrap();
    let key = canonical_key(
        &fs_path(&tmp.path().join("missing").join("..").join("db")),
        |asked: &FsPath| std_path(asked).canonicalize().ok().map(|c| fs_path(&c)),
        || None,
    );
    let canon_tmp = tmp.path().canonicalize().unwrap();
    assert_eq!(std_path(&key), canon_tmp.join("missing").join("..").join("db"));
}

#[test]
fn where_nothing_resolves_the_path_stays() {
    assert_eq!(key_in(&[], None, "/a/b"), PathBuf::from("/a/b"));
    assert_eq!(key_in(&[], None, "/a/../b"), PathBuf::from("/a/../b"));
    assert_eq!(key_in(&[], Some("/home"), "a/b"), PathBuf::from("/home/a/b"));
    assert_eq!(key_in(&[], None, "/"), PathBuf::from("/"));
}

#[test]
fn the_key_of_a_key() {
    let fs = [("/link", "/real"), ("/real", "/real"), ("/", "/")];
    for path in ["/link", "/link/a/b", "/link/a/../b", "/x/y", "link/a"] {
        let key = key_in(&fs, Some("/"), path);
        assert_eq!(key_in(&fs, Some("/"), key.to_str().unwrap()), key);
    }
}

#[test]
fn a_relative_path_and_its_absolute_form() {
    let fs = [("/home", "/mnt"), ("/home/me", "/mnt/me"), (".", "/mnt/me"), ("/", "/")];
    for path in ["db", "./db", "../db", "a/b/../c", ".", ""] {
        let joined = Path::new("/home/me").join(path);
        let key = key_in(&fs, Some("/home/me"), path);
        assert_eq!(key, key_in(&fs, Some("/home/me"), joined.to_str().unwrap()));
        assert!(key.is_absolute());
    }
}

#[test]
fn the_key_stays_once_the_directory_is_made() {
    let tmp = tempfile::tempdir().unwrap();
    let missing = tmp.path().join("sub").join("db");
    let key = || {
        canonical_key(
            &fs_path(&missing),
            |asked: &FsPath| std_path(asked).canonicalize().ok().map(|c| fs_path(&c)),
            || None,
        )
    };
    let before = key();
    let sub = tempfile::Builder::new().prefix("sub").rand_bytes(0).tempdir_in(tmp.path()).unwrap();
    assert!(key().same(&before));
    let _db = tempfile::Builder::new().prefix("db").rand_bytes(0).tempdir_in(sub.path()).unwrap();
    assert!(missing.is_dir());
    assert!(key().same(&before));
}

#[test]
fn joining_and_comparing() {
    assert!(p("/a/b").is_absolute());
    assert!(!p("a/b").is_absolute());
    assert!(!p("").is_absolute());
    assert!(p("/a").join(&p("b/c")).same(&p("/a/b/c")));
    assert!(p("/a").join(&p("/b")).same(&p("/b")));
    assert!(p("/a").join(&p("./b")).same(&p("/a/b")));
    assert!(p("/a").join(&p("../b")).same(&p("/a/../b")));
    assert!(p("").join(&p("./b")).same(&p("./b")));
    for (dir, path) in [("/a", "b/c"), ("/a", "/b"), ("/a", "./b"), ("/a", "../b"), ("/a", "."), ("", "./b")] {
        assert_eq!(std_path(&p(dir).join(&p(path))), Path::new(dir).join(path));
    }
    assert!(p("a//b").same(&p("a/b")));
    assert!(!p("a/../b").same(&p("b")));
    assert!(!p("/a").same(&p("a")));
    assert!(!p("/a").same(&p("/b")));
    assert!(p("/a/b").copied().same(&p("/a/b")));
    assert!(PathPart::Normal(vec![1, 2]).copied().same(&PathPart::Normal(vec![1, 2])));
    assert!(!PathPart::Normal(vec![1, 2]).same(&PathPart::Normal(vec![1, 3])));
    assert!(!PathPart::CurDir.same(&PathPart::ParentDir));
}
