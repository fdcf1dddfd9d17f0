//! What holds of the keys under which engines are shared.

use vstd::prelude::*;

use crate::path::{
    absolute, absolute_against, ancestor, answered, is_key_of, join, nearest_ancestor_key, rootless,
    tail, walk_ends, FsPath, Part,
};

verus! {

/// `canonicalize` answers as the file system `fs` resolves paths: `None` for what does not exist.
pub open spec fn answers_as<F: Fn(&FsPath) -> Option<FsPath>>(
    canonicalize: F,
    fs: spec_fn(Seq<Part>) -> Option<Seq<Part>>,
) -> bool {
    forall|p: FsPath, a: Option<FsPath>| #[trigger]
        canonicalize.ensures((&p,), a) ==> match a {
            Some(canonical) => fs(p@) == Some(canonical@),
            None => fs(p@) is None,
        }
}

/// `current_dir` answers `cwd`.
pub open spec fn stands_at<G: Fn() -> Option<FsPath>>(
    current_dir: G,
    cwd: Option<Seq<Part>>,
) -> bool {
    forall|dir: Option<FsPath>| #[trigger]
        current_dir.ensures((), dir) ==> match dir {
            Some(d) => cwd == Some(d@),
            None => cwd is None,
        }
}

/// The canonical form of the nearest ancestor of `abs` that exists, at least `n` components up,
/// followed by what is below it.
pub open spec fn nearest_existing(
    fs: spec_fn(Seq<Part>) -> Option<Seq<Part>>,
    abs: Seq<Part>,
    n: int,
) -> Seq<Part>
    decreases abs.len() - n,
{
    match fs(ancestor(abs, n)) {
        Some(base) => base + tail(abs, n),
        None => if 0 <= n < abs.len() && !(abs[abs.len() - n - 1] is RootDir) {
            nearest_existing(fs, abs, n + 1)
        } else {
            abs
        },
    }
}

/// The key of `path` in the file system `fs`, read from the current directory `cwd`.
pub open spec fn key_in(
    fs: spec_fn(Seq<Part>) -> Option<Seq<Part>>,
    cwd: Option<Seq<Part>>,
    path: Seq<Part>,
) -> Seq<Part> {
    match fs(path) {
        Some(canonical) => canonical,
        None => nearest_existing(fs, absolute_against(path, cwd), 0),
    }
}

proof fn lemma_walk_is_determined<F: Fn(&FsPath) -> Option<FsPath>>(
    canonicalize: F,
    fs: spec_fn(Seq<Part>) -> Option<Seq<Part>>,
    abs: Seq<Part>,
    n: int,
    key: Seq<Part>,
    i: int,
)
    requires
        answers_as(canonicalize, fs),
        walk_ends(canonicalize, abs, n, key),
        0 <= i <= n,
    ensures
        key == nearest_existing(fs, abs, i),
    decreases n - i,
{
    if i < n {
        assert(answered(canonicalize, ancestor(abs, i), None));
        assert(tail(abs, n)[n - i - 1] == abs[abs.len() - i - 1]);
        lemma_walk_is_determined(canonicalize, fs, abs, n, key, i + 1);
    }
}

/// A file system that does not change gives every path one key: the canonical form of the path
/// where it exists, else the canonical form of its nearest existing ancestor followed by what is
/// below it.
pub proof fn the_file_system_determines_the_key<
    F: Fn(&FsPath) -> Option<FsPath>,
    G: Fn() -> Option<FsPath>,
>(
    canonicalize: F,
    current_dir: G,
    fs: spec_fn(Seq<Part>) -> Option<Seq<Part>>,
    cwd: Option<Seq<Part>>,
    path: Seq<Part>,
    key: Seq<Part>,
)
    requires
        answers_as(canonicalize, fs),
        stands_at(current_dir, cwd),
        is_key_of(canonicalize, current_dir, path, key),
    ensures
        key == key_in(fs, cwd, path),
{
    if fs(path) is None {
        let abs = absolute_against(path, cwd);
        assert(nearest_ancestor_key(canonicalize, abs, key));
        let n = choose|n: int| #[trigger] walk_ends(canonicalize, abs, n, key);
        lemma_walk_is_determined(canonicalize, fs, abs, n, key, 0);
    }
}

/// Every spelling of an existing directory has one key.
pub proof fn spellings_of_an_existing_directory_share_a_key<
    F: Fn(&FsPath) -> Option<FsPath>,
    G: Fn() -> Option<FsPath>,
>(
    canonicalize: F,
    current_dir: G,
    fs: spec_fn(Seq<Part>) -> Option<Seq<Part>>,
    path1: Seq<Part>,
    path2: Seq<Part>,
    key1: Seq<Part>,
    key2: Seq<Part>,
)
    requires
        answers_as(canonicalize, fs),
        fs(path1) is Some,
        fs(path1) == fs(path2),
        is_key_of(canonicalize, current_dir, path1, key1),
        is_key_of(canonicalize, current_dir, path2, key2),
    ensures
        key1 == key2,
{
}

/// The key of a missing path keeps its missing tail: where `base` exists, and nothing of `names`
/// below it does, the key is the canonical form of `base` followed by `names`, `..` among them.
pub proof fn a_missing_tail_is_preserved<
    F: Fn(&FsPath) -> Option<FsPath>,
    G: Fn() -> Option<FsPath>,
>(
    canonicalize: F,
    current_dir: G,
    fs: spec_fn(Seq<Part>) -> Option<Seq<Part>>,
    cwd: Option<Seq<Part>>,
    path: Seq<Part>,
    base: Seq<Part>,
    names: Seq<Part>,
    key: Seq<Part>,
)
    requires
        answers_as(canonicalize, fs),
        stands_at(current_dir, cwd),
        is_key_of(canonicalize, current_dir, path, key),
        fs(path) is None,
        absolute_against(path, cwd) == base + names,
        fs(base) is Some,
        rootless(names),
        forall|i: int| 0 < i <= names.len() ==> #[trigger] fs(base + names.take(i)) is None,
    ensures
        key == fs(base)->0 + names,
{
    the_file_system_determines_the_key(canonicalize, current_dir, fs, cwd, path, key);
    lemma_missing_tail(fs, base, names, 0);
}

proof fn lemma_missing_tail(
    fs: spec_fn(Seq<Part>) -> Option<Seq<Part>>,
    base: Seq<Part>,
    names: Seq<Part>,
    n: int,
)
    requires
        fs(base) is Some,
        rootless(names),
        forall|i: int| 0 < i <= names.len() ==> #[trigger] fs(base + names.take(i)) is None,
        0 <= n <= names.len(),
    ensures
        nearest_existing(fs, base + names, n) == fs(base)->0 + names,
    decreases names.len() - n,
{
    let abs = base + names;
    if n == names.len() {
        assert(ancestor(abs, n) =~= base);
        assert(tail(abs, n) =~= names);
    } else {
        assert(ancestor(abs, n) =~= base + names.take(names.len() - n));
        assert(abs[abs.len() - n - 1] == names[names.len() - n - 1]);
        lemma_missing_tail(fs, base, names, n + 1);
    }
}

/// What a file system does with paths, read from the current directory `cwd`: a canonical form
/// starts at the root; going on from a directory and going on from its canonical form lead to one
/// place; no directory is named by nothing; and a relative path is read from `cwd`, which starts at
/// the root.
pub open spec fn resolves_paths(
    fs: spec_fn(Seq<Part>) -> Option<Seq<Part>>,
    cwd: Option<Seq<Part>>,
) -> bool {
    &&& forall|p: Seq<Part>| (#[trigger] fs(p)) is Some ==> absolute(fs(p)->0)
    &&& forall|p: Seq<Part>, rest: Seq<Part>|
        fs(p) is Some && rootless(rest) ==> #[trigger] fs(p + rest) == fs(fs(p)->0 + rest)
    &&& fs(seq![]) is None
    &&& cwd matches Some(dir) ==> absolute(dir) && forall|p: Seq<Part>|
        p.len() > 0 && !absolute(p) ==> #[trigger] fs(p) == fs(join(dir, p))
}

/// A canonical form is its own canonical form.
proof fn lemma_canonical(
    fs: spec_fn(Seq<Part>) -> Option<Seq<Part>>,
    cwd: Option<Seq<Part>>,
    p: Seq<Part>,
)
    requires
        resolves_paths(fs, cwd),
        fs(p) is Some,
    ensures
        fs(fs(p)->0) == fs(p),
{
    let none = Seq::<Part>::empty();
    assert(rootless(none));
    assert(p + none =~= p);
    assert(fs(p)->0 + none =~= fs(p)->0);
    assert(fs(p + none) == fs(fs(p)->0 + none));
}

/// Where a walk up from `abs` ends: at an ancestor that exists, or nowhere.
proof fn lemma_walk(
    fs: spec_fn(Seq<Part>) -> Option<Seq<Part>>,
    abs: Seq<Part>,
    i: int,
) -> (n: int)
    requires
        0 <= i <= abs.len(),
        rootless(tail(abs, i)),
        forall|j: int| 0 <= j < i ==> (#[trigger] fs(ancestor(abs, j))) is None,
    ensures
        i <= n <= abs.len(),
        rootless(tail(abs, n)),
        forall|j: int| 0 <= j < n ==> (#[trigger] fs(ancestor(abs, j))) is None,
        match fs(ancestor(abs, n)) {
            Some(base) => nearest_existing(fs, abs, i) == base + tail(abs, n),
            None => nearest_existing(fs, abs, i) == abs,
        },
    decreases abs.len() - i,
{
    if fs(ancestor(abs, i)) is None && i < abs.len() && !(abs[abs.len() - i - 1] is RootDir) {
        assert(tail(abs, i + 1) =~= seq![abs[abs.len() - i - 1]] + tail(abs, i));
        lemma_walk(fs, abs, i + 1)
    } else {
        i
    }
}

/// The key of a key is that key.
proof fn lemma_key_of_key(
    fs: spec_fn(Seq<Part>) -> Option<Seq<Part>>,
    cwd: Option<Seq<Part>>,
    path: Seq<Part>,
)
    requires
        resolves_paths(fs, cwd),
    ensures
        key_in(fs, cwd, key_in(fs, cwd, path)) == key_in(fs, cwd, path),
{
    let key = key_in(fs, cwd, path);
    if fs(path) is Some {
        lemma_canonical(fs, cwd, path);
    } else {
        let abs = absolute_against(path, cwd);
        assert(tail(abs, 0) =~= Seq::empty());
        let n = lemma_walk(fs, abs, 0);
        assert(ancestor(abs, 0) =~= abs);
        if fs(ancestor(abs, n)) is Some {
            let base = fs(ancestor(abs, n))->0;
            let names = tail(abs, n);
            lemma_canonical(fs, cwd, ancestor(abs, n));
            assert forall|i: int| 0 < i <= names.len() implies #[trigger] fs(base + names.take(i))
                is None by {
                let rest = names.take(i);
                assert(rootless(rest));
                assert(fs(ancestor(abs, n) + rest) == fs(base + rest));
                assert(ancestor(abs, n) + rest =~= ancestor(abs, n - i));
            }
            lemma_missing_tail(fs, base, names, 0);
            assert(absolute(base + names));
            if names.len() == 0 {
                assert(base + names =~= base);
            } else {
                assert(names.take(names.len() as int) =~= names);
                assert(fs(base + names) is None);
            }
        } else {
            assert(key == abs);
        }
    }
}

/// The key of a key is that key, as long as the file system and the current directory stay as they
/// are.
pub proof fn the_key_of_a_key_is_that_key<
    F: Fn(&FsPath) -> Option<FsPath>,
    G: Fn() -> Option<FsPath>,
>(
    canonicalize: F,
    current_dir: G,
    fs: spec_fn(Seq<Part>) -> Option<Seq<Part>>,
    cwd: Option<Seq<Part>>,
    path: Seq<Part>,
    key: Seq<Part>,
    again: Seq<Part>,
)
    requires
        resolves_paths(fs, cwd),
        answers_as(canonicalize, fs),
        stands_at(current_dir, cwd),
        is_key_of(canonicalize, current_dir, path, key),
        is_key_of(canonicalize, current_dir, key, again),
    ensures
        again == key,
{
    the_file_system_determines_the_key(canonicalize, current_dir, fs, cwd, path, key);
    the_file_system_determines_the_key(canonicalize, current_dir, fs, cwd, key, again);
    lemma_key_of_key(fs, cwd, path);
}

/// A relative path and the path that it is when read from the current directory have one key, and
/// it starts at the root.
pub proof fn a_relative_path_has_the_key_of_its_absolute_form<
    F: Fn(&FsPath) -> Option<FsPath>,
    G: Fn() -> Option<FsPath>,
>(
    canonicalize: F,
    current_dir: G,
    fs: spec_fn(Seq<Part>) -> Option<Seq<Part>>,
    dir: Seq<Part>,
    path: Seq<Part>,
    key: Seq<Part>,
    joined: Seq<Part>,
)
    requires
        resolves_paths(fs, Some(dir)),
        answers_as(canonicalize, fs),
        stands_at(current_dir, Some(dir)),
        !absolute(path),
        is_key_of(canonicalize, current_dir, path, key),
        is_key_of(canonicalize, current_dir, join(dir, path), joined),
    ensures
        key == joined,
        absolute(key),
{
    let cwd = Some(dir);
    the_file_system_determines_the_key(canonicalize, current_dir, fs, cwd, path, key);
    the_file_system_determines_the_key(canonicalize, current_dir, fs, cwd, join(dir, path), joined);
    let abs = join(dir, path);
    assert(absolute(abs));
    assert(tail(abs, 0) =~= Seq::empty());
    assert(ancestor(abs, 0) =~= abs);
    let n = lemma_walk(fs, abs, 0);
    if fs(ancestor(abs, n)) is Some {
        let base = fs(ancestor(abs, n))->0;
        assert(absolute(base));
        assert(base + tail(abs, n) == seq![base[0]] + (base.skip(1) + tail(abs, n)));
    }
    if fs(abs) is Some {
        assert(fs(abs)->0 + tail(abs, 0) =~= fs(abs)->0);
    }
    if path.len() == 0 {
        assert(path =~= seq![]);
    }
}

/// The key of a missing path is its key once it exists: where `existing` is the nearest ancestor
/// that exists, and the names below it are made as plain directories, the key stays.
pub proof fn a_key_outlives_the_making_of_its_directory<
    F: Fn(&FsPath) -> Option<FsPath>,
    G: Fn() -> Option<FsPath>,
    H: Fn(&FsPath) -> Option<FsPath>,
>(
    canonicalize_before: F,
    canonicalize_after: H,
    current_dir: G,
    before: spec_fn(Seq<Part>) -> Option<Seq<Part>>,
    after: spec_fn(Seq<Part>) -> Option<Seq<Part>>,
    cwd: Option<Seq<Part>>,
    path: Seq<Part>,
    existing: Seq<Part>,
    names: Seq<Part>,
    key_before: Seq<Part>,
    key_after: Seq<Part>,
)
    requires
        resolves_paths(before, cwd),
        resolves_paths(after, cwd),
        answers_as(canonicalize_before, before),
        answers_as(canonicalize_after, after),
        stands_at(current_dir, cwd),
        is_key_of(canonicalize_before, current_dir, path, key_before),
        is_key_of(canonicalize_after, current_dir, path, key_after),
        absolute_against(path, cwd) == existing + names,
        forall|i: int| 0 <= i < names.len() ==> (#[trigger] names[i]) is Normal,
        before(path) is None,
        before(existing) is Some,
        forall|i: int| 0 < i <= names.len() ==> #[trigger] before(existing + names.take(i)) is None,
        after(existing) == before(existing),
        forall|i: int|
            0 < i <= names.len() ==> #[trigger] after(before(existing)->0 + names.take(i)) == Some(
                before(existing)->0 + names.take(i),
            ),
    ensures
        key_after == key_before,
{
    the_file_system_determines_the_key(
        canonicalize_before,
        current_dir,
        before,
        cwd,
        path,
        key_before,
    );
    the_file_system_determines_the_key(
        canonicalize_after,
        current_dir,
        after,
        cwd,
        path,
        key_after,
    );
    let abs = existing + names;
    let base = before(existing)->0;
    assert(rootless(names));
    lemma_missing_tail(before, existing, names, 0);
    assert(key_before == base + names);
    assert(after(existing + names) == after(base + names));
    assert(tail(abs, 0) =~= Seq::empty());
    assert(ancestor(abs, 0) =~= abs);
    if names.len() == 0 {
        assert(existing + names =~= existing);
        assert(base + names =~= base);
    } else {
        assert(names.take(names.len() as int) =~= names);
    }
    assert(after(abs) == Some(base + names));
    assert((base + names) + tail(abs, 0) =~= base + names);
    if path.len() == 0 {
        assert(path =~= seq![]);
    }
}

/// `whole` is the path that `path` is when read from `cwd`: itself where it starts at the root or
/// nothing is known of the current directory; else the directory, followed by the components of
/// `path` but for a leading `.`.
pub open spec fn read_from(cwd: Option<Seq<Part>>, path: Seq<Part>, whole: Seq<Part>) -> bool {
    if path.len() > 0 && path[0] == Part::RootDir {
        whole == path
    } else {
        match cwd {
            None => whole == path,
            Some(dir) => {
                &&& dir.len() > 0
                &&& if path.len() > 0 && path[0] == Part::CurDir {
                    path == seq![Part::CurDir] + whole.skip(dir.len() as int)
                } else {
                    path == whole.skip(dir.len() as int)
                }
                &&& whole.len() >= dir.len()
                &&& whole.take(dir.len() as int) == dir
            },
        }
    }
}

proof fn lemma_read_from(cwd: Option<Seq<Part>>, path: Seq<Part>, whole: Seq<Part>)
    requires
        read_from(cwd, path, whole),
    ensures
        whole == absolute_against(path, cwd),
{
    if let Some(dir) = cwd {
        if !(path.len() > 0 && path[0] == Part::RootDir) {
            let rest = whole.skip(dir.len() as int);
            assert(whole =~= dir + rest);
            if path.len() > 0 && path[0] == Part::CurDir {
                assert(path.skip(1) =~= rest);
            }
        }
    }
}

/// A path that exists has its canonical form for its key.
pub proof fn an_existing_path_has_its_canonical_form_for_its_key<
    F: Fn(&FsPath) -> Option<FsPath>,
    G: Fn() -> Option<FsPath>,
>(
    canonicalize: F,
    current_dir: G,
    fs: spec_fn(Seq<Part>) -> Option<Seq<Part>>,
    path: Seq<Part>,
    key: Seq<Part>,
)
    requires
        answers_as(canonicalize, fs),
        is_key_of(canonicalize, current_dir, path, key),
        fs(path) is Some,
    ensures
        fs(path) == Some(key),
{
}

/// A path that does not exist has the canonical form of its nearest existing ancestor for its key,
/// followed by every component below that ancestor, in order.
pub proof fn a_missing_path_goes_on_from_what_exists<
    F: Fn(&FsPath) -> Option<FsPath>,
    G: Fn() -> Option<FsPath>,
>(
    canonicalize: F,
    current_dir: G,
    fs: spec_fn(Seq<Part>) -> Option<Seq<Part>>,
    cwd: Option<Seq<Part>>,
    path: Seq<Part>,
    base: Seq<Part>,
    rest: Seq<Part>,
    key: Seq<Part>,
)
    requires
        answers_as(canonicalize, fs),
        stands_at(current_dir, cwd),
        is_key_of(canonicalize, current_dir, path, key),
        fs(path) is None,
        read_from(cwd, path, base + rest),
        fs(base) is Some,
        forall|i: int| 0 <= i < rest.len() ==> (#[trigger] rest[i]) != Part::RootDir,
        forall|i: int| 0 < i <= rest.len() ==> #[trigger] fs(base + rest.take(i)) is None,
    ensures
        key == fs(base)->0 + rest,
{
    lemma_read_from(cwd, path, base + rest);
    a_missing_tail_is_preserved(canonicalize, current_dir, fs, cwd, path, base, rest, key);
}

/// Where nothing on the way up exists, the key is the path itself, read from the current
/// directory.
pub proof fn where_nothing_exists_the_path_is_its_key<
    F: Fn(&FsPath) -> Option<FsPath>,
    G: Fn() -> Option<FsPath>,
>(
    canonicalize: F,
    current_dir: G,
    fs: spec_fn(Seq<Part>) -> Option<Seq<Part>>,
    cwd: Option<Seq<Part>>,
    path: Seq<Part>,
    whole: Seq<Part>,
    key: Seq<Part>,
)
    requires
        answers_as(canonicalize, fs),
        stands_at(current_dir, cwd),
        is_key_of(canonicalize, current_dir, path, key),
        fs(path) is None,
        read_from(cwd, path, whole),
        forall|i: int| 0 <= i <= whole.len() ==> #[trigger] fs(whole.take(i)) is None,
    ensures
        key == whole,
{
    lemma_read_from(cwd, path, whole);
    the_file_system_determines_the_key(canonicalize, current_dir, fs, cwd, path, key);
    assert(tail(whole, 0) =~= Seq::empty());
    let n = lemma_walk(fs, whole, 0);
    assert(ancestor(whole, n) == whole.take(whole.len() - n));
}

} // verus!
