//! File-system paths as lists of components, and the key under which an engine is shared.
//!
//! Two paths are the same exactly when their component lists are: `a//b` and `a/b` are one path,
//! `a/../b` and `b` are two. The model covers rooted, slash-separated paths.

use vstd::prelude::*;

verus! {

/// One component of a path. A name is the byte string that the operating system uses.
pub enum PathPart {
    RootDir,
    CurDir,
    ParentDir,
    Normal(Vec<u8>),
}

/// The mathematical counterpart of a [`PathPart`].
pub enum Part {
    RootDir,
    CurDir,
    ParentDir,
    Normal(Seq<u8>),
}

impl View for PathPart {
    type V = Part;

    open spec fn view(&self) -> Part {
        match self {
            PathPart::RootDir => Part::RootDir,
            PathPart::CurDir => Part::CurDir,
            PathPart::ParentDir => Part::ParentDir,
            PathPart::Normal(name) => Part::Normal(name@),
        }
    }
}

impl PathPart {
    /// A copy of this component.
    pub fn copied(&self) -> (part: PathPart)
        ensures
            part@ == self@,
            match (self, part) {
                (PathPart::RootDir, PathPart::RootDir) => true,
                (PathPart::CurDir, PathPart::CurDir) => true,
                (PathPart::ParentDir, PathPart::ParentDir) => true,
                (PathPart::Normal(name), PathPart::Normal(copy)) => copy@ == name@,
                _ => false,
            },
    {
        match self {
            PathPart::RootDir => PathPart::RootDir,
            PathPart::CurDir => PathPart::CurDir,
            PathPart::ParentDir => PathPart::ParentDir,
            PathPart::Normal(name) => PathPart::Normal(
                vstd::slice::slice_to_vec(name.as_slice()),
            ),
        }
    }

    /// Whether two components are the same.
    pub fn same(&self, other: &PathPart) -> (yes: bool)
        ensures
            yes == (self@ == other@),
            match (self, other) {
                (PathPart::RootDir, PathPart::RootDir) => yes,
                (PathPart::CurDir, PathPart::CurDir) => yes,
                (PathPart::ParentDir, PathPart::ParentDir) => yes,
                (PathPart::Normal(a), PathPart::Normal(b)) => yes == (a@ == b@),
                _ => !yes,
            },
    {
        match (self, other) {
            (PathPart::RootDir, PathPart::RootDir) => true,
            (PathPart::CurDir, PathPart::CurDir) => true,
            (PathPart::ParentDir, PathPart::ParentDir) => true,
            (PathPart::Normal(a), PathPart::Normal(b)) => {
                let yes = *a == *b;
                proof {
                    if yes {
                        assert(a@ =~= b@);
                    }
                }
                yes
            },
            _ => false,
        }
    }
}

/// A path, as the list of its components.
pub struct FsPath {
    pub parts: Vec<PathPart>,
}

/// The registry key of a directory: its canonical path, as far as that can be found.
pub type CanonicalKey = FsPath;

impl View for FsPath {
    type V = Seq<Part>;

    open spec fn view(&self) -> Seq<Part> {
        self.parts@.map_values(|part: PathPart| part@)
    }
}

impl FsPath {
    /// A copy of this path.
    pub fn copied(&self) -> (path: FsPath)
        ensures
            path@ == self@,
    {
        let mut parts: Vec<PathPart> = Vec::new();
        for i in 0..self.parts.len()
            invariant
                parts.len() == i,
                forall|j: int| 0 <= j < i ==> (#[trigger] parts[j])@ == self.parts[j]@,
        {
            parts.push(self.parts[i].copied());
        }
        let path = FsPath { parts };
        assert(path@ =~= self@);
        path
    }

    /// Whether two paths are the same, component by component.
    pub fn same(&self, other: &FsPath) -> (yes: bool)
        ensures
            yes == (self@ == other@),
    {
        if self.parts.len() != other.parts.len() {
            assert(self@.len() != other@.len());
            return false;
        }
        for i in 0..self.parts.len()
            invariant
                self.parts.len() == other.parts.len(),
                forall|j: int| 0 <= j < i ==> self@[j] == other@[j],
        {
            if !self.parts[i].same(&other.parts[i]) {
                assert(self@[i as int] != other@[i as int]);
                return false;
            }
        }
        assert(self@ =~= other@);
        true
    }

    /// Whether the path starts at the root.
    pub fn is_absolute(&self) -> (yes: bool)
        ensures
            yes == absolute(self@),
            yes == (self.parts@.len() > 0 && self.parts@[0] is RootDir),
    {
        if self.parts.len() == 0 {
            false
        } else {
            match self.parts[0] {
                PathPart::RootDir => true,
                _ => false,
            }
        }
    }

    /// The path that `path` names when read from this directory. A leading `.` of `path`
    /// disappears behind a directory.
    pub fn join(&self, path: &FsPath) -> (joined: FsPath)
        ensures
            joined@ == join(self@, path@),
            path.parts@.len() > 0 && path.parts@[0] is RootDir ==> joined@ == path@,
            self.parts@.len() == 0 ==> joined@ == path@,
            self.parts@.len() > 0 && path.parts@.len() > 0 && path.parts@[0] is CurDir ==> joined@
                == self@ + path@.skip(1),
            self.parts@.len() > 0 && path.parts@.len() > 0 && !(path.parts@[0] is RootDir)
                && !(path.parts@[0] is CurDir) ==> joined@ == self@ + path@,
            self.parts@.len() > 0 && path.parts@.len() == 0 ==> joined@ == self@,
    {
        if path.is_absolute() || self.parts.len() == 0 {
            return path.copied();
        }
        let mut joined = self.copied();
        let mut i: usize = 0;
        if path.parts.len() > 0 {
            match path.parts[0] {
                PathPart::CurDir => {
                    i = 1;
                },
                _ => {},
            }
        }
        let ghost first = i as int;
        assert(joined@ =~= self@ + path@.subrange(first, first));
        while i < path.parts.len()
            invariant
                0 <= first <= i <= path.parts.len(),
                joined@ == self@ + path@.subrange(first, i as int),
            decreases path.parts.len() - i,
        {
            let ghost before = joined@;
            joined.parts.push(path.parts[i].copied());
            assert(joined@ =~= before.push(path@[i as int]));
            assert(path@.subrange(first, i + 1) =~= path@.subrange(first, i as int).push(
                path@[i as int],
            ));
            i = i + 1;
            assert(joined@ =~= self@ + path@.subrange(first, i as int));
        }
        proof {
            if first == 0 {
                assert(path@.subrange(0, path@.len() as int) =~= path@);
            } else {
                assert(path@.subrange(1, path@.len() as int) =~= path@.skip(1));
            }
        }
        joined
    }
}

/// A path that starts at the root.
pub open spec fn absolute(path: Seq<Part>) -> bool {
    path.len() > 0 && path[0] is RootDir
}

/// `path` read from the directory `dir`.
pub open spec fn join(dir: Seq<Part>, path: Seq<Part>) -> Seq<Part> {
    if absolute(path) || dir.len() == 0 {
        path
    } else if path.len() > 0 && path[0] is CurDir {
        dir + path.skip(1)
    } else {
        dir + path
    }
}

/// A path read from a directory leads on from that directory, through exactly the components of
/// the path, in their order; a leading `.` says nothing and adds nothing, and a path that starts
/// at the root does not depend on the directory.
pub proof fn a_joined_path_goes_on_from_its_directory(dir: Seq<Part>, names: Seq<Part>)
    requires
        dir.len() > 0,
        names.len() > 0 ==> names[0] != Part::RootDir && names[0] != Part::CurDir,
    ensures
        join(dir, names) == dir + names,
        join(dir, seq![Part::CurDir] + names) == dir + names,
        join(dir, names).take(dir.len() as int) == dir,
        join(dir, names).skip(dir.len() as int) == names,
        join(dir, seq![Part::RootDir] + names) == seq![Part::RootDir] + names,
{
    assert((seq![Part::CurDir] + names).skip(1) =~= names);
    assert(join(dir, names).take(dir.len() as int) =~= dir);
    assert(join(dir, names).skip(dir.len() as int) =~= names);
}

/// Different relative paths lead to different places from one directory, but for a leading `.`.
pub proof fn joining_loses_nothing(dir: Seq<Part>, path1: Seq<Part>, path2: Seq<Part>)
    requires
        dir.len() > 0,
        path1.len() > 0 && path2.len() > 0,
        path1[0] is Normal || path1[0] is ParentDir,
        path2[0] is Normal || path2[0] is ParentDir,
        join(dir, path1) == join(dir, path2),
    ensures
        path1 == path2,
{
    a_joined_path_goes_on_from_its_directory(dir, path1);
    a_joined_path_goes_on_from_its_directory(dir, path2);
}

/// Going on in two steps is going on in one.
pub proof fn joining_in_steps_is_joining_at_once(
    dir: Seq<Part>,
    path1: Seq<Part>,
    path2: Seq<Part>,
)
    requires
        dir.len() > 0,
        path1.len() > 0 && path2.len() > 0,
        path1[0] is Normal || path1[0] is ParentDir,
        path2[0] is Normal || path2[0] is ParentDir,
    ensures
        join(join(dir, path1), path2) == join(dir, path1 + path2),
        join(dir, path1 + path2) == dir + path1 + path2,
{
    assert(dir + path1 + path2 =~= dir + (path1 + path2));
}

/// A path is read component by component, each as what it is, and a name byte by byte.
pub proof fn a_path_is_read_component_by_component(path: FsPath, i: int)
    requires
        0 <= i < path.parts@.len(),
    ensures
        path@.len() == path.parts@.len(),
        path.parts@[i] is RootDir <==> path@[i] == Part::RootDir,
        path.parts@[i] is CurDir <==> path@[i] == Part::CurDir,
        path.parts@[i] is ParentDir <==> path@[i] == Part::ParentDir,
        path.parts@[i] matches PathPart::Normal(name) ==> path@[i] == Part::Normal(name@),
{
}

/// `path` made absolute against the current directory, where that is known.
pub open spec fn absolute_against(path: Seq<Part>, cwd: Option<Seq<Part>>) -> Seq<Part> {
    if absolute(path) {
        path
    } else {
        match cwd {
            Some(dir) => join(dir, path),
            None => path,
        }
    }
}

/// The view of an optional path.
pub open spec fn viewed(path: Option<FsPath>) -> Option<Seq<Part>> {
    match path {
        Some(p) => Some(p@),
        None => None,
    }
}

/// `canonicalize`, asked about `path`, can have answered `answer`.
pub open spec fn answered<F: Fn(&FsPath) -> Option<FsPath>>(
    canonicalize: F,
    path: Seq<Part>,
    answer: Option<Seq<Part>>,
) -> bool {
    exists|p: FsPath, a: Option<FsPath>|
        p@ == path && viewed(a) == answer && #[trigger] canonicalize.ensures((&p,), a)
}

/// No component is the root: the components say how to go on from some directory.
pub open spec fn rootless(parts: Seq<Part>) -> bool {
    forall|i: int| 0 <= i < parts.len() ==> !((#[trigger] parts[i]) is RootDir)
}

/// The path without its last `n` components.
pub open spec fn ancestor(path: Seq<Part>, n: int) -> Seq<Part> {
    path.take(path.len() - n)
}

/// The last `n` components of the path.
pub open spec fn tail(path: Seq<Part>, n: int) -> Seq<Part> {
    path.skip(path.len() - n)
}

/// `key` is what a walk up from `abs` finds: the canonical form of the nearest ancestor that has
/// one, followed by the components below it; or `abs` itself, where the walk meets the root, or
/// runs out of components, before an ancestor has one.
pub open spec fn nearest_ancestor_key<F: Fn(&FsPath) -> Option<FsPath>>(
    canonicalize: F,
    abs: Seq<Part>,
    key: Seq<Part>,
) -> bool {
    exists|n: int| #[trigger] walk_ends(canonicalize, abs, n, key)
}

/// The walk up from `abs` ends after `n` steps with `key`.
pub open spec fn walk_ends<F: Fn(&FsPath) -> Option<FsPath>>(
    canonicalize: F,
    abs: Seq<Part>,
    n: int,
    key: Seq<Part>,
) -> bool {
    &&& 0 <= n <= abs.len()
    &&& rootless(tail(abs, n))
    &&& forall|i: int| 0 <= i < n ==> #[trigger] answered(canonicalize, ancestor(abs, i), None)
    &&& {
        ||| exists|base: Seq<Part>|
            #[trigger] answered(canonicalize, ancestor(abs, n), Some(base)) && key == base + tail(
                abs,
                n,
            )
        ||| {
            &&& answered(canonicalize, ancestor(abs, n), None)
            &&& n < abs.len() ==> abs[abs.len() - n - 1] is RootDir
            &&& key == abs
        }
    }
}

/// `key` is the registry key of `path`, given what the file system answered.
pub open spec fn is_key_of<F: Fn(&FsPath) -> Option<FsPath>, G: Fn() -> Option<FsPath>>(
    canonicalize: F,
    current_dir: G,
    path: Seq<Part>,
    key: Seq<Part>,
) -> bool {
    ||| answered(canonicalize, path, Some(key))
    ||| {
        &&& answered(canonicalize, path, None)
        &&& absolute(path)
        &&& nearest_ancestor_key(canonicalize, path, key)
    }
    ||| {
        &&& answered(canonicalize, path, None)
        &&& !absolute(path)
        &&& exists|cwd: Option<FsPath>| #[trigger]
            current_dir.ensures((), cwd) && nearest_ancestor_key(
                canonicalize,
                absolute_against(path, viewed(cwd)),
                key,
            )
    }
}

/// Best-effort canonical registry key. Resolves symlinks and relative parts when `path` exists;
/// otherwise takes the canonical form of the nearest existing ancestor and re-appends the
/// remaining components. Never fails.
///
/// `canonicalize` resolves an existing path, and answers `None` for one that does not resolve;
/// `current_dir` is the directory that relative paths are read from, where there is one.
pub fn canonical_key<F: Fn(&FsPath) -> Option<FsPath>, G: Fn() -> Option<FsPath>>(
    path: &FsPath,
    canonicalize: F,
    current_dir: G,
) -> (key: CanonicalKey)
    requires
        forall|p: &FsPath| canonicalize.requires((p,)),
        current_dir.requires(()),
    ensures
        is_key_of(canonicalize, current_dir, path@, key@),
{
    match canonicalize(path) {
        Some(key) => {
            return key;
        },
        None => {
            assert(viewed(None) == None::<Seq<Part>>);
        },
    }
    let abs = if path.is_absolute() {
        path.copied()
    } else {
        match current_dir() {
            Some(dir) => dir.join(path),
            None => path.copied(),
        }
    };
    walk_up(abs, canonicalize)
}

/// Walks up from `abs` to the nearest ancestor that `canonicalize` resolves.
fn walk_up<F: Fn(&FsPath) -> Option<FsPath>>(abs: FsPath, canonicalize: F) -> (key: CanonicalKey)
    requires
        forall|p: &FsPath| canonicalize.requires((p,)),
    ensures
        nearest_ancestor_key(canonicalize, abs@, key@),
{
    let mut here = abs.copied();
    let mut below: Vec<PathPart> = Vec::new();
    assert(here@ =~= ancestor(abs@, 0));
    loop
        invariant
            forall|p: &FsPath| canonicalize.requires((p,)),
            below.len() <= abs@.len(),
            here@ == ancestor(abs@, below.len() as int),
            rootless(tail(abs@, below.len() as int)),
            forall|i: int|
                0 <= i < below.len() ==> (#[trigger] below[i])@ == abs@[abs@.len() - 1 - i],
            forall|i: int|
                0 <= i < below.len() ==> #[trigger] answered(
                    canonicalize,
                    ancestor(abs@, i),
                    None,
                ),
        decreases here.parts.len(),
    {
        let ghost n = below.len() as int;
        match canonicalize(&here) {
            Some(base) => {
                assert(answered(canonicalize, ancestor(abs@, n), Some(base@))) by {
                    assert(viewed(Some(base)) == Some(base@));
                }
                let mut key = base;
                assert(key@ =~= base@ + tail(abs@, n).take(0));
                while below.len() > 0
                    invariant
                        n <= abs@.len(),
                        below.len() <= n,
                        forall|i: int|
                            0 <= i < below.len() ==> (#[trigger] below[i])@ == abs@[abs@.len() - 1
                                - i],
                        key@ == base@ + tail(abs@, n).take(n - below.len()),
                    decreases below.len(),
                {
                    let ghost before = key@;
                    let ghost left = below.len() as int;
                    match below.pop() {
                        Some(part) => {
                            assert(part@ == abs@[abs@.len() - left]);
                            assert(part@ == tail(abs@, n)[n - left]);
                            key.parts.push(part);
                            assert(key@ =~= before.push(part@));
                            assert(tail(abs@, n).take(n - left + 1) =~= tail(abs@, n).take(
                                n - left,
                            ).push(part@));
                            assert(key@ =~= base@ + tail(abs@, n).take(n - below.len()));
                        },
                        None => {},
                    }
                }
                assert(tail(abs@, n).take(n) =~= tail(abs@, n));
                assert(walk_ends(canonicalize, abs@, n, key@));
                return key;
            },
            None => {
                assert(answered(canonicalize, ancestor(abs@, n), None)) by {
                    assert(viewed(None) == None::<Seq<Part>>);
                }
            },
        }
        let ghost last = here@;
        match here.parts.pop() {
            None | Some(PathPart::RootDir) => {
                assert(walk_ends(canonicalize, abs@, n, abs@)) by {
                    if n < abs@.len() {
                        assert(last[last.len() - 1] == abs@[abs@.len() - n - 1]);
                    }
                }
                return abs;
            },
            Some(part) => {
                assert(last[last.len() - 1] == part@);
                assert(part@ == abs@[abs@.len() - n - 1]);
                below.push(part);
                assert(here@ =~= ancestor(abs@, n + 1));
                assert(tail(abs@, n + 1) =~= seq![part@] + tail(abs@, n));
            },
        }
    }
}

} // verus!
