//! The local and the remote manifest, and paths relative to their roots.
use vstd::prelude::*;

use crate::ordered::{PathMap, PathSet};
use crate::text::{before_last, below, cat3, chars_of, count_char, find_last, is_below, occurrences, owned, same_text};

verus! {

/// What an entry of a tree is.
#[derive(Clone, Copy, Debug, PartialEq, Eq, Structural)]
pub enum EntryKind {
    File,
    Directory,
}

/// The name of a kind in messages.
pub open spec fn kind_text(kind: EntryKind) -> Seq<char> {
    match kind {
        EntryKind::File => "File"@,
        EntryKind::Directory => "Directory"@,
    }
}

/// The name of a kind in messages.
pub fn kind_name(kind: EntryKind) -> (r: &'static str)
    ensures
        r@ == kind_text(kind),
{
    match kind {
        EntryKind::File => "File",
        EntryKind::Directory => "Directory",
    }
}

/// A file or directory of the local tree.
#[derive(Clone, Debug)]
pub struct LocalEntry {
    pub path: String,
    pub kind: EntryKind,
    pub size: u64,
    pub hash: Option<[u8; 32]>,
}

/// What a scan of the local tree found.
#[derive(Debug)]
pub struct LocalManifest {
    pub entries: PathMap<LocalEntry>,
    pub protected_paths: PathSet,
    pub warnings: Vec<String>,
    pub cache_hits: usize,
    pub hashed_files: usize,
}

/// Whether a path is protected, itself or by a directory above it.
pub open spec fn path_protected(protected: Seq<Seq<char>>, path: Seq<char>) -> bool {
    exists|i: int| 0 <= i < protected.len() && (path == #[trigger] protected[i] || below(path, protected[i]))
}

impl LocalManifest {
    /// Whether the path is protected from mirror deletion, itself or by a
    /// directory above it.
    pub fn protects(&self, path: &str) -> (r: bool)
        ensures
            r == path_protected(self.protected_paths.keys(), path@),
    {
        let n: usize = self.protected_paths.len();
        for i in 0..n
            invariant
                n == self.protected_paths.keys().len(),
                forall|j: int|
                    0 <= j < i ==> path@ != #[trigger] self.protected_paths.keys()[j] && !below(
                        path@,
                        self.protected_paths.keys()[j],
                    ),
        {
            let protected = self.protected_paths.path_at(i);
            if same_text(path, protected.as_str()) || is_below(path, protected.as_str()) {
                return true;
            }
        }
        false
    }
}

impl Default for LocalManifest {
    fn default() -> (r: Self)
        ensures
            r.entries.keys().len() == 0,
            r.entries@ == Map::<Seq<char>, LocalEntry>::empty(),
            r.protected_paths.keys().len() == 0,
            r.protected_paths@ == Set::<Seq<char>>::empty(),
            r.warnings@.len() == 0,
            r.cache_hits == 0,
            r.hashed_files == 0,
    {
        LocalManifest {
            entries: PathMap::new(),
            protected_paths: PathSet::new(),
            warnings: Vec::new(),
            cache_hits: 0,
            hashed_files: 0,
        }
    }
}

/// A file or folder of the bucket.
#[derive(Clone, Debug)]
pub struct RemoteEntry {
    pub path: String,
    pub id: u32,
    pub parent: u32,
    pub kind: EntryKind,
    pub size: u64,
    pub filled: u64,
    pub hash: Option<[u8; 32]>,
    pub status: i8,
}

/// What a scan of the bucket folder found.
#[derive(Debug)]
pub struct RemoteManifest {
    pub entries: PathMap<RemoteEntry>,
    pub root_status: i8,
    pub warnings: Vec<String>,
    pub conflicts: Vec<(String, String)>,
}

impl Default for RemoteManifest {
    fn default() -> (r: Self)
        ensures
            r.entries.keys().len() == 0,
            r.entries@ == Map::<Seq<char>, RemoteEntry>::empty(),
            r.root_status == 0,
            r.warnings@.len() == 0,
            r.conflicts@.len() == 0,
    {
        RemoteManifest { entries: PathMap::new(), root_status: 0, warnings: Vec::new(), conflicts: Vec::new() }
    }
}

/// Whether two content hashes are equal.
pub fn same_hash(a: &Option<[u8; 32]>, b: &Option<[u8; 32]>) -> (r: bool)
    ensures
        r == (*a == *b),
{
    match (a, b) {
        (Some(x), Some(y)) => same_digest(x, y),
        (None, None) => true,
        _ => false,
    }
}

/// Whether two digests are equal.
pub fn same_digest(x: &[u8; 32], y: &[u8; 32]) -> (r: bool)
    ensures
        r == (*x == *y),
{
    for i in 0..32
        invariant
            forall|j: int| 0 <= j < i ==> x@[j] == y@[j],
    {
        if x[i] != y[i] {
            return false;
        }
    }
    assert(*x =~= *y);
    true
}

/// The path of the entry `name` in the directory `parent`, where the empty
/// path is the root.
pub open spec fn joined(parent: Seq<char>, name: Seq<char>) -> Seq<char> {
    if parent.len() == 0 {
        name
    } else {
        parent + "/"@ + name
    }
}

/// The path of the entry `name` in the directory `parent`.
pub fn join_path(parent: &str, name: &str) -> (r: String)
    ensures
        r@ == joined(parent@, name@),
{
    if parent.is_empty() {
        owned(name)
    } else {
        cat3(parent, "/", name)
    }
}

/// The directory of a path: what stands before the last slash.
pub open spec fn parent_of(path: Seq<char>) -> Seq<char> {
    before_last(path, '/')
}

/// The directory of a path, empty for an entry of the root.
pub fn parent_path(path: &str) -> (r: &str)
    ensures
        r@ == parent_of(path@),
{
    let chars = chars_of(path);
    match find_last(chars.as_slice(), '/') {
        Some(at) => path.substring_char(0, at),
        None => {
            proof {
                reveal_strlit("");
            }
            ""
        },
    }
}

/// How many names a path is made of.
pub open spec fn depth_of(path: Seq<char>) -> nat {
    if path.len() == 0 {
        0
    } else {
        occurrences(path, '/') + 1
    }
}

proof fn lemma_occurrences_add(a: Seq<char>, b: Seq<char>, c: char)
    ensures
        occurrences(a + b, c) == occurrences(a, c) + occurrences(b, c),
    decreases b.len(),
{
    if b.len() == 0 {
        assert(a + b =~= a);
    } else {
        assert((a + b).drop_last() =~= a + b.drop_last());
        lemma_occurrences_add(a, b.drop_last(), c);
    }
}

/// What lies below a directory is deeper than it.
pub proof fn lemma_below_is_deeper(path: Seq<char>, dir: Seq<char>)
    requires
        below(path, dir),
        dir.len() > 0,
    ensures
        depth_of(path) > depth_of(dir),
{
    let slash = path.subrange(dir.len() as int, dir.len() as int + 1);
    let rest = path.skip(dir.len() as int + 1);
    assert(path =~= dir + slash + rest);
    lemma_occurrences_add(dir + slash, rest, '/');
    lemma_occurrences_add(dir, slash, '/');
    assert(slash.last() == '/');
    assert(slash.drop_last() =~= Seq::empty());
    reveal_with_fuel(occurrences, 2);
    assert(occurrences(slash, '/') == 1);
}

proof fn lemma_last_position_absent(text: Seq<char>, c: char)
    requires
        !text.contains(c),
    ensures
        crate::text::last_position(text, c) is None,
        occurrences(text, c) == 0,
    decreases text.len(),
{
    if text.len() > 0 {
        assert(text.contains(text.last()));
        assert forall|i: int| 0 <= i < text.drop_last().len() implies text.drop_last()[i] != c by {
            assert(text.contains(text[i]));
        }
        lemma_last_position_absent(text.drop_last(), c);
    }
}

proof fn lemma_last_position_join(parent: Seq<char>, name: Seq<char>, c: char)
    requires
        !name.contains(c),
    ensures
        crate::text::last_position(parent.push(c) + name, c) == Some(parent.len() as int),
    decreases name.len(),
{
    let text = parent.push(c) + name;
    if name.len() == 0 {
        assert(text =~= parent.push(c));
    } else {
        assert(name.contains(name.last()));
        assert forall|i: int| 0 <= i < name.drop_last().len() implies name.drop_last()[i] != c by {
            assert(name.contains(name[i]));
        }
        assert(text.drop_last() =~= parent.push(c) + name.drop_last());
        lemma_last_position_join(parent, name.drop_last(), c);
    }
}

/// A name joined to a directory has that directory as its parent; unless both
/// are empty, it is one deeper.
pub proof fn law_join_then_parent(parent: Seq<char>, name: Seq<char>)
    requires
        !name.contains('/'),
    ensures
        parent_of(joined(parent, name)) == parent,
        parent.len() > 0 || name.len() > 0 ==> depth_of(joined(parent, name)) == depth_of(parent) + 1,
        parent.len() > 0 ==> below(joined(parent, name), parent),
{
    reveal_strlit("/");
    lemma_last_position_absent(name, '/');
    if parent.len() > 0 {
        assert("/"@ =~= seq!['/']);
        assert(parent + "/"@ + name =~= parent.push('/') + name);
        lemma_last_position_join(parent, name, '/');
        assert(joined(parent, name).take(parent.len() as int) =~= parent);
        lemma_occurrences_add(parent + "/"@, name, '/');
        lemma_occurrences_add(parent, "/"@, '/');
        assert("/"@.drop_last() =~= Seq::empty());
        reveal_with_fuel(occurrences, 2);
        assert(occurrences("/"@, '/') == 1);
    }
}

/// How many names a path is made of.
pub fn path_depth(path: &str) -> (r: usize)
    ensures
        r == depth_of(path@),
{
    if path.is_empty() {
        0
    } else {
        count_char(path, '/') + 1
    }
}

/// An entry of the root has its name as its path and is one deep; the root
/// itself has no depth.
pub proof fn law_entries_of_the_root(name: Seq<char>)
    ensures
        joined(Seq::empty(), name) == name,
        depth_of(Seq::empty()) == 0,
        name.len() > 0 && !name.contains('/') ==> depth_of(name) == 1 && parent_of(name) == Seq::<char>::empty(),
{
    if name.len() > 0 && !name.contains('/') {
        law_join_then_parent(Seq::empty(), name);
    }
}

/// A path is protected exactly where it is one of the protected paths or lies
/// below one, behind a slash.
pub proof fn law_protection_covers_what_lies_below(protected: Seq<Seq<char>>, path: Seq<char>)
    ensures
        path_protected(protected, path) <==> exists|i: int|
            0 <= i < protected.len() && ({
                let held = #[trigger] protected[i];
                path == held || (held.len() < path.len() && path.take(held.len() as int) == held
                    && path[held.len() as int] == '/')
            }),
        kind_text(EntryKind::File) == "File"@,
        kind_text(EntryKind::Directory) == "Directory"@,
{
    if path_protected(protected, path) {
        let i = choose|i: int| 0 <= i < protected.len() && (path == #[trigger] protected[i] || below(path, protected[i]));
        assert(path == protected[i] || below(path, protected[i]));
    }
}

} // verus!
