//! What holds of a local tree while it is scanned, and once it is.
use vstd::prelude::*;

use crate::file::valid_name;
use crate::outside::hex_text;
use crate::sync::arrange::{arrangement_of, with_key, Arranged, SortKey};
use crate::sync::excludes::entry_excluded;
use crate::sync::local::{
    advanced, entry_seen, file_rechecked, name_taken, name_text, names_listed, scan_start, EntryState, FileStat,
    FrameView, KnownHash, ListedName, LocalItem, LocalScanState, LocalState, NameView, PhaseView, SavedCache,
    ScanLimits,
};
use crate::sync::types::{depth_of, joined, law_join_then_parent, parent_of, EntryKind};
use crate::text::{below, last_position};

verus! {

/// Whether a listing names each entry once.
pub open spec fn listed_once(names: Seq<NameView>) -> bool {
    forall|i: int, j: int|
        0 <= i < j < names.len() ==> (#[trigger] names[i]).bytes != (#[trigger] names[j]).bytes
}

/// Whether a path is a directory that was found.
pub open spec fn is_directory(found: LocalState, path: Seq<char>) -> bool {
    found.entries.contains_key(path) && found.entries[path].kind is Directory
}

/// Whether a path is the root or a directory that was found.
pub open spec fn holds_entries(found: LocalState, path: Seq<char>) -> bool {
    path.len() == 0 || is_directory(found, path)
}

/// Whether a path was found, as an entry or as one to be left alone.
pub open spec fn known(found: LocalState, path: Seq<char>) -> bool {
    found.entries.contains_key(path) || found.protected.contains(path)
}

/// The entries directly in a directory.
pub open spec fn children_of(found: LocalState, directory: Seq<char>) -> Set<Seq<char>> {
    found.entries.dom().filter(|path: Seq<char>| parent_of(path) == directory)
}

/// The files that were found.
pub open spec fn files_of(found: LocalState) -> Set<Seq<char>> {
    found.entries.dom().filter(|path: Seq<char>| found.entries[path].kind is File)
}

/// Whether an entry is one that the limits allow: a file has a hash and is not
/// too large, a directory is not too deep.
pub open spec fn item_sound(item: LocalItem, path: Seq<char>, limits: ScanLimits) -> bool {
    &&& item.path == path
    &&& match item.kind {
        EntryKind::File => item.hash is Some && item.size <= limits.max_file_size,
        EntryKind::Directory => item.hash is None && item.size == 0 && limits.parent_depth + depth_of(path)
            <= limits.max_folder_depth,
    }
}

/// Whether a directory has as many entries as it may; the root of a bucket has
/// no limit.
pub open spec fn within_limit(found: LocalState, directory: Seq<char>, limits: ScanLimits) -> bool {
    limits.parent_depth > 0 || directory.len() > 0 ==> children_of(found, directory).len() <= limits.max_children
}

/// What holds of everything found so far: every path is in the root or in a
/// directory that was found, every entry is within its limits, and what is to
/// be left alone is no entry.
pub open spec fn found_sound(found: LocalState, limits: ScanLimits) -> bool {
    &&& found.entries.dom().finite()
    &&& forall|path: Seq<char>| #[trigger]
        found.entries.contains_key(path) ==> item_sound(found.entries[path], path, limits)
    &&& forall|path: Seq<char>| #[trigger]
        known(found, path) ==> path.len() > 0 && holds_entries(found, parent_of(path))
    &&& forall|path: Seq<char>| #[trigger] found.protected.contains(path) ==> !found.entries.contains_key(path)
}

/// The entry that a scan is looking at.
pub open spec fn entry_at_hand(phase: PhaseView) -> Option<Seq<char>> {
    match phase {
        PhaseView::Inspecting { path } => Some(path),
        PhaseView::Hashing { path, .. } => Some(path),
        PhaseView::Rechecking { path, .. } => Some(path),
        _ => None,
    }
}

/// How many files are counted that are no entries yet.
pub open spec fn files_at_hand(phase: PhaseView) -> int {
    if phase is Hashing || phase is Rechecking {
        1
    } else {
        0
    }
}

/// Whether a scan has come to a path.
pub open spec fn come_to(state: LocalScanState, path: Seq<char>) -> bool {
    known(state.found, path) || entry_at_hand(state.phase) == Some(path)
}

/// The path of a name in a directory.
pub open spec fn path_in(directory: Seq<char>, name: NameView) -> Seq<char> {
    joined(directory, name_text(name))
}

/// Whether a name can become an entry.
pub open spec fn usable_name(name: NameView) -> bool {
    vstd::utf8::valid_utf8(name.bytes) && valid_name(name_text(name))
}

/// Whether the names that are left of a directory are distinct and the scan
/// has come to none of them.
pub open spec fn names_ahead(state: LocalScanState, frame: FrameView) -> bool {
    &&& holds_entries(state.found, frame.path)
    &&& listed_once(frame.names)
    &&& forall|k: int|
        0 <= k < frame.names.len() && usable_name(#[trigger] frame.names[k]) ==> !come_to(
            state,
            path_in(frame.path, frame.names[k]),
        )
}

/// Whether the directories that are being scanned lie one in the other, and
/// each has counted its entries.
pub open spec fn frames_sound(state: LocalScanState) -> bool {
    let n = state.frames.len();
    &&& forall|i: int| 0 <= i < n ==> names_ahead(state, #[trigger] state.frames[i])
    &&& forall|i: int, j: int|
        0 <= i < j < n ==> (#[trigger] state.frames[i]).path.len() < (#[trigger] state.frames[j]).path.len()
    &&& forall|i: int|
        0 <= i < n ==> (#[trigger] state.frames[i]).children == children_of(state.found, state.frames[i].path).len()
            + (if i == n - 1 {
            files_at_hand(state.phase)
        } else {
            0
        })
}

/// Whether what the scan waits for fits what it has found.
pub open spec fn phase_sound(state: LocalScanState) -> bool {
    &&& match state.phase {
        PhaseView::Listing { path } => {
            &&& holds_entries(state.found, path)
            &&& forall|i: int| 0 <= i < state.frames.len() ==> (#[trigger] state.frames[i]).path.len() < path.len()
            &&& forall|other: Seq<char>| #[trigger] known(state.found, other) ==> parent_of(other) != path
        },
        PhaseView::Hashing { stat, .. } => stat.size <= state.limits.max_file_size,
        PhaseView::Rechecking { stat, .. } => stat.size <= state.limits.max_file_size,
        PhaseView::Finished => state.frames.len() == 0,
        _ => true,
    }
    &&& entry_at_hand(state.phase) matches Some(path) ==> {
        &&& state.frames.len() > 0
        &&& path.len() > 0
        &&& parent_of(path) == state.frames.last().path
        &&& !known(state.found, path)
    }
}

/// Whether a directory is still being scanned.
pub open spec fn is_open(state: LocalScanState, directory: Seq<char>) -> bool {
    ||| state.phase matches PhaseView::Listing { path } && path == directory
    ||| exists|i: int| 0 <= i < state.frames.len() && (#[trigger] state.frames[i]).path == directory
}

/// Whether nothing that is excluded is an entry.
pub open spec fn excludes_kept(state: LocalScanState) -> bool {
    &&& forall|path: Seq<char>| #[trigger]
        state.found.entries.contains_key(path) ==> !entry_excluded(state.patterns, path)
    &&& entry_at_hand(state.phase) matches Some(path) ==> !entry_excluded(state.patterns, path)
}

/// Whether every hash that is kept for the next scan is that of a file that was
/// found.
pub open spec fn hashes_found(found: LocalState, hashes: Map<Seq<char>, KnownHash>) -> bool {
    forall|path: Seq<char>| #[trigger]
        hashes.contains_key(path) ==> {
            &&& found.entries.contains_key(path)
            &&& found.entries[path].kind is File
            &&& found.entries[path].size == hashes[path].size
            &&& hex_text(found.entries[path].hash->0@) == hashes[path].hash
        }
}

/// The invariant of a scan.
pub open spec fn scan_sound(state: LocalScanState) -> bool {
    &&& found_sound(state.found, state.limits)
    &&& frames_sound(state)
    &&& phase_sound(state)
    &&& forall|directory: Seq<char>| #[trigger]
        holds_entries(state.found, directory) && !is_open(state, directory) ==> within_limit(
            state.found,
            directory,
            state.limits,
        )
    &&& state.found.cache_hits + state.found.hashed_files == files_of(state.found).len() + files_at_hand(state.phase)
    &&& excludes_kept(state)
    &&& hashes_found(state.found, state.next_cache)
}

/// What a finished scan has found: a tree within its limits.
pub open spec fn whole_tree(found: LocalState, patterns: Seq<Seq<char>>, limits: ScanLimits) -> bool {
    &&& forall|path: Seq<char>| #[trigger]
        found.entries.contains_key(path) ==> item_sound(found.entries[path], path, limits) && path.len() > 0
            && holds_entries(found, parent_of(path)) && !entry_excluded(patterns, path)
    &&& forall|path: Seq<char>, left: Seq<char>|
        #![trigger found.entries.contains_key(path), found.protected.contains(left)]
        found.entries.contains_key(path) && found.protected.contains(left) ==> path != left && !below(path, left)
    &&& forall|directory: Seq<char>| #[trigger]
        holds_entries(found, directory) ==> within_limit(found, directory, limits)
    &&& found.cache_hits + found.hashed_files == files_of(found).len()
}

proof fn lemma_last_position(text: Seq<char>, c: char)
    ensures
        match last_position(text, c) {
            Some(at) => 0 <= at < text.len() && text[at] == c && forall|i: int| at < i < text.len() ==> text[i] != c,
            None => forall|i: int| 0 <= i < text.len() ==> text[i] != c,
        },
    decreases text.len(),
{
    if text.len() > 0 && text.last() != c {
        lemma_last_position(text.drop_last(), c);
        assert forall|i: int| 0 <= i < text.len() - 1 implies text[i] == text.drop_last()[i] by {}
    }
}

proof fn lemma_parent_is_shorter(path: Seq<char>)
    requires
        path.len() > 0,
    ensures
        parent_of(path).len() < path.len(),
{
    lemma_last_position(path, '/');
}

/// What lies below a directory is in it, or its own directory is below it.
proof fn lemma_parent_of_below(path: Seq<char>, directory: Seq<char>)
    requires
        below(path, directory),
    ensures
        parent_of(path) == directory || below(parent_of(path), directory),
{
    lemma_last_position(path, '/');
    let at = last_position(path, '/')->0;
    assert(path[directory.len() as int] == '/');
    assert(last_position(path, '/') is Some);
    assert(at >= directory.len());
    let parent = parent_of(path);
    if at == directory.len() {
        assert(parent =~= directory);
    } else {
        assert(parent.take(directory.len() as int) =~= path.take(directory.len() as int));
    }
}

/// Whatever has an entry below it was found as a directory.
proof fn lemma_above_entries(found: LocalState, limits: ScanLimits, path: Seq<char>, directory: Seq<char>)
    requires
        found_sound(found, limits),
        known(found, path),
        below(path, directory),
        directory.len() > 0,
    ensures
        is_directory(found, directory),
    decreases path.len(),
{
    let parent = parent_of(path);
    assert(path.len() > 0 && holds_entries(found, parent));
    lemma_parent_is_shorter(path);
    lemma_parent_of_below(path, directory);
    if parent != directory {
        assert(known(found, parent));
        lemma_above_entries(found, limits, parent, directory);
    }
}

proof fn lemma_with_key_empty(names: Seq<NameView>, key: SortKey)
    requires
        forall|i: int| 0 <= i < names.len() ==> ListedName::sort_key(#[trigger] names[i]) != key,
    ensures
        with_key::<ListedName>(names, key).len() == 0,
    decreases names.len(),
{
    if names.len() > 0 {
        assert(ListedName::sort_key(names[names.len() - 1]) != key);
        assert forall|i: int| 0 <= i < names.drop_last().len() implies ListedName::sort_key(
            #[trigger] names.drop_last()[i],
        ) != key by {
            assert(names.drop_last()[i] == names[i]);
        }
        lemma_with_key_empty(names.drop_last(), key);
    }
}

proof fn lemma_with_key_once(names: Seq<NameView>, key: SortKey)
    requires
        listed_once(names),
    ensures
        with_key::<ListedName>(names, key).len() <= 1,
    decreases names.len(),
{
    if names.len() > 0 {
        let rest = names.drop_last();
        assert(listed_once(rest));
        if ListedName::sort_key(names.last()) == key {
            assert forall|i: int| 0 <= i < rest.len() implies ListedName::sort_key(#[trigger] rest[i]) != key by {
                assert(rest[i] == names[i]);
                assert(names[i].bytes != names[names.len() - 1].bytes);
            }
            lemma_with_key_empty(rest, key);
        } else {
            lemma_with_key_once(rest, key);
        }
    }
}

proof fn lemma_with_key_has(names: Seq<NameView>, at: int)
    requires
        0 <= at < names.len(),
    ensures
        with_key::<ListedName>(names, ListedName::sort_key(names[at])).len() >= 1,
    decreases names.len(),
{
    if at < names.len() - 1 {
        assert(names.drop_last()[at] == names[at]);
        lemma_with_key_has(names.drop_last(), at);
    }
}

proof fn lemma_with_key_twice(names: Seq<NameView>, a: int, b: int)
    requires
        0 <= a < b < names.len(),
        names[a].bytes == names[b].bytes,
    ensures
        with_key::<ListedName>(names, ListedName::sort_key(names[a])).len() >= 2,
    decreases names.len(),
{
    let rest = names.drop_last();
    assert(rest[a] == names[a]);
    if b == names.len() - 1 {
        lemma_with_key_has(rest, a);
    } else {
        assert(rest[b] == names[b]);
        lemma_with_key_twice(rest, a, b);
    }
}

/// Names stay distinct when they are put in order.
proof fn lemma_arranged_once(names: Seq<NameView>, sorted: Seq<NameView>)
    requires
        listed_once(names),
        arrangement_of::<ListedName>(names, sorted),
    ensures
        listed_once(sorted),
{
    assert forall|i: int, j: int| 0 <= i < j < sorted.len() implies (#[trigger] sorted[i]).bytes != (
    #[trigger] sorted[j]).bytes by {
        if sorted[i].bytes == sorted[j].bytes {
            let key = ListedName::sort_key(sorted[i]);
            lemma_with_key_twice(sorted, i, j);
            lemma_with_key_once(names, key);
            assert(with_key::<ListedName>(sorted, key) == with_key::<ListedName>(names, key));
        }
    }
}

/// A usable name gives a path of its own in its directory.
proof fn lemma_path_in(directory: Seq<char>, name: NameView)
    requires
        usable_name(name),
    ensures
        parent_of(path_in(directory, name)) == directory,
        path_in(directory, name).len() > directory.len(),
{
    law_join_then_parent(directory, name_text(name));
    lemma_parent_is_shorter(path_in(directory, name));
}

/// Different names in a directory give different paths.
proof fn lemma_paths_differ(directory: Seq<char>, a: NameView, b: NameView)
    requires
        usable_name(a),
        usable_name(b),
        a.bytes != b.bytes,
    ensures
        path_in(directory, a) != path_in(directory, b),
{
    vstd::utf8::decode_utf8_encode_utf8(a.bytes);
    vstd::utf8::decode_utf8_encode_utf8(b.bytes);
    let x = name_text(a);
    let y = name_text(b);
    assert(x != y);
    if directory.len() > 0 && path_in(directory, a) == path_in(directory, b) {
        let start = directory.len() + "/"@.len();
        assert(path_in(directory, a).skip(start as int) =~= x);
        assert(path_in(directory, b).skip(start as int) =~= y);
    }
}

proof fn lemma_entry_added(found: LocalState, item: LocalItem, directory: Seq<char>)
    requires
        found.entries.dom().finite(),
        !found.entries.contains_key(item.path),
    ensures
        children_of(found.with_entry(item), directory).len() == children_of(found, directory).len() + (
        if parent_of(item.path) == directory {
            1int
        } else {
            0int
        }),
        files_of(found.with_entry(item)).len() == files_of(found).len() + (if item.kind is File {
            1int
        } else {
            0int
        }),
{
    let next = found.with_entry(item);
    if parent_of(item.path) == directory {
        assert(children_of(next, directory) =~= children_of(found, directory).insert(item.path));
    } else {
        assert(children_of(next, directory) =~= children_of(found, directory));
    }
    if item.kind is File {
        assert(files_of(next) =~= files_of(found).insert(item.path));
    } else {
        assert(files_of(next) =~= files_of(found));
    }
}

/// A scan keeps the invariant from its start.
pub proof fn law_scans_start_sound(
    patterns: Seq<Seq<char>>,
    limits: ScanLimits,
    links_refused: bool,
    saved: Option<SavedCache>,
)
    ensures
        scan_sound(scan_start(patterns, limits, links_refused, saved)),
{
    let state = scan_start(patterns, limits, links_refused, saved);
    assert(files_of(state.found) =~= Set::empty());
    assert(is_open(state, Seq::empty()));
    assert forall|directory: Seq<char>| #[trigger] holds_entries(state.found, directory) && !is_open(
        state,
        directory,
    ) implies within_limit(state.found, directory, limits) by {
        assert(directory =~= Seq::empty());
    }
}

/// A listing that names each entry once keeps the invariant.
pub proof fn law_listings_keep_scans_sound(state: LocalScanState, names: Seq<NameView>, sorted: Seq<NameView>)
    requires
        scan_sound(state),
        state.phase is Listing,
        listed_once(names),
        arrangement_of::<ListedName>(names, sorted),
    ensures
        scan_sound(names_listed(state, sorted)),
{
    let next = names_listed(state, sorted);
    let path = state.phase->Listing_path;
    let n = state.frames.len() as int;
    lemma_arranged_once(names, sorted);
    assert(children_of(state.found, path) =~= Set::empty()) by {
        assert forall|other: Seq<char>| !children_of(state.found, path).contains(other) by {
            if children_of(state.found, path).contains(other) {
                assert(known(state.found, other));
            }
        }
    }
    assert forall|i: int| 0 <= i < next.frames.len() implies names_ahead(next, #[trigger] next.frames[i]) by {
        if i < n {
            assert(next.frames[i] == state.frames[i]);
            assert(names_ahead(state, state.frames[i]));
            assert forall|k: int|
                0 <= k < next.frames[i].names.len() && usable_name(#[trigger] next.frames[i].names[k]) implies !come_to(
                next,
                path_in(next.frames[i].path, next.frames[i].names[k]),
            ) by {
                assert(!come_to(state, path_in(state.frames[i].path, state.frames[i].names[k])));
            }
        } else {
            let frame = next.frames[i];
            assert forall|k: int| 0 <= k < frame.names.len() && usable_name(#[trigger] frame.names[k]) implies !come_to(
                next,
                path_in(frame.path, frame.names[k]),
            ) by {
                lemma_path_in(path, frame.names[k]);
            }
        }
    }
    assert forall|i: int| 0 <= i < next.frames.len() implies (#[trigger] next.frames[i]).children == children_of(
        next.found,
        next.frames[i].path,
    ).len() by {
        if i < n {
            assert(next.frames[i] == state.frames[i]);
        }
    }
    assert forall|directory: Seq<char>| #[trigger] holds_entries(next.found, directory) && !is_open(
        next,
        directory,
    ) implies within_limit(next.found, directory, next.limits) by {
        assert(next.frames[n].path == path);
        if is_open(state, directory) {
            if directory != path {
                let i = choose|i: int| 0 <= i < n && (#[trigger] state.frames[i]).path == directory;
                assert(next.frames[i].path == directory);
            }
        }
    }
}

proof fn lemma_taken_name_is_new(state: LocalScanState)
    requires
        scan_sound(state),
        state.phase is Walking,
        state.frames.len() > 0,
        state.frames.last().names.len() > 0,
        usable_name(state.frames.last().names[0]),
    ensures
        ({
            let top = state.frames.last();
            let path = path_in(top.path, top.names[0]);
            let frames = name_taken(state.frames);
            &&& !come_to(state, path)
            &&& parent_of(path) == top.path
            &&& path.len() > 0
            &&& frames.len() == state.frames.len()
            &&& forall|i: int|
                0 <= i < frames.len() ==> {
                    &&& (#[trigger] frames[i]).path == state.frames[i].path
                    &&& frames[i].children == state.frames[i].children
                    &&& listed_once(frames[i].names)
                }
            &&& forall|i: int, k: int|
                0 <= i < frames.len() && 0 <= k < frames[i].names.len() && usable_name(
                    #[trigger] frames[i].names[k],
                ) ==> path_in(frames[i].path, frames[i].names[k]) != path && !come_to(
                    state,
                    path_in(frames[i].path, frames[i].names[k]),
                )
        }),
{
    let n = state.frames.len();
    let top = state.frames.last();
    let name = top.names[0];
    let path = path_in(top.path, name);
    let frames = name_taken(state.frames);
    assert(names_ahead(state, state.frames[n - 1]));
    lemma_path_in(top.path, name);
    assert(!come_to(state, path_in(state.frames[n - 1].path, state.frames[n - 1].names[0])));
    assert forall|i: int| 0 <= i < frames.len() implies {
        &&& (#[trigger] frames[i]).path == state.frames[i].path
        &&& frames[i].children == state.frames[i].children
        &&& listed_once(frames[i].names)
    } by {
        assert(names_ahead(state, state.frames[i]));
        if i == n - 1 {
            assert forall|a: int, b: int| 0 <= a < b < frames[i].names.len() implies (#[trigger] frames[i].names[a]).bytes
                != (#[trigger] frames[i].names[b]).bytes by {
                assert(top.names[a + 1].bytes != top.names[b + 1].bytes);
            }
        }
    }
    assert forall|i: int, k: int|
        0 <= i < frames.len() && 0 <= k < frames[i].names.len() && usable_name(
            #[trigger] frames[i].names[k],
        ) implies path_in(frames[i].path, frames[i].names[k]) != path && !come_to(
        state,
        path_in(frames[i].path, frames[i].names[k]),
    ) by {
        let other = frames[i].names[k];
        assert(names_ahead(state, state.frames[i]));
        lemma_path_in(frames[i].path, other);
        if i == n - 1 {
            assert(other == top.names[k + 1]);
            assert(top.names[0].bytes != top.names[k + 1].bytes);
            lemma_paths_differ(top.path, name, other);
            assert(!come_to(state, path_in(state.frames[i].path, state.frames[i].names[k + 1])));
        } else {
            assert(frames[i] == state.frames[i]);
            assert(state.frames[i].path.len() < state.frames[n - 1].path.len());
            assert(!come_to(state, path_in(state.frames[i].path, state.frames[i].names[k])));
        }
    }
}

/// Going on with the next name, or leaving a directory, keeps the invariant.
pub proof fn law_advancing_keeps_scans_sound(state: LocalScanState)
    requires
        scan_sound(state),
        state.phase is Walking,
    ensures
        advanced(state) matches Ok(next) ==> scan_sound(next),
{
    let n = state.frames.len() as int;
    if n > 0 && advanced(state) is Ok {
        let top = state.frames.last();
        let next = advanced(state)->Ok_0;
        if top.names.len() == 0 {
            assert forall|i: int| 0 <= i < next.frames.len() implies names_ahead(next, #[trigger] next.frames[i]) by {
                assert(next.frames[i] == state.frames[i]);
                assert(names_ahead(state, state.frames[i]));
                assert forall|k: int|
                    0 <= k < next.frames[i].names.len() && usable_name(
                        #[trigger] next.frames[i].names[k],
                    ) implies !come_to(next, path_in(next.frames[i].path, next.frames[i].names[k])) by {
                    assert(!come_to(state, path_in(state.frames[i].path, state.frames[i].names[k])));
                }
            }
            assert forall|i: int| 0 <= i < next.frames.len() implies (#[trigger] next.frames[i]).children
                == children_of(next.found, next.frames[i].path).len() by {
                assert(next.frames[i] == state.frames[i]);
            }
            assert forall|directory: Seq<char>| #[trigger] holds_entries(next.found, directory) && !is_open(
                next,
                directory,
            ) implies within_limit(next.found, directory, next.limits) by {
                if is_open(state, directory) {
                    let i = choose|i: int| 0 <= i < n && (#[trigger] state.frames[i]).path == directory;
                    if i < n - 1 {
                        assert(next.frames[i].path == directory);
                    } else {
                        assert(state.frames[n - 1].children == children_of(state.found, directory).len());
                    }
                }
            }
        } else {
            lemma_taken_name_is_new(state);
            let path = path_in(top.path, top.names[0]);
            assert(next.frames =~= name_taken(state.frames));
            assert(names_ahead(state, state.frames[n - 1]));
            assert forall|other: Seq<char>| #[trigger] known(next.found, other) implies other.len() > 0
                && holds_entries(next.found, parent_of(other)) by {
                if other != path {
                    assert(known(state.found, other));
                }
            }
            assert forall|i: int| 0 <= i < next.frames.len() implies names_ahead(next, #[trigger] next.frames[i]) by {
                assert(names_ahead(state, state.frames[i]));
                assert(next.frames[i].path == state.frames[i].path);
                assert forall|k: int|
                    0 <= k < next.frames[i].names.len() && usable_name(
                        #[trigger] next.frames[i].names[k],
                    ) implies !come_to(next, path_in(next.frames[i].path, next.frames[i].names[k])) by {
                    assert(!come_to(state, path_in(next.frames[i].path, next.frames[i].names[k])));
                }
            }
            assert forall|i: int, j: int| 0 <= i < j < next.frames.len() implies (#[trigger] next.frames[i]).path.len()
                < (#[trigger] next.frames[j]).path.len() by {
                assert(state.frames[i].path.len() < state.frames[j].path.len());
            }
            assert(next.found.entries == state.found.entries);
            assert forall|i: int| 0 <= i < next.frames.len() implies (#[trigger] next.frames[i]).children
                == children_of(next.found, next.frames[i].path).len() by {
                assert(state.frames[i].children == children_of(state.found, state.frames[i].path).len());
            }
            assert forall|directory: Seq<char>| #[trigger] holds_entries(next.found, directory) && !is_open(
                next,
                directory,
            ) implies within_limit(next.found, directory, next.limits) by {
                assert(holds_entries(state.found, directory));
                if is_open(state, directory) {
                    let i = choose|i: int| 0 <= i < n && (#[trigger] state.frames[i]).path == directory;
                    assert(next.frames[i].path == directory);
                }
            }
        }
    }
}

proof fn lemma_still_ahead(state: LocalScanState, next: LocalScanState)
    requires
        frames_sound(state),
        next.frames.len() == state.frames.len(),
        forall|i: int|
            0 <= i < state.frames.len() ==> (#[trigger] next.frames[i]).path == state.frames[i].path
                && next.frames[i].names == state.frames[i].names,
        forall|path: Seq<char>| #[trigger] come_to(next, path) ==> come_to(state, path),
        forall|path: Seq<char>| holds_entries(state.found, path) ==> #[trigger] holds_entries(next.found, path),
    ensures
        forall|i: int| 0 <= i < next.frames.len() ==> names_ahead(next, #[trigger] next.frames[i]),
        forall|i: int, j: int|
            0 <= i < j < next.frames.len() ==> (#[trigger] next.frames[i]).path.len() < (
            #[trigger] next.frames[j]).path.len(),
{
    assert forall|i: int| 0 <= i < next.frames.len() implies names_ahead(next, #[trigger] next.frames[i]) by {
        assert(names_ahead(state, state.frames[i]));
        assert(holds_entries(next.found, next.frames[i].path));
        assert forall|k: int|
            0 <= k < next.frames[i].names.len() && usable_name(#[trigger] next.frames[i].names[k]) implies !come_to(
            next,
            path_in(next.frames[i].path, next.frames[i].names[k]),
        ) by {
            assert(!come_to(state, path_in(state.frames[i].path, state.frames[i].names[k])));
        }
    }
    assert forall|i: int, j: int| 0 <= i < j < next.frames.len() implies (#[trigger] next.frames[i]).path.len() < (
    #[trigger] next.frames[j]).path.len() by {
        assert(state.frames[i].path.len() < state.frames[j].path.len());
    }
}

proof fn lemma_still_limited(state: LocalScanState, next: LocalScanState)
    requires
        scan_sound(state),
        !(state.phase is Listing),
        next.limits == state.limits,
        next.frames.len() == state.frames.len(),
        forall|i: int|
            0 <= i < state.frames.len() ==> (#[trigger] next.frames[i]).path == state.frames[i].path,
        forall|directory: Seq<char>| #[trigger]
            holds_entries(next.found, directory) && !is_open(next, directory) ==> holds_entries(state.found, directory)
                && (is_open(state, directory) || children_of(next.found, directory).len() == children_of(
                state.found,
                directory,
            ).len()),
    ensures
        forall|directory: Seq<char>| #[trigger]
            holds_entries(next.found, directory) && !is_open(next, directory) ==> within_limit(
                next.found,
                directory,
                next.limits,
            ),
{
    assert forall|directory: Seq<char>| #[trigger] holds_entries(next.found, directory) && !is_open(
        next,
        directory,
    ) implies within_limit(next.found, directory, next.limits) by {
        if is_open(state, directory) {
            let i = choose|i: int| 0 <= i < state.frames.len() && (#[trigger] state.frames[i]).path == directory;
            assert(next.frames[i].path == directory);
        }
        assert(holds_entries(state.found, directory));
    }
}

proof fn lemma_left_alone(state: LocalScanState, next: LocalScanState, path: Seq<char>)
    requires
        scan_sound(state),
        state.phase == (PhaseView::Inspecting { path }),
        next.limits == state.limits,
        next.frames == state.frames,
        next.phase is Walking,
        next.found.entries == state.found.entries,
        next.found.protected == state.found.protected.insert(path),
        next.found.cache_hits == state.found.cache_hits,
        next.found.hashed_files == state.found.hashed_files,
        next.patterns == state.patterns,
        next.next_cache == state.next_cache,
    ensures
        scan_sound(next),
{
    let n = state.frames.len() as int;
    assert(entry_at_hand(state.phase) == Some(path));
    assert(names_ahead(state, state.frames[n - 1]));
    assert forall|other: Seq<char>| holds_entries(state.found, other) implies #[trigger] holds_entries(
        next.found,
        other,
    ) by {}
    assert forall|other: Seq<char>| #[trigger] come_to(next, other) implies come_to(state, other) by {}
    lemma_still_ahead(state, next);
    assert forall|other: Seq<char>| #[trigger] known(next.found, other) implies other.len() > 0 && holds_entries(
        next.found,
        parent_of(other),
    ) by {
        if other != path {
            assert(known(state.found, other));
        }
    }
    assert forall|directory: Seq<char>| #[trigger] holds_entries(next.found, directory) && !is_open(
        next,
        directory,
    ) implies holds_entries(state.found, directory) && (is_open(state, directory) || children_of(
        next.found,
        directory,
    ).len() == children_of(state.found, directory).len()) by {}
    lemma_still_limited(state, next);
    assert forall|i: int| 0 <= i < n implies (#[trigger] next.frames[i]).children == children_of(
        next.found,
        next.frames[i].path,
    ).len() by {
        assert(state.frames[i].children == children_of(state.found, state.frames[i].path).len());
    }
    assert(files_of(next.found) =~= files_of(state.found));
}

proof fn lemma_directory_seen(state: LocalScanState, path: Seq<char>)
    requires
        scan_sound(state),
        state.phase == (PhaseView::Inspecting { path }),
        entry_seen(state, path, EntryState::Directory) is Ok,
    ensures
        scan_sound(entry_seen(state, path, EntryState::Directory)->Ok_0),
{
    let next = entry_seen(state, path, EntryState::Directory)->Ok_0;
    let item = LocalItem { path, kind: EntryKind::Directory, size: 0, hash: None };
    let n = state.frames.len() as int;
    let top = state.frames.last();
    assert(entry_at_hand(state.phase) == Some(path));
    assert(names_ahead(state, state.frames[n - 1]));
    lemma_parent_is_shorter(path);
    assert(next.found == state.found.with_entry(item));
    assert forall|other: Seq<char>| holds_entries(state.found, other) implies #[trigger] holds_entries(
        next.found,
        other,
    ) by {
        assert(other != path);
    }
    assert forall|other: Seq<char>| #[trigger] come_to(next, other) implies come_to(state, other) by {}
    lemma_still_ahead(state, next);
    assert forall|other: Seq<char>| #[trigger] known(next.found, other) implies other.len() > 0 && holds_entries(
        next.found,
        parent_of(other),
    ) && parent_of(other) != path by {
        if other != path {
            assert(known(state.found, other));
            assert(holds_entries(state.found, parent_of(other)));
        }
    }
    assert forall|directory: Seq<char>| #[trigger] holds_entries(next.found, directory) && !is_open(
        next,
        directory,
    ) implies holds_entries(state.found, directory) && (is_open(state, directory) || children_of(
        next.found,
        directory,
    ).len() == children_of(state.found, directory).len()) by {
        assert(directory != path);
        lemma_entry_added(state.found, item, directory);
        if directory == top.path {
            assert(state.frames[n - 1].path == directory);
            assert(is_open(state, directory));
        }
    }
    lemma_still_limited(state, next);
    assert forall|i: int| 0 <= i < n implies (#[trigger] next.frames[i]).children == children_of(
        next.found,
        next.frames[i].path,
    ).len() by {
        lemma_entry_added(state.found, item, state.frames[i].path);
        assert(state.frames[i].children == children_of(state.found, state.frames[i].path).len());
        if i < n - 1 {
            assert(state.frames[i].path.len() < state.frames[n - 1].path.len());
        }
    }
    lemma_entry_added(state.found, item, top.path);
    assert forall|i: int| 0 <= i < next.frames.len() implies (#[trigger] next.frames[i]).path.len() < path.len() by {
        if i < n - 1 {
            assert(state.frames[i].path.len() < state.frames[n - 1].path.len());
        }
    }
}

proof fn lemma_file_seen(state: LocalScanState, path: Seq<char>, stat: FileStat)
    requires
        scan_sound(state),
        state.phase == (PhaseView::Inspecting { path }),
        entry_seen(state, path, EntryState::File { stat }) is Ok,
    ensures
        scan_sound(entry_seen(state, path, EntryState::File { stat })->Ok_0),
{
    let next = entry_seen(state, path, EntryState::File { stat })->Ok_0;
    let n = state.frames.len() as int;
    assert(entry_at_hand(state.phase) == Some(path));
    assert(entry_at_hand(next.phase) == Some(path));
    assert(next.found.entries == state.found.entries);
    assert(next.found.protected == state.found.protected);
    assert forall|other: Seq<char>| holds_entries(state.found, other) implies #[trigger] holds_entries(
        next.found,
        other,
    ) by {}
    assert forall|other: Seq<char>| #[trigger] come_to(next, other) implies come_to(state, other) by {}
    lemma_still_ahead(state, next);
    assert forall|other: Seq<char>| #[trigger] known(next.found, other) implies other.len() > 0 && holds_entries(
        next.found,
        parent_of(other),
    ) by {
        assert(known(state.found, other));
    }
    assert forall|directory: Seq<char>| #[trigger] holds_entries(next.found, directory) && !is_open(
        next,
        directory,
    ) implies holds_entries(state.found, directory) && (is_open(state, directory) || children_of(
        next.found,
        directory,
    ).len() == children_of(state.found, directory).len()) by {}
    lemma_still_limited(state, next);
    assert forall|i: int| 0 <= i < n implies (#[trigger] next.frames[i]).children == children_of(
        next.found,
        next.frames[i].path,
    ).len() + (if i == n - 1 {
        1int
    } else {
        0int
    }) by {
        assert(state.frames[i].children == children_of(state.found, state.frames[i].path).len());
    }
    assert(files_of(next.found) =~= files_of(state.found));
}

/// Learning what an entry is keeps the invariant.
pub proof fn law_entries_keep_scans_sound(state: LocalScanState, path: Seq<char>, entry: EntryState)
    requires
        scan_sound(state),
        state.phase == (PhaseView::Inspecting { path }),
    ensures
        entry_seen(state, path, entry) matches Ok(next) ==> scan_sound(next),
{
    if entry_seen(state, path, entry) is Ok {
        let next = entry_seen(state, path, entry)->Ok_0;
        match entry {
            EntryState::Symlink => lemma_left_alone(state, next, path),
            EntryState::Other => lemma_left_alone(state, next, path),
            EntryState::Directory => lemma_directory_seen(state, path),
            EntryState::File { stat } => lemma_file_seen(state, path, stat),
        }
    }
}

/// Ending a scan at symbolic links keeps the invariant.
pub proof fn law_refusing_links_keeps_scans_sound(state: LocalScanState)
    requires
        scan_sound(state),
    ensures
        scan_sound(LocalScanState { links_refused: true, ..state }),
{
    let next = LocalScanState { links_refused: true, ..state };
    assert forall|other: Seq<char>| #[trigger] come_to(next, other) implies come_to(state, other) by {}
    lemma_still_ahead(state, next);
    assert forall|directory: Seq<char>| #[trigger] holds_entries(next.found, directory) && !is_open(
        next,
        directory,
    ) implies within_limit(next.found, directory, next.limits) by {
        if is_open(state, directory) && !(state.phase is Listing && state.phase->Listing_path == directory) {
            let i = choose|i: int| 0 <= i < state.frames.len() && (#[trigger] state.frames[i]).path == directory;
            assert(next.frames[i].path == directory);
        }
    }
}

/// Hashing a file keeps the invariant.
pub proof fn law_hashes_keep_scans_sound(state: LocalScanState, path: Seq<char>, stat: FileStat, hash: [u8; 32])
    requires
        scan_sound(state),
        state.phase == (PhaseView::Hashing { path, stat }),
    ensures
        scan_sound(LocalScanState { phase: PhaseView::Rechecking { path, stat, hash }, ..state }),
{
    let next = LocalScanState { phase: PhaseView::Rechecking { path, stat, hash }, ..state };
    assert(entry_at_hand(state.phase) == Some(path));
    assert(entry_at_hand(next.phase) == Some(path));
    assert forall|other: Seq<char>| #[trigger] come_to(next, other) implies come_to(state, other) by {}
    lemma_still_ahead(state, next);
    lemma_still_limited(state, next);
}

/// Taking a file in as an entry keeps the invariant.
pub proof fn law_rechecks_keep_scans_sound(
    state: LocalScanState,
    path: Seq<char>,
    stat: FileStat,
    hash: [u8; 32],
    now: FileStat,
)
    requires
        scan_sound(state),
        state.phase == (PhaseView::Rechecking { path, stat, hash }),
    ensures
        file_rechecked(state, path, stat, hash, now) matches Ok(next) ==> scan_sound(next),
{
    if stat == now {
        let next = file_rechecked(state, path, stat, hash, now)->Ok_0;
        let item = LocalItem { path, kind: EntryKind::File, size: stat.size, hash: Some(hash) };
        let n = state.frames.len() as int;
        let top = state.frames.last();
        assert(entry_at_hand(state.phase) == Some(path));
        assert(names_ahead(state, state.frames[n - 1]));
        assert(next.found == state.found.with_entry(item));
        assert forall|other: Seq<char>| holds_entries(state.found, other) implies #[trigger] holds_entries(
            next.found,
            other,
        ) by {
            assert(other != path);
        }
        assert forall|other: Seq<char>| #[trigger] come_to(next, other) implies come_to(state, other) by {}
        lemma_still_ahead(state, next);
        assert forall|other: Seq<char>| #[trigger] known(next.found, other) implies other.len() > 0 && holds_entries(
            next.found,
            parent_of(other),
        ) by {
            if other != path {
                assert(known(state.found, other));
                assert(holds_entries(state.found, parent_of(other)));
            }
        }
        assert forall|directory: Seq<char>| #[trigger] holds_entries(next.found, directory) && !is_open(
            next,
            directory,
        ) implies holds_entries(state.found, directory) && (is_open(state, directory) || children_of(
            next.found,
            directory,
        ).len() == children_of(state.found, directory).len()) by {
            assert(directory != path);
            lemma_entry_added(state.found, item, directory);
            if directory == top.path {
                assert(state.frames[n - 1].path == directory);
                assert(is_open(state, directory));
            }
        }
        lemma_still_limited(state, next);
        assert forall|i: int| 0 <= i < n implies (#[trigger] next.frames[i]).children == children_of(
            next.found,
            next.frames[i].path,
        ).len() by {
            lemma_entry_added(state.found, item, state.frames[i].path);
            assert(state.frames[i].children == children_of(state.found, state.frames[i].path).len() + (if i == n - 1 {
                1int
            } else {
                0int
            }));
            if i < n - 1 {
                assert(state.frames[i].path.len() < state.frames[n - 1].path.len());
            }
        }
        lemma_entry_added(state.found, item, top.path);
    }
}

/// A scan whose listings name each entry once has found, when it is finished, a
/// whole tree within its limits: every entry is in the root or in a directory
/// that is an entry; nothing that is excluded or left alone, and nothing below
/// what is left alone, is an entry; every file has a hash and is not too large; no directory is too deep
/// or has too many entries; each file was hashed or found in the cache; and the
/// hashes for the next scan are those of its files.
pub proof fn law_finished_scans_found_a_whole_tree(state: LocalScanState)
    requires
        scan_sound(state),
        state.phase is Finished,
    ensures
        whole_tree(state.found, state.patterns, state.limits),
        hashes_found(state.found, state.next_cache),
{
    let found = state.found;
    assert forall|path: Seq<char>| #[trigger] found.entries.contains_key(path) implies item_sound(
        found.entries[path],
        path,
        state.limits,
    ) && path.len() > 0 && holds_entries(found, parent_of(path)) && !entry_excluded(state.patterns, path) by {
        assert(known(found, path));
    }
    assert forall|path: Seq<char>, left: Seq<char>|
        #![trigger found.entries.contains_key(path), found.protected.contains(left)]
        found.entries.contains_key(path) && found.protected.contains(left) implies path != left && !below(
        path,
        left,
    ) by {
        assert(known(found, path) && known(found, left));
        if below(path, left) {
            lemma_above_entries(found, state.limits, path, left);
        }
    }
    assert forall|directory: Seq<char>| #[trigger] holds_entries(found, directory) implies within_limit(
        found,
        directory,
        state.limits,
    ) by {
        assert(!is_open(state, directory));
    }
}

/// Whether a name that was listed has been come to, or is still ahead.
pub open spec fn accounted(state: LocalScanState, directory: Seq<char>, name: NameView) -> bool {
    ||| come_to(state, path_in(directory, name))
    ||| exists|i: int|
        0 <= i < state.frames.len() && (#[trigger] state.frames[i]).path == directory
            && state.frames[i].names.contains(name)
}

/// Whether every directory that was found has been listed or is about to be,
/// and every name that was listed is accounted for.  `listings` are the names
/// of the directories that were listed.
pub open spec fn nothing_missed(state: LocalScanState, listings: Map<Seq<char>, Seq<NameView>>) -> bool {
    &&& state.phase is Finished ==> state.frames.len() == 0
    &&& forall|directory: Seq<char>| #[trigger]
        holds_entries(state.found, directory) ==> listings.contains_key(directory) || state.phase == (
        PhaseView::Listing { path: directory })
    &&& forall|directory: Seq<char>, name: NameView|
        listings.contains_key(directory) && #[trigger] listings[directory].contains(name) ==> accounted(
            state,
            directory,
            name,
        )
}

proof fn lemma_still_accounted(state: LocalScanState, next: LocalScanState, directory: Seq<char>, name: NameView)
    requires
        accounted(state, directory, name),
        come_to(state, path_in(directory, name)) ==> come_to(next, path_in(directory, name)),
        next.frames.len() >= state.frames.len(),
        forall|i: int|
            0 <= i < state.frames.len() ==> (#[trigger] next.frames[i]).path == state.frames[i].path && (
            state.frames[i].names.contains(name) ==> next.frames[i].names.contains(name)),
    ensures
        accounted(next, directory, name),
{
    if !come_to(state, path_in(directory, name)) {
        let i = choose|i: int|
            0 <= i < state.frames.len() && (#[trigger] state.frames[i]).path == directory
                && state.frames[i].names.contains(name);
        assert(next.frames[i].path == directory && next.frames[i].names.contains(name));
    }
}

/// At its start a scan has missed nothing.
pub proof fn law_scans_start_with_nothing_missed(
    patterns: Seq<Seq<char>>,
    limits: ScanLimits,
    links_refused: bool,
    saved: Option<SavedCache>,
)
    ensures
        nothing_missed(scan_start(patterns, limits, links_refused, saved), Map::empty()),
{
    let state = scan_start(patterns, limits, links_refused, saved);
    assert forall|directory: Seq<char>| #[trigger] holds_entries(state.found, directory) implies state.phase == (
    PhaseView::Listing { path: directory }) by {
        assert(directory =~= Seq::empty());
    }
}

/// A listing is taken in whole.
pub proof fn law_listings_miss_nothing(
    state: LocalScanState,
    listings: Map<Seq<char>, Seq<NameView>>,
    names: Seq<NameView>,
    sorted: Seq<NameView>,
)
    requires
        nothing_missed(state, listings),
        state.phase is Listing,
        arrangement_of::<ListedName>(names, sorted),
    ensures
        nothing_missed(names_listed(state, sorted), listings.insert(state.phase->Listing_path, names)),
{
    let next = names_listed(state, sorted);
    let path = state.phase->Listing_path;
    let more = listings.insert(path, names);
    let n = state.frames.len() as int;
    assert forall|directory: Seq<char>, name: NameView|
        more.contains_key(directory) && #[trigger] more[directory].contains(name) implies accounted(
        next,
        directory,
        name,
    ) by {
        if directory == path {
            names.to_multiset_ensures();
            sorted.to_multiset_ensures();
            assert(names.to_multiset().count(name) > 0);
            assert(sorted.to_multiset().count(name) > 0);
            assert(next.frames[n].path == path && next.frames[n].names.contains(name));
        } else {
            assert(listings[directory].contains(name));
            lemma_still_accounted(state, next, directory, name);
        }
    }
}

/// No name is dropped where the scan goes on.
pub proof fn law_advancing_misses_nothing(state: LocalScanState, listings: Map<Seq<char>, Seq<NameView>>)
    requires
        nothing_missed(state, listings),
        state.phase is Walking,
    ensures
        advanced(state) matches Ok(next) ==> nothing_missed(next, listings),
{
    let n = state.frames.len() as int;
    if n > 0 && advanced(state) is Ok {
        let top = state.frames.last();
        let next = advanced(state)->Ok_0;
        assert forall|directory: Seq<char>, name: NameView|
            listings.contains_key(directory) && #[trigger] listings[directory].contains(name) implies accounted(
            next,
            directory,
            name,
        ) by {
            assert(accounted(state, directory, name));
            if !come_to(state, path_in(directory, name)) {
                let i = choose|i: int|
                    0 <= i < n && (#[trigger] state.frames[i]).path == directory && state.frames[i].names.contains(name);
                if i < n - 1 {
                    assert(next.frames[i] == state.frames[i]);
                } else if name != top.names[0] {
                    let k = choose|k: int| 0 <= k < top.names.len() && top.names[k] == name;
                    assert(next.frames[i].names[k - 1] == name);
                    assert(next.frames[i].path == directory);
                }
            }
        }
        assert forall|directory: Seq<char>| #[trigger] holds_entries(
            next.found,
            directory,
        ) implies listings.contains_key(directory) by {
            assert(holds_entries(state.found, directory));
        }
    } else if n == 0 {
        let next = advanced(state)->Ok_0;
        assert forall|directory: Seq<char>, name: NameView|
            listings.contains_key(directory) && #[trigger] listings[directory].contains(name) implies accounted(
            next,
            directory,
            name,
        ) by {
            assert(accounted(state, directory, name));
        }
    }
}

proof fn lemma_entry_accounted(
    state: LocalScanState,
    next: LocalScanState,
    listings: Map<Seq<char>, Seq<NameView>>,
    path: Seq<char>,
)
    requires
        nothing_missed(state, listings),
        entry_at_hand(state.phase) == Some(path),
        come_to(next, path),
        !(next.phase is Finished),
        forall|other: Seq<char>| #[trigger] known(state.found, other) ==> known(next.found, other),
        forall|other: Seq<char>| #[trigger]
            holds_entries(next.found, other) ==> holds_entries(state.found, other) || next.phase == (
            PhaseView::Listing { path: other }),
        next.frames.len() == state.frames.len(),
        forall|i: int|
            0 <= i < state.frames.len() ==> (#[trigger] next.frames[i]).path == state.frames[i].path
                && next.frames[i].names == state.frames[i].names,
    ensures
        nothing_missed(next, listings),
{
    assert forall|directory: Seq<char>, name: NameView|
        listings.contains_key(directory) && #[trigger] listings[directory].contains(name) implies accounted(
        next,
        directory,
        name,
    ) by {
        if come_to(state, path_in(directory, name)) && path_in(directory, name) != path {
            assert(known(state.found, path_in(directory, name)));
        }
        lemma_still_accounted(state, next, directory, name);
    }
}

/// An entry that the scan has come to stays accounted for.
pub proof fn law_entries_are_not_missed(
    state: LocalScanState,
    listings: Map<Seq<char>, Seq<NameView>>,
    path: Seq<char>,
    entry: EntryState,
)
    requires
        nothing_missed(state, listings),
        state.phase == (PhaseView::Inspecting { path }),
        state.frames.len() > 0,
    ensures
        entry_seen(state, path, entry) matches Ok(next) ==> nothing_missed(next, listings),
{
    if entry_seen(state, path, entry) is Ok {
        lemma_entry_accounted(state, entry_seen(state, path, entry)->Ok_0, listings, path);
    }
}

/// A file that is hashed stays accounted for.
pub proof fn law_hashed_files_are_not_missed(
    state: LocalScanState,
    listings: Map<Seq<char>, Seq<NameView>>,
    path: Seq<char>,
    stat: FileStat,
    hash: [u8; 32],
)
    requires
        nothing_missed(state, listings),
        state.phase == (PhaseView::Hashing { path, stat }),
    ensures
        nothing_missed(LocalScanState { phase: PhaseView::Rechecking { path, stat, hash }, ..state }, listings),
{
    let next = LocalScanState { phase: PhaseView::Rechecking { path, stat, hash }, ..state };
    lemma_entry_accounted(state, next, listings, path);
}

/// A file that is taken in stays accounted for.
pub proof fn law_rechecked_files_are_not_missed(
    state: LocalScanState,
    listings: Map<Seq<char>, Seq<NameView>>,
    path: Seq<char>,
    stat: FileStat,
    hash: [u8; 32],
    now: FileStat,
)
    requires
        nothing_missed(state, listings),
        state.phase == (PhaseView::Rechecking { path, stat, hash }),
    ensures
        file_rechecked(state, path, stat, hash, now) matches Ok(next) ==> nothing_missed(next, listings),
{
    if stat == now {
        lemma_entry_accounted(state, file_rechecked(state, path, stat, hash, now)->Ok_0, listings, path);
    }
}

/// A finished scan has listed the root and every directory that it found, and
/// every name that was listed is an entry or is left alone.
pub proof fn law_finished_scans_missed_nothing(state: LocalScanState, listings: Map<Seq<char>, Seq<NameView>>)
    requires
        nothing_missed(state, listings),
        state.phase is Finished,
    ensures
        forall|directory: Seq<char>| #[trigger]
            holds_entries(state.found, directory) ==> listings.contains_key(directory),
        forall|directory: Seq<char>, name: NameView|
            listings.contains_key(directory) && #[trigger] listings[directory].contains(name) ==> known(
                state.found,
                path_in(directory, name),
            ),
{
    assert forall|directory: Seq<char>, name: NameView|
        listings.contains_key(directory) && #[trigger] listings[directory].contains(name) implies known(
        state.found,
        path_in(directory, name),
    ) by {
        assert(accounted(state, directory, name));
    }
}

} // verus!
