//! Patterns of paths that a synchronisation leaves out.
use vstd::prelude::*;

use crate::outside::{
    any_glob_matches, builder_patterns, debug_quoted, debug_text, glob_add, glob_build, glob_builder, glob_error,
    glob_matches, glob_set_error, glob_set_matches, set_patterns,
};
use crate::sync::arrange::views;
use crate::text::{before_last, cat2, cat4, chars_of, find_last, last_position};

verus! {

/// The message for the first of the patterns that is none, counted from `from`.
pub open spec fn pattern_error(patterns: Seq<Seq<char>>, from: int) -> Option<Seq<char>>
    decreases patterns.len() - from,
{
    if from < 0 || from >= patterns.len() {
        None
    } else {
        match glob_error(patterns[from]) {
            Some(message) => Some("invalid exclude pattern "@ + debug_text(patterns[from]) + ": "@ + message),
            None => pattern_error(patterns, from + 1),
        }
    }
}

/// Why the patterns cannot be used, if they cannot.
pub open spec fn excludes_error(patterns: Seq<Seq<char>>) -> Option<Seq<char>> {
    match pattern_error(patterns, 0) {
        Some(message) => Some(message),
        None => match glob_set_error(patterns) {
            Some(message) => Some("failed to compile exclude patterns: "@ + message),
            None => None,
        },
    }
}

/// Compiles the patterns of the paths to leave out.
pub fn compile_excludes(patterns: &[String]) -> (r: Result<globset::GlobSet, String>)
    ensures
        match r {
            Ok(set) => excludes_error(views(patterns@)) is None && set_patterns(set) == views(patterns@),
            Err(message) => excludes_error(views(patterns@)) == Some(message@),
        },
        patterns@.len() == 0 ==> r is Ok,
{
    let mut builder = glob_builder();
    let ghost all = views(patterns@);
    assert(all.take(0) =~= Seq::empty());
    for i in 0..patterns.len()
        invariant
            all == views(patterns@),
            builder_patterns(builder) == all.take(i as int),
            pattern_error(all, 0) == pattern_error(all, i as int),
    {
        let pattern = patterns[i].as_str();
        if let Err(message) = glob_add(&mut builder, pattern) {
            return Err(cat4("invalid exclude pattern ", debug_quoted(pattern).as_str(), ": ", message.as_str()));
        }
        assert(all.take(i + 1) =~= all.take(i as int).push(all[i as int]));
    }
    assert(all.take(all.len() as int) =~= all);
    match glob_build(&builder) {
        Ok(set) => Ok(set),
        Err(message) => Err(cat2("failed to compile exclude patterns: ", message.as_str())),
    }
}

/// Checks that the patterns can be used.
pub fn validate_excludes(patterns: &[String]) -> (r: Result<(), String>)
    ensures
        match r {
            Ok(_) => excludes_error(views(patterns@)) is None,
            Err(message) => excludes_error(views(patterns@)) == Some(message@),
        },
{
    match compile_excludes(patterns) {
        Ok(_) => Ok(()),
        Err(message) => Err(message),
    }
}

/// Whether a pattern matches the path itself, as a file or as a directory.
pub open spec fn entry_excluded(patterns: Seq<Seq<char>>, path: Seq<char>) -> bool {
    any_glob_matches(patterns, path) || any_glob_matches(patterns, path + "/"@)
}

/// Whether a pattern matches the path itself, as a file or as a directory.
pub fn is_entry_excluded(excludes: &globset::GlobSet, path: &str) -> (r: bool)
    ensures
        r == entry_excluded(set_patterns(*excludes), path@),
{
    glob_set_matches(excludes, path) || glob_set_matches(excludes, cat2(path, "/").as_str())
}

/// Whether a pattern matches the path or a directory above it.
pub open spec fn path_excluded(patterns: Seq<Seq<char>>, path: Seq<char>) -> bool
    decreases path.len(),
{
    entry_excluded(patterns, path) || match last_position(path, '/') {
        Some(at) => 0 <= at < path.len() && path_excluded(patterns, path.take(at)),
        None => false,
    }
}

/// Whether a pattern matches the path or a directory above it.
pub fn is_excluded(excludes: &globset::GlobSet, path: &str) -> (r: bool)
    ensures
        r == path_excluded(set_patterns(*excludes), path@),
{
    let mut candidate = path;
    loop
        invariant
            path_excluded(set_patterns(*excludes), path@) == path_excluded(set_patterns(*excludes), candidate@),
        decreases candidate@.len(),
    {
        if is_entry_excluded(excludes, candidate) {
            return true;
        }
        let chars = chars_of(candidate);
        match find_last(chars.as_slice(), '/') {
            Some(at) => {
                candidate = candidate.substring_char(0, at);
            },
            None => {
                return false;
            },
        }
    }
}

proof fn lemma_last_position_range(text: Seq<char>, c: char)
    ensures
        last_position(text, c) matches Some(at) ==> 0 <= at < text.len(),
    decreases text.len(),
{
    if text.len() > 0 {
        lemma_last_position_range(text.drop_last(), c);
    }
}

/// Whatever lies below an excluded directory is excluded.
pub proof fn law_exclusion_covers_subtrees(patterns: Seq<Seq<char>>, path: Seq<char>)
    requires
        last_position(path, '/') is Some,
        path_excluded(patterns, before_last(path, '/')),
    ensures
        path_excluded(patterns, path),
{
    lemma_last_position_range(path, '/');
}

/// Without patterns nothing is excluded.
pub proof fn law_no_patterns_exclude_nothing(path: Seq<char>)
    ensures
        !path_excluded(Seq::empty(), path),
    decreases path.len(),
{
    if let Some(at) = last_position(path, '/') {
        if 0 <= at < path.len() {
            law_no_patterns_exclude_nothing(path.take(at));
        }
    }
}

proof fn lemma_last_slash(text: Seq<char>)
    ensures
        match last_position(text, '/') {
            Some(at) => 0 <= at < text.len() && text[at] == '/' && forall|i: int| at < i < text.len() ==> text[i] != '/',
            None => forall|i: int| 0 <= i < text.len() ==> text[i] != '/',
        },
    decreases text.len(),
{
    if text.len() > 0 && text.last() != '/' {
        lemma_last_slash(text.drop_last());
        assert forall|i: int| 0 <= i < text.len() - 1 implies text[i] == text.drop_last()[i] by {}
    }
}

/// A path is excluded exactly where a pattern matches the path itself or a
/// directory above it, as it is or with a slash behind it.
pub proof fn law_exclusion_is_by_path_or_directory(patterns: Seq<Seq<char>>, path: Seq<char>)
    ensures
        path_excluded(patterns, path) <==> exists|n: int, i: int|
            0 <= n <= path.len() && (n == path.len() || path[n] == '/') && 0 <= i < patterns.len() && (glob_matches(
                #[trigger] patterns[i],
                #[trigger] path.take(n),
            ) || glob_matches(patterns[i], path.take(n).push('/'))),
    decreases path.len(),
{
    reveal_strlit("/");
    let len = path.len() as int;
    assert(path.take(len) =~= path);
    assert forall|text: Seq<char>| #[trigger] (text + "/"@) =~= text.push('/') by {}
    lemma_last_slash(path);
    if entry_excluded(patterns, path) {
        if any_glob_matches(patterns, path) {
            let i = choose|i: int| 0 <= i < patterns.len() && glob_matches(#[trigger] patterns[i], path);
            assert(glob_matches(patterns[i], path.take(len)));
        } else {
            let i = choose|i: int| 0 <= i < patterns.len() && glob_matches(#[trigger] patterns[i], path + "/"@);
            assert(path + "/"@ =~= path.take(len).push('/'));
            assert(glob_matches(patterns[i], path.take(len).push('/')));
        }
    } else if let Some(at) = last_position(path, '/') {
        let parent = path.take(at);
        law_exclusion_is_by_path_or_directory(patterns, parent);
        assert forall|n: int| 0 <= n <= at implies #[trigger] parent.take(n) == path.take(n) by {
            assert(parent.take(n) =~= path.take(n));
        }
        if path_excluded(patterns, parent) {
            let (n, i) = choose|n: int, i: int|
                0 <= n <= parent.len() && (n == parent.len() || parent[n] == '/') && 0 <= i < patterns.len() && (
                glob_matches(#[trigger] patterns[i], #[trigger] parent.take(n)) || glob_matches(
                    patterns[i],
                    parent.take(n).push('/'),
                ));
            assert(parent.take(n) == path.take(n));
            assert(path[n] == '/');
        }
    }
    if exists|n: int, i: int|
        0 <= n <= path.len() && (n == path.len() || path[n] == '/') && 0 <= i < patterns.len() && (glob_matches(
            #[trigger] patterns[i],
            #[trigger] path.take(n),
        ) || glob_matches(patterns[i], path.take(n).push('/'))) {
        let (n, i) = choose|n: int, i: int|
            0 <= n <= path.len() && (n == path.len() || path[n] == '/') && 0 <= i < patterns.len() && (glob_matches(
                #[trigger] patterns[i],
                #[trigger] path.take(n),
            ) || glob_matches(patterns[i], path.take(n).push('/')));
        if n == len {
            assert(path.take(n) + "/"@ =~= path.take(n).push('/'));
            assert(glob_matches(patterns[i], path) || glob_matches(patterns[i], path + "/"@));
        } else {
            let at = last_position(path, '/')->0;
            assert(n <= at);
            let parent = path.take(at);
            law_exclusion_is_by_path_or_directory(patterns, parent);
            assert(parent.take(n) =~= path.take(n));
            assert(n == parent.len() || parent[n] == '/');
        }
    }
}

/// A scan leaves an entry out exactly where a pattern matches its path, as it
/// is or with a slash behind it.
pub proof fn law_entries_are_excluded_by_their_path(patterns: Seq<Seq<char>>, path: Seq<char>)
    ensures
        entry_excluded(patterns, path) <==> exists|i: int|
            0 <= i < patterns.len() && (glob_matches(#[trigger] patterns[i], path) || glob_matches(
                patterns[i],
                path.push('/'),
            )),
{
    reveal_strlit("/");
    assert(path + "/"@ =~= path.push('/'));
    if any_glob_matches(patterns, path) {
        let i = choose|i: int| 0 <= i < patterns.len() && glob_matches(#[trigger] patterns[i], path);
        assert(glob_matches(patterns[i], path));
    } else if any_glob_matches(patterns, path + "/"@) {
        let i = choose|i: int| 0 <= i < patterns.len() && glob_matches(#[trigger] patterns[i], path + "/"@);
        assert(glob_matches(patterns[i], path.push('/')));
    }
}

proof fn lemma_pattern_error(patterns: Seq<Seq<char>>, from: int)
    requires
        0 <= from,
    ensures
        pattern_error(patterns, from) is None <==> forall|i: int|
            from <= i < patterns.len() ==> glob_error(#[trigger] patterns[i]) is None,
    decreases patterns.len() - from,
{
    if from < patterns.len() {
        lemma_pattern_error(patterns, from + 1);
    }
}

/// Patterns are refused exactly where one of them is no pattern, or where they
/// do not compile together.
pub proof fn law_patterns_are_refused_for_a_reason(patterns: Seq<Seq<char>>)
    ensures
        excludes_error(patterns) is None <==> (forall|i: int|
            0 <= i < patterns.len() ==> glob_error(#[trigger] patterns[i]) is None) && glob_set_error(patterns) is None,
{
    lemma_pattern_error(patterns, 0);
}

/// The first pattern that is none is told, with what is wrong with it; patterns
/// that do not compile together are told as such.
pub proof fn law_refused_patterns_are_told(patterns: Seq<Seq<char>>, i: int)
    ensures
        0 <= i < patterns.len() && glob_error(patterns[i]) is Some && (forall|j: int|
            0 <= j < i ==> glob_error(#[trigger] patterns[j]) is None) ==> excludes_error(patterns) == Some(
            "invalid exclude pattern "@ + debug_text(patterns[i]) + ": "@ + glob_error(patterns[i])->0,
        ),
        (forall|j: int| 0 <= j < patterns.len() ==> glob_error(#[trigger] patterns[j]) is None) && glob_set_error(
            patterns,
        ) is Some ==> excludes_error(patterns) == Some(
            "failed to compile exclude patterns: "@ + glob_set_error(patterns)->0,
        ),
{
    lemma_pattern_error(patterns, 0);
    if 0 <= i < patterns.len() && glob_error(patterns[i]) is Some && (forall|j: int|
        0 <= j < i ==> glob_error(#[trigger] patterns[j]) is None) {
        lemma_first_pattern_error(patterns, 0, i);
    }
}

proof fn lemma_first_pattern_error(patterns: Seq<Seq<char>>, from: int, at: int)
    requires
        0 <= from <= at < patterns.len(),
        glob_error(patterns[at]) is Some,
        forall|j: int| from <= j < at ==> glob_error(#[trigger] patterns[j]) is None,
    ensures
        pattern_error(patterns, from) == Some(
            "invalid exclude pattern "@ + debug_text(patterns[at]) + ": "@ + glob_error(patterns[at])->0,
        ),
    decreases at - from,
{
    if from < at {
        assert(glob_error(patterns[from]) is None);
        lemma_first_pattern_error(patterns, from + 1, at);
    }
}

} // verus!
