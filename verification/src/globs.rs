//! Glob pattern matching, wrapping the `ignore` crate's matcher.
//!
//! A single pattern is read exactly as one line of a gitignore file: a
//! pattern without a slash matches an entry's bare name at any level, one
//! with a slash is anchored to the given root-relative path, and a trailing
//! slash restricts the pattern to directories. What such a pattern matches
//! is the matcher's own affair; this module gives that result a name,
//! [`glob_match`], and everything else in the crate speaks of it.

use vstd::prelude::*;

verus! {

/// Whether a gitignore-style glob pattern matches a root-relative path.
/// The result depends on the three arguments alone.
pub uninterp spec fn glob_match(pattern: Seq<char>, path: Seq<char>, is_dir: bool) -> bool;

/// Relies on `ignore::gitignore::GitignoreBuilder` and `Gitignore::matched`:
/// whether the single glob `pattern`, read as one gitignore line, matches
/// the relative path. The matcher is built with an empty root, so `path` is
/// taken as given; a pattern that does not parse matches nothing.
#[verifier::external_body]
fn glob_pattern_matches(pattern: &String, path: &str, is_dir: bool) -> (r: bool)
    ensures
        r == glob_match(pattern@, path@, is_dir),
{
    let mut builder = ignore::gitignore::GitignoreBuilder::new("");
    if builder.add_line(None, pattern.as_str()).is_err() {
        return false;
    }
    match builder.build() {
        Ok(matcher) => !matcher.matched(path, is_dir).is_none(),
        Err(_) => false,
    }
}

/// Whether any pattern of the list matches the path.
pub open spec fn matches_any(patterns: Seq<String>, path: Seq<char>, is_dir: bool) -> bool {
    exists|i: int| 0 <= i < patterns.len() && glob_match(patterns[i]@, path, is_dir)
}

/// Decide whether any pattern of the list matches the path.
pub fn any_glob_matches(patterns: &Vec<String>, path: &str, is_dir: bool) -> (r: bool)
    ensures
        r == matches_any(patterns@, path@, is_dir),
{
    let mut i: usize = 0;
    while i < patterns.len()
        invariant
            i <= patterns@.len(),
            forall|j: int| 0 <= j < i ==> !glob_match(patterns@[j]@, path@, is_dir),
        decreases patterns@.len() - i,
    {
        if glob_pattern_matches(&patterns[i], path, is_dir) {
            return true;
        }
        i = i + 1;
    }
    false
}

} // verus!
