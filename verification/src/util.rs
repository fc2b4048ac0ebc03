//! Compiling a list of pattern texts into one matcher.
//!
//! A pattern is matched against the path of a file relative to the project
//! root, segment by segment. A pattern without a path separator is meant
//! for the last segment of the path, wherever the file lies, so it is
//! compiled as if `**/` stood before it. The empty pattern is compiled as
//! it stands: no segment of a path is empty, so it is for no file. Every
//! pattern is compiled so that its wildcards stay within one segment.

use vstd::prelude::*;
use vstd::string::{StrSliceExecFns, StringExecFns};
use crate::glob::{
    GlobError, builder_add, builder_build, builder_globs, glob_is_valid, glob_matches,
    glob_set_compiles, glob_set_globs, new_builder, parse_glob,
};

verus! {

/// A path separator in a path is matched by a path separator in the
/// pattern only: `*`, `?` and character classes stay within one segment.
pub const LITERAL_SEPARATOR: bool = true;

/// The pattern has a path separator in it.
pub open spec fn has_separator(pattern: Seq<char>) -> bool {
    exists|i: int| 0 <= i < pattern.len() && #[trigger] pattern[i] == '/'
}

/// The glob that a pattern is compiled as: the pattern itself where it is
/// empty or has a path separator, else the pattern behind `**/`.
pub open spec fn anchored(pattern: Seq<char>) -> Seq<char> {
    if pattern.len() == 0 || has_separator(pattern) {
        pattern
    } else {
        "**/"@ + pattern
    }
}

/// The globs that the patterns are compiled as, in order: each by its text
/// and with wildcards that stay within one segment.
pub open spec fn globs_of(patterns: Seq<Seq<char>>) -> Seq<(Seq<char>, bool)> {
    Seq::new(patterns.len(), |i: int| (anchored(patterns[i]), LITERAL_SEPARATOR))
}

/// Whether the pattern has a path separator in it.
pub fn contains_separator(pattern: &str) -> (res: bool)
    ensures
        res == has_separator(pattern@),
{
    let len: usize = pattern.unicode_len();
    let mut i: usize = 0;
    while i < len
        invariant
            0 <= i <= len,
            len == pattern@.len(),
            forall|j: int| 0 <= j < i ==> #[trigger] pattern@[j] != '/',
        decreases len - i,
    {
        if pattern.get_char(i) == '/' {
            return true;
        }
        i += 1;
    }
    false
}

/// The glob that the pattern is compiled as.
pub fn anchor(pattern: &str) -> (res: String)
    ensures
        res@ == anchored(pattern@),
{
    if pattern.is_empty() || contains_separator(pattern) {
        pattern.to_owned()
    } else {
        let mut glob = "**/".to_owned();
        glob.append(pattern);
        glob
    }
}

/// Every glob of the list is valid.
pub open spec fn all_valid(globs: Seq<(Seq<char>, bool)>) -> bool {
    forall|i: int| 0 <= i < globs.len() ==> glob_is_valid((#[trigger] globs[i]).0)
}

/// The globs can be turned into a matcher: there are none, or every one
/// parses and they compile together.
pub open spec fn compilable(globs: Seq<(Seq<char>, bool)>) -> bool {
    globs.len() == 0 || (all_valid(globs) && glob_set_compiles(globs))
}

/// Some glob of the list matches the path. No glob, no match.
pub open spec fn any_matches(globs: Seq<(Seq<char>, bool)>, path: Seq<char>) -> bool {
    exists|i: int| 0 <= i < globs.len() && #[trigger] glob_matches(globs[i].0, globs[i].1, path)
}

/// `index` is the position of the first glob that is not valid.
pub open spec fn first_invalid(globs: Seq<(Seq<char>, bool)>, index: int) -> bool {
    &&& 0 <= index < globs.len()
    &&& !glob_is_valid(globs[index].0)
    &&& forall|j: int| 0 <= j < index ==> glob_is_valid((#[trigger] globs[j]).0)
}

/// The error names, as it was written, the first pattern of the list whose
/// glob is not valid.
pub open spec fn blames_first_invalid(patterns: Seq<Seq<char>>, error: GlobError) -> bool {
    exists|i: int| #[trigger] first_invalid(globs_of(patterns), i) && error.blames(patterns[i])
}

/// What is said of a pattern whose glob was refused. Where the pattern is
/// refused as it was written too, these are the words on the pattern as
/// written; else they are the words on the glob.
fn refusal(pattern: &String, of_glob: GlobError) -> (res: GlobError)
    ensures
        res.blames(pattern@),
{
    let message = match parse_glob(pattern.as_str(), LITERAL_SEPARATOR) {
        Ok(_) => of_glob.message,
        Err(as_written) => as_written.message,
    };
    GlobError { glob: Some(pattern.clone()), message }
}

/// Compiles the patterns, in order, into one glob set. Fails at the first
/// pattern whose glob is not valid, naming the pattern, or at the end if
/// the set cannot be built; an empty list always compiles, to a set that
/// matches nothing.
pub fn glob_set_from_iter(patterns: &Vec<String>) -> (res: Result<globset::GlobSet, GlobError>)
    ensures
        res is Ok <==> compilable(globs_of(patterns.deep_view())),
        res matches Ok(set) ==> glob_set_globs(set) == globs_of(patterns.deep_view()),
        res matches Err(error) ==> all_valid(globs_of(patterns.deep_view()))
            || blames_first_invalid(patterns.deep_view(), error),
{
    let ghost globs = globs_of(patterns.deep_view());
    let mut builder = new_builder();
    let mut i: usize = 0;
    while i < patterns.len()
        invariant
            0 <= i <= patterns.len(),
            globs == globs_of(patterns.deep_view()),
            builder_globs(builder) == globs.take(i as int),
            forall|j: int| 0 <= j < i ==> glob_is_valid((#[trigger] globs[j]).0),
        decreases patterns.len() - i,
    {
        let glob_text = anchor(patterns[i].as_str());
        assert(globs[i as int] == (glob_text@, LITERAL_SEPARATOR));
        match parse_glob(glob_text.as_str(), LITERAL_SEPARATOR) {
            Ok(glob) => {
                builder_add(&mut builder, glob);
            },
            Err(error) => {
                assert(first_invalid(globs, i as int));
                return Err(refusal(&patterns[i], error));
            },
        }
        assert(globs.take(i as int).push(globs[i as int]) == globs.take(i as int + 1));
        i += 1;
    }
    assert(globs.take(i as int) == globs);
    builder_build(&builder)
}

} // verus!
