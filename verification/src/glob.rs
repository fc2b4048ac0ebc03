//! The boundary to the `globset` crate: its types, names for what its
//! functions return, and one thin function around each call the library makes.
//!
//! Nothing in this file is proved. Every other module reasons about glob
//! matching through the contracts stated here only. A glob is taken by two
//! things: the text it was parsed from and whether its wildcards stay clear
//! of the path separator. The library makes globs with [`parse_glob`] and in
//! no other way, so every other option of a glob it holds is the crate's
//! default. Those defaults, and the way a path is prepared for matching,
//! are fixed per build target.

use vstd::prelude::*;

verus! {

/// `globset::Glob`, a parsed pattern.
#[verifier::external_type_specification]
#[verifier::external_body]
pub struct ExGlob(globset::Glob);

/// `globset::GlobSetBuilder`, the patterns collected for a set.
#[verifier::external_type_specification]
#[verifier::external_body]
pub struct ExGlobSetBuilder(globset::GlobSetBuilder);

/// `globset::GlobSet`, patterns compiled for matching together.
#[verifier::external_type_specification]
#[verifier::external_body]
pub struct ExGlobSet(globset::GlobSet);

/// Why a pattern or a set of patterns was refused: the pattern at fault,
/// where the refusal names one, and the reason in words.
#[derive(Clone, Debug, PartialEq, Eq)]
pub struct GlobError {
    pub glob: Option<String>,
    pub message: String,
}

impl GlobError {
    /// The error names `pattern` as the one at fault.
    pub open spec fn blames(self, pattern: Seq<char>) -> bool {
        self.glob matches Some(at_fault) && at_fault@ == pattern
    }
}

/// Whether `pattern` parses as a glob: whether `GlobBuilder::build` accepts
/// it. The parser does not look at the option on separators.
pub uninterp spec fn glob_is_valid(pattern: Seq<char>) -> bool;

/// The pattern text that a glob holds: what `Glob::glob` returns.
pub uninterp spec fn glob_text(glob: globset::Glob) -> Seq<char>;

/// Whether a glob was made with `literal_separator` set: whether a path
/// separator is matched by a separator in the pattern only.
pub uninterp spec fn glob_literal_separator(glob: globset::Glob) -> bool;

/// The globs added to a builder, in the order added, each by its text and
/// its option on separators.
pub uninterp spec fn builder_globs(builder: globset::GlobSetBuilder) -> Seq<(Seq<char>, bool)>;

/// The globs a set was built from, in the order added, each by its text and
/// its option on separators.
pub uninterp spec fn glob_set_globs(set: globset::GlobSet) -> Seq<(Seq<char>, bool)>;

/// Whether `GlobSetBuilder::build` succeeds on the globs given by their
/// texts and options.
pub uninterp spec fn glob_set_compiles(globs: Seq<(Seq<char>, bool)>) -> bool;

/// Whether the glob that [`parse_glob`] makes of `pattern` with the given
/// option on separators matches `path`.
pub uninterp spec fn glob_matches(
    pattern: Seq<char>,
    literal_separator: bool,
    path: Seq<char>,
) -> bool;

/// Calls `GlobBuilder::new`, `literal_separator` and `build`: parses the
/// pattern as a glob with the given option on separators. Claims that this
/// succeeds exactly on the patterns named valid, that the glob it returns
/// holds the text and the option it was given, and that a refusal names the
/// pattern it was given.
#[verifier::external_body]
pub(crate) fn parse_glob(pattern: &str, literal_separator: bool) -> (res: Result<
    globset::Glob,
    GlobError,
>)
    ensures
        res is Ok <==> glob_is_valid(pattern@),
        res matches Ok(glob) ==> glob_text(glob) == pattern@ && glob_literal_separator(glob)
            == literal_separator,
        res matches Err(error) ==> error.blames(pattern@),
{
    match globset::GlobBuilder::new(pattern).literal_separator(literal_separator).build() {
        Ok(glob) => Ok(glob),
        Err(error) => {
            let glob = match error.glob() {
                Some(at_fault) => Some(at_fault.to_owned()),
                None => None,
            };
            Err(GlobError { glob, message: error.to_string() })
        },
    }
}

/// Calls `GlobSetBuilder::new`. Claims that the new builder holds no glob.
#[verifier::external_body]
pub(crate) fn new_builder() -> (res: globset::GlobSetBuilder)
    ensures
        builder_globs(res) == Seq::<(Seq<char>, bool)>::empty(),
{
    globset::GlobSetBuilder::new()
}

/// Calls `GlobSetBuilder::add`. Claims that the glob is appended to those the
/// builder already holds.
#[verifier::external_body]
pub(crate) fn builder_add(builder: &mut globset::GlobSetBuilder, glob: globset::Glob)
    ensures
        builder_globs(*final(builder)) == builder_globs(*old(builder)).push(
            (glob_text(glob), glob_literal_separator(glob)),
        ),
{
    builder.add(glob);
}

/// Calls `GlobSetBuilder::build`. Claims that it succeeds exactly where the
/// globs are named compilable, always for a builder without globs, and
/// that the set holds the builder's globs in the same order.
#[verifier::external_body]
pub(crate) fn builder_build(builder: &globset::GlobSetBuilder) -> (res: Result<
    globset::GlobSet,
    GlobError,
>)
    ensures
        res is Ok <==> glob_set_compiles(builder_globs(*builder)),
        builder_globs(*builder).len() == 0 ==> res is Ok,
        res matches Ok(set) ==> glob_set_globs(set) == builder_globs(*builder),
{
    match builder.build() {
        Ok(set) => Ok(set),
        Err(error) => {
            let glob = match error.glob() {
                Some(at_fault) => Some(at_fault.to_owned()),
                None => None,
            };
            Err(GlobError { glob, message: error.to_string() })
        },
    }
}

/// Calls `GlobSet::is_match`. Claims what its documentation says: the result
/// is true exactly when some glob of the set matches the path, so a set
/// without globs matches nothing.
#[verifier::external_body]
pub(crate) fn glob_set_is_match(set: &globset::GlobSet, path: &str) -> (res: bool)
    ensures
        res == (exists|i: int|
            0 <= i < glob_set_globs(*set).len() && #[trigger] glob_matches(
                glob_set_globs(*set)[i].0,
                glob_set_globs(*set)[i].1,
                path@,
            )),
{
    set.is_match(path)
}

} // verus!
