use globwalk::{GlobError, GlobWalker};
use std::path::PathBuf;
use vstd::prelude::*;

verus! {

/// `globwalk::GlobWalker`, the walk over the files below a directory that
/// match a set of patterns.
#[verifier::external_type_specification]
#[verifier::external_body]
pub struct ExGlobWalker(globwalk::GlobWalker);

/// `globwalk::DirEntry`, one file that the walk hands out.
#[verifier::external_type_specification]
#[verifier::external_body]
pub struct ExDirEntry(globwalk::DirEntry);

/// `globwalk::WalkError`, one file that the walk could not reach.
#[verifier::external_type_specification]
#[verifier::external_body]
pub struct ExWalkError(globwalk::WalkError);

/// `globwalk::GlobError`, the reason for which a pattern was refused.
#[verifier::external_type_specification]
#[verifier::external_body]
pub struct ExGlobError(globwalk::GlobError);

/// The file names that count as media, matched without regard to case.
pub const PATTERNS: [&'static str; 5] = ["*.png", "*.jpg", "*.jpeg", "*.heic", ".mov"];

/// How many levels below the directory the walk descends.
pub const MAX_DEPTH: usize = 4;

/// The texts of a list of patterns.
pub open spec fn pattern_texts(patterns: Seq<&str>) -> Seq<Seq<char>> {
    patterns.map_values(|pattern: &str| pattern@)
}

/// Whether `globwalk::GlobWalkerBuilder` builds a walker from these
/// settings; it does not where it refuses one of the patterns.
pub uninterp spec fn walker_built(
    root: PathBuf,
    patterns: Seq<Seq<char>>,
    max_depth: usize,
    follow_links: bool,
    case_insensitive: bool,
) -> bool;

/// Calls `globwalk::GlobWalkerBuilder::from_patterns`, sets `max_depth`,
/// `follow_links` and `case_insensitive` on the builder and calls
/// `build`. Building reads no directory: the walk begins when the walker
/// is asked for its first file. The contract only names whether a walker
/// comes back.
#[verifier::external_body]
fn build_walker(
    path: &PathBuf,
    patterns: &[&str],
    max_depth: usize,
    follow_links: bool,
    case_insensitive: bool,
) -> (result: Result<GlobWalker, GlobError>)
    ensures
        result is Ok <==> walker_built(
            *path,
            pattern_texts(patterns@),
            max_depth,
            follow_links,
            case_insensitive,
        ),
{
    globwalk::GlobWalkerBuilder::from_patterns(path, patterns)
        .max_depth(max_depth)
        .follow_links(follow_links)
        .case_insensitive(case_insensitive)
        .build()
}

/// Why no walk could be prepared.
#[derive(Debug)]
pub enum PatternError {
    /// One of the patterns is empty.
    Empty,
    /// The walker does not take one of the patterns.
    Refused(GlobError),
}

/// Whether one of the patterns is empty.
pub open spec fn has_empty(patterns: Seq<Seq<char>>) -> bool {
    exists|i: int| 0 <= i < patterns.len() && (#[trigger] patterns[i]).len() == 0
}

/// Prepares the walk over the media files below `path`: `MAX_DEPTH` levels
/// deep, through symbolic links, the patterns matched without regard to
/// case. A pattern that is empty, or that the walker does not take, is an
/// error at once, before any file is looked at.
pub fn build_glob_walker(path: &PathBuf, patterns: &[&str]) -> (result: Result<
    GlobWalker,
    PatternError,
>)
    ensures
        result is Ok <==> !has_empty(pattern_texts(patterns@)) && walker_built(
            *path,
            pattern_texts(patterns@),
            MAX_DEPTH,
            true,
            true,
        ),
        result matches Err(error) ==> (error is Empty <==> has_empty(pattern_texts(patterns@))),
{
    for at in 0..patterns.len()
        invariant
            forall|i: int| 0 <= i < at ==> (#[trigger] pattern_texts(patterns@)[i]).len() > 0,
    {
        if patterns[at].is_empty() {
            assert(pattern_texts(patterns@)[at as int].len() == 0);
            return Err(PatternError::Empty);
        }
    }
    match build_walker(path, patterns, MAX_DEPTH, true, true) {
        Ok(walker) => Ok(walker),
        Err(error) => Err(PatternError::Refused(error)),
    }
}

} // verus!
