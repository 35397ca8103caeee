//! Paths, as the strings the library keeps them in.
//!
//! Every path here is one the scanner or the user wrote out in full. Whether
//! a path lies under a folder, what is left of it below the folder, and how
//! deep it is are std's answers (`Path::starts_with`, `Path::strip_prefix`,
//! `Path::components`); the name a message shows is the last component.

use vstd::prelude::*;

verus! {

/// What `Path::starts_with` answers: `dir`'s components are the first
/// components of `p`, so `/m/old/a.mp3` is under `/m/old` and `/m/older` is
/// not, whatever slashes or `.` components either is written with.
pub uninterp spec fn path_under(p: Seq<char>, dir: Seq<char>) -> bool;

/// Calls `std::path::Path::starts_with` on the two paths. Claimed: the
/// answer is `path_under` of the two, a function of the paths alone (std
/// compares them component by component, with no look at the disk).
#[verifier::external_body]
pub(crate) fn is_under(p: &[char], dir: &[char]) -> (r: bool)
    ensures
        r == path_under(p@, dir@),
{
    let p: String = p.iter().collect();
    let dir: String = dir.iter().collect();
    std::path::Path::new(&p).starts_with(&dir)
}

/// What `Path::strip_prefix` leaves of `p` once the components of `dir`
/// are taken off its front, written out as a path.
pub uninterp spec fn spec_strip_prefix(p: Seq<char>, dir: Seq<char>) -> Seq<char>;

/// Calls `std::path::Path::strip_prefix`. Claimed, as std documents it:
/// there is a rest exactly when `dir` is a prefix of `p` in the sense of
/// `starts_with`, and the rest is `spec_strip_prefix` of the two paths.
#[verifier::external_body]
pub(crate) fn strip_prefix(p: &[char], dir: &[char]) -> (r: Option<Vec<char>>)
    ensures
        r is Some <==> path_under(p@, dir@),
        r matches Some(rest) ==> rest@ == spec_strip_prefix(p@, dir@),
{
    let p: String = p.iter().collect();
    let dir: String = dir.iter().collect();
    match std::path::Path::new(&p).strip_prefix(&dir) {
        Ok(rest) => Some(rest.to_string_lossy().chars().collect()),
        Err(_) => None,
    }
}

/// The last component, as `Path::file_name` gives it: nothing for `/`,
/// for a path ending in `..` or for an empty path.
pub uninterp spec fn spec_file_name(p: Seq<char>) -> Option<Seq<char>>;

/// A path as a message should name it: the file, not the whole tree.
pub open spec fn spec_name_of(p: Seq<char>) -> Seq<char> {
    match spec_file_name(p) {
        Some(name) => name,
        None => p,
    }
}

/// Calls `std::path::Path::file_name`. Claimed: the answer is
/// `spec_file_name` of the path, a function of the path alone.
#[verifier::external_body]
pub(crate) fn file_name(p: &[char]) -> (r: Option<Vec<char>>)
    ensures
        match (r, spec_file_name(p@)) {
            (Some(a), Some(b)) => a@ == b,
            (None, None) => true,
            _ => false,
        },
{
    let p: String = p.iter().collect();
    match std::path::Path::new(&p).file_name() {
        Some(n) => Some(n.to_string_lossy().chars().collect()),
        None => None,
    }
}

pub fn name_of(p: &[char]) -> (r: Vec<char>)
    ensures
        r@ == spec_name_of(p@),
{
    match file_name(p) {
        Some(name) => name,
        None => {
            let mut v: Vec<char> = Vec::new();
            crate::text::push_chars(&mut v, p);
            assert(v@ =~= p@);
            v
        },
    }
}

/// How many components `Path::components` finds in a path: the root and
/// every name, with repeated slashes and `.` components in the middle not
/// counted.
pub uninterp spec fn spec_depth(p: Seq<char>) -> nat;

/// Calls `std::path::Path::components` and counts them. Claimed: the count
/// is `spec_depth` of the path, a function of the path alone.
#[verifier::external_body]
pub(crate) fn depth(p: &[char]) -> (d: usize)
    ensures
        d == spec_depth(p@),
{
    let p: String = p.iter().collect();
    std::path::Path::new(&p).components().count()
}

} // verus!
