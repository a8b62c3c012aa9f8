//! The few questions about paths the library asks of `std::path`: whether
//! two paths name the same components, a path's parent and file name, and
//! whether a path starts at a root.
//! `Path` compares and splits by components, not by text, so these are
//! asked of `std` rather than answered on the text.
use vstd::prelude::*;

verus! {

/// `Path::new(a) == Path::new(b)`: equality by components.
pub uninterp spec fn same_components_spec(a: Seq<char>, b: Seq<char>) -> bool;

/// `Path::new(p).parent()`, as text.
pub uninterp spec fn path_parent_spec(p: Seq<char>) -> Option<Seq<char>>;

/// `Path::new(p).file_name()`, when it is text.
pub uninterp spec fn path_file_name_spec(p: Seq<char>) -> Option<Seq<char>>;

/// Whether two paths have the same components (`Path`'s `==`). The
/// contract names the answer; what counts as the same components (repeated
/// separators, `.` components) is `std`'s.
#[verifier::external_body]
pub(crate) fn same_components(a: &str, b: &str) -> (r: bool)
    ensures
        r == same_components_spec(a@, b@),
{
    std::path::Path::new(a) == std::path::Path::new(b)
}

/// `Path::parent`: the path without its final component, `None` for a root
/// or an empty path. The contract names the answer.
#[verifier::external_body]
pub(crate) fn path_parent(p: &str) -> (r: Option<String>)
    ensures
        match r {
            Some(q) => path_parent_spec(p@) == Some(q@),
            None => path_parent_spec(p@) is None,
        },
{
    match std::path::Path::new(p).parent() {
        Some(q) => q.to_str().map(String::from),
        None => None,
    }
}

/// `Path::file_name`: the final component, unless the path ends in `..`.
/// The contract names the answer.
#[verifier::external_body]
pub(crate) fn path_file_name(p: &str) -> (r: Option<String>)
    ensures
        match r {
            Some(n) => path_file_name_spec(p@) == Some(n@),
            None => path_file_name_spec(p@) is None,
        },
{
    match std::path::Path::new(p).file_name() {
        Some(n) => n.to_str().map(String::from),
        None => None,
    }
}

/// Whether `Path::new(p)` begins at a root: a `Prefix` or `RootDir`
/// component among its components.
pub uninterp spec fn path_rooted_spec(p: Seq<char>) -> bool;

/// `Path::components`, asked whether any is a `Prefix` or the `RootDir`.
/// The contract names the answer, which the target's path syntax decides.
#[verifier::external_body]
fn has_root_component(p: &str) -> (r: bool)
    ensures
        r == path_rooted_spec(p@),
{
    std::path::Path::new(p).components().any(|c| match c {
        std::path::Component::Prefix(_) | std::path::Component::RootDir => true,
        _ => false,
    })
}

/// Whether a declared path names a place by starting at a root (a
/// filesystem root, a drive, or a share) rather than relative to whatever it
/// is joined to. A path that only climbs (`../x`) is not rooted.
pub fn path_is_rooted(p: &str) -> (r: bool)
    ensures
        r == path_rooted_spec(p@),
{
    has_root_component(p)
}

} // verus!
