//! Slash-separated paths relative to the root of a source root, and the
//! operations of the `relative_path` crate that resolution relies on.
use relative_path::{RelativePath, RelativePathBuf};
use vstd::prelude::*;

verus! {

/// The path `p` truncated to its parent, as `RelativePath::parent` computes
/// it (`None` where the path has no parent).
pub uninterp spec fn parent_path(p: Seq<char>) -> Option<Seq<char>>;

/// The path `p` with `.` and `..` resolved and separators collapsed, as
/// `RelativePath::normalize` computes it.
pub uninterp spec fn normalized(p: Seq<char>) -> Seq<char>;

/// `other` appended to `base`: one leading separator of `other` is dropped,
/// and a separator is put between the two where `base` is not empty and
/// does not already end with one.
pub open spec fn pushed(base: Seq<char>, other: Seq<char>) -> Seq<char> {
    let tail = if other.len() > 0 && other[0] == '/' {
        other.drop_first()
    } else {
        other
    };
    if base.len() > 0 && base.last() != '/' {
        base.push('/') + tail
    } else {
        base + tail
    }
}

/// The directory that paths relative to a file at `p` are resolved against:
/// the parent of `p`, or the empty path where `p` has no parent.
pub open spec fn containing_dir(p: Seq<char>) -> Seq<char> {
    match parent_path(p) {
        Some(dir) => dir,
        None => Seq::empty(),
    }
}

/// The path that `relative` names, seen from a file at `anchor`.
pub open spec fn resolved_path(anchor: Seq<char>, relative: Seq<char>) -> Seq<char> {
    normalized(pushed(containing_dir(anchor), relative))
}

/// Relies on `RelativePathBuf::pop`: it truncates the path to its parent and
/// returns true, or returns false and leaves it as it is where there is no
/// parent, which is so for a path without a separator.
#[verifier::external_body]
fn pop_path(path: &mut String) -> (popped: bool)
    ensures
        popped == parent_path(old(path)@) is Some,
        popped ==> final(path)@ == parent_path(old(path)@)->Some_0,
        !popped ==> final(path)@ == old(path)@,
        !old(path)@.contains('/') ==> !popped,
{
    let mut buf = RelativePathBuf::from(std::mem::take(path));
    let popped = buf.pop();
    *path = buf.as_str().to_owned();
    popped
}

/// Relies on `RelativePathBuf::push`, whose effect `pushed` states.
#[verifier::external_body]
fn push_path(path: &mut String, other: &str)
    ensures
        final(path)@ == pushed(old(path)@, other@),
{
    let mut buf = RelativePathBuf::from(std::mem::take(path));
    buf.push(RelativePath::new(other));
    *path = buf.as_str().to_owned();
}

/// Relies on `RelativePath::normalize`.
#[verifier::external_body]
fn normalize_path(path: &str) -> (r: String)
    ensures
        r@ == normalized(path@),
{
    RelativePath::new(path).normalize().as_str().to_owned()
}

/// The directory of the file at `path`, with `relative` appended and the
/// result normalized.
pub fn resolve_path(path: &str, relative: &str) -> (r: String)
    ensures
        r@ == resolved_path(path@, relative@),
        // a file at a path of one segment sits at the root: paths relative
        // to it are resolved against the empty directory
        !path@.contains('/') ==> r@ == normalized(pushed(Seq::empty(), relative@)),
{
    let mut dir = path.to_owned();
    if !pop_path(&mut dir) {
        dir = String::new();
    }
    push_path(&mut dir, relative);
    normalize_path(dir.as_str())
}

} // verus!
