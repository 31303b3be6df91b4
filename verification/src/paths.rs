//! The standard library's path and case functions that the library calls.
//! The paths are those of a Unix host, where ssh and scp run: `/` is the one
//! separator. What `Path::file_name` and `Path::extension` give back is
//! stated as their documentation states it; `Path::parent` and
//! `str::to_lowercase` are named, each a function of its argument alone.
use vstd::prelude::*;
use crate::text::{last_index_of, lemma_last_index_of};

verus! {

/// The last component of a path that is not empty and not `.`: repeated
/// and trailing separators and `.` components are normalized away, as
/// `Path::components` documents.
pub open spec fn last_named_component(p: Seq<char>) -> Option<Seq<char>>
    decreases p.len(),
{
    if p.len() == 0 {
        None
    } else if p.last() == '/' {
        last_named_component(p.drop_last())
    } else {
        let k = last_index_of(p, '/');
        proof {
            lemma_last_index_of(p, '/');
        }
        let seg = p.subrange(k + 1, p.len() as int);
        if seg == seq!['.'] {
            last_named_component(p.subrange(0, k + 1))
        } else {
            Some(seg)
        }
    }
}

/// The final component of a path, as `Path::file_name` documents it: the
/// last named component, and none where the path ends in `..`, is a root,
/// or has no component.
pub open spec fn path_file_name(p: Seq<char>) -> Option<Seq<char>> {
    match last_named_component(p) {
        Some(n) => if n == seq!['.', '.'] {
            None
        } else {
            Some(n)
        },
        None => None,
    }
}

/// A path without its final component, as `Path::parent` gives it.
pub uninterp spec fn path_parent(p: Seq<char>) -> Option<Seq<char>>;

/// The extension of a path, as `Path::extension` documents it: none where
/// there is no file name, none where the file name holds no `.` or begins
/// with its only `.`, otherwise what follows the file name's last `.`.
pub open spec fn path_extension(p: Seq<char>) -> Option<Seq<char>> {
    match path_file_name(p) {
        Some(n) => {
            let k = last_index_of(n, '.');
            if k > 0 {
                Some(n.subrange(k + 1, n.len() as int))
            } else {
                None
            }
        },
        None => None,
    }
}

/// The lowercase form of a text, as `str::to_lowercase` gives it.
pub uninterp spec fn lowercase(s: Seq<char>) -> Seq<char>;

pub open spec fn opt_string_view(o: Option<String>) -> Option<Seq<char>> {
    match o {
        Some(s) => Some(s@),
        None => None,
    }
}

/// Calls `Path::file_name`; the contract states its documented result. The
/// path is valid UTF-8 and the name is a part of it, so the lossy
/// conversion loses nothing.
#[verifier::external_body]
pub(crate) fn file_name(path: &str) -> (r: Option<String>)
    ensures
        opt_string_view(r) == path_file_name(path@),
{
    match std::path::Path::new(path).file_name() {
        Some(name) => Some(name.to_string_lossy().into_owned()),
        None => None,
    }
}

/// Calls `Path::parent`; the contract says only that the result is the
/// named function of the path.
#[verifier::external_body]
pub(crate) fn parent(path: &str) -> (r: Option<String>)
    ensures
        opt_string_view(r) == path_parent(path@),
{
    match std::path::Path::new(path).parent() {
        Some(p) => Some(p.to_string_lossy().into_owned()),
        None => None,
    }
}

/// Calls `Path::extension`; the contract states its documented result, a
/// part of the path, converted without loss.
#[verifier::external_body]
pub(crate) fn extension(path: &str) -> (r: Option<String>)
    ensures
        opt_string_view(r) == path_extension(path@),
{
    match std::path::Path::new(path).extension() {
        Some(e) => Some(e.to_string_lossy().into_owned()),
        None => None,
    }
}

/// Calls `str::to_lowercase`; the contract says only that the result is the
/// named function of the text.
#[verifier::external_body]
pub(crate) fn to_lowercase(s: &str) -> (r: String)
    ensures
        r@ == lowercase(s@),
{
    s.to_lowercase()
}

} // verus!
