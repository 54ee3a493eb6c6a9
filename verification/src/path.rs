use vstd::prelude::*;

verus! {

/// `path` joined onto `base` as `Path::join` does on Unix: an absolute path (one that
/// starts with `/`) replaces the base, as does any path joined onto an empty base;
/// otherwise a `/` goes between them unless the base already ends with one.
pub open spec fn spec_path_join(base: Seq<char>, path: Seq<char>) -> Seq<char> {
    if (path.len() > 0 && path[0] == '/') || base.len() == 0 {
        path
    } else if base.last() == '/' {
        base + path
    } else {
        base + seq!['/'] + path
    }
}

/// Calls `std::path::Path::join`. Claimed: on Unix the result is `spec_path_join` of the
/// two texts. Both arguments are UTF-8, so the joined path reads back as text unchanged.
#[verifier::external_body]
pub(crate) fn path_join(base: &str, path: &str) -> (joined: String)
    ensures
        joined@ == spec_path_join(base@, path@),
{
    std::path::Path::new(base).join(path).to_string_lossy().into_owned()
}

/// A path written plainly: not empty, no doubled `/`, no `.` component, and no trailing
/// `/`. Such a path splits into components exactly at its `/` characters.
pub open spec fn plain_path(s: Seq<char>) -> bool {
    &&& s.len() > 0
    &&& s.last() != '/'
    &&& forall|i: int| 0 <= i < s.len() - 1 ==> !(#[trigger] s[i] == '/' && s[i + 1] == '/')
    &&& forall|i: int|
        0 <= i < s.len() ==> (#[trigger] s[i] == '.' ==> !((i == 0 || s[i - 1] == '/') && (i
            == s.len() - 1 || s[i + 1] == '/')))
}

/// What `Path::strip_prefix` leaves of `path` once `base` is taken off its front, as
/// text; nothing when `base` is not a prefix of `path` in whole components.
pub uninterp spec fn strip_prefix_of(path: Seq<char>, base: Seq<char>) -> Option<Seq<char>>;

/// The text held by an optional string.
pub open spec fn opt_text(s: Option<String>) -> Option<Seq<char>> {
    match s {
        Some(t) => Some(t@),
        None => None,
    }
}

/// `base` taken off the front of `path`, both plain: the rest after `base` and a `/`,
/// empty when they are equal, nothing when `base` is not a prefix in whole components.
pub open spec fn plain_strip(path: Seq<char>, base: Seq<char>) -> Option<Seq<char>> {
    if path == base {
        Some(Seq::<char>::empty())
    } else if path.len() > base.len() && path.take(base.len() as int) == base && path[base.len() as int]
        == '/' {
        Some(path.skip(base.len() + 1int))
    } else {
        None
    }
}

/// The root `/` taken off the front of a plain path.
pub open spec fn root_strip(path: Seq<char>) -> Option<Seq<char>> {
    if path[0] == '/' {
        Some(path.skip(1))
    } else {
        None
    }
}

/// Calls `std::path::Path::strip_prefix`. Claimed: the result depends on the two texts
/// alone (`strip_prefix_of`), and, as the documentation's "whole path components"
/// describes, for plain paths `base` is a prefix exactly when `path` is `base` or
/// continues it after a `/`, the rest being what follows that `/`; taking `/` off a
/// plain path succeeds exactly when it starts with `/`. Other paths (with `.` or doubled
/// `/` components) are left to the name.
#[verifier::external_body]
pub(crate) fn path_strip_prefix(path: &str, base: &str) -> (rest: Option<String>)
    ensures
        opt_text(rest) == strip_prefix_of(path@, base@),
        plain_path(path@) && plain_path(base@) ==> opt_text(rest) == plain_strip(path@, base@),
        plain_path(path@) && base@ == seq!['/'] ==> opt_text(rest) == root_strip(path@),
{
    match std::path::Path::new(path).strip_prefix(base) {
        Ok(r) => Some(r.to_string_lossy().into_owned()),
        Err(_) => None,
    }
}

/// Index of the last `/` in `s`, or `-1` when there is none.
pub open spec fn last_slash(s: Seq<char>) -> int
    decreases s.len(),
{
    if s.len() == 0 {
        -1
    } else if s.last() == '/' {
        s.len() - 1
    } else {
        last_slash(s.drop_last())
    }
}

/// What `Path::file_name` gives for a path, as text.
pub uninterp spec fn file_name_of(path: Seq<char>) -> Option<Seq<char>>;

/// The last component of a plain path, or nothing when it is `..`.
pub open spec fn plain_file_name(path: Seq<char>) -> Option<Seq<char>> {
    let last = path.skip(last_slash(path) + 1);
    if last == ".."@ {
        None
    } else {
        Some(last)
    }
}

/// Calls `std::path::Path::file_name`. Claimed: the result depends on the text alone
/// (`file_name_of`), and for a plain path it is the last component, or nothing when
/// that component is `..`.
#[verifier::external_body]
pub(crate) fn path_file_name(path: &str) -> (name: Option<String>)
    ensures
        opt_text(name) == file_name_of(path@),
        plain_path(path@) ==> opt_text(name) == plain_file_name(path@),
{
    std::path::Path::new(path).file_name().map(|n| n.to_string_lossy().into_owned())
}

/// What `PathBuf::pop` leaves of a path, as text.
pub uninterp spec fn popped_of(path: Seq<char>) -> Seq<char>;

/// A plain path up to its last `/` (`/` itself when that is the root), or empty when it
/// has no `/`.
pub open spec fn plain_parent(path: Seq<char>) -> Seq<char> {
    if last_slash(path) < 0 {
        Seq::<char>::empty()
    } else if last_slash(path) == 0 {
        seq!['/']
    } else {
        path.take(last_slash(path))
    }
}

/// Calls `std::path::PathBuf::pop`. Claimed: the result depends on the text alone
/// (`popped_of`), and for a plain path it is the path up to its last `/` (`/` itself when
/// that is the root), or empty when there is no `/`.
#[verifier::external_body]
pub(crate) fn path_pop(path: &str) -> (parent: String)
    ensures
        parent@ == popped_of(path@),
        plain_path(path@) ==> parent@ == plain_parent(path@),
{
    let mut buf = std::path::PathBuf::from(path);
    buf.pop();
    buf.to_string_lossy().into_owned()
}

} // verus!
