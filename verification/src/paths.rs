//! Unix path joining, as `PathBuf::push` does it.

use vstd::prelude::*;
use crate::text::{copy_chars, push_all};

verus! {

/// Whether `p` is an absolute Unix path.
pub open spec fn is_absolute(p: Seq<char>) -> bool {
    p.len() > 0 && p[0] == '/'
}

/// `a` joined with `b`: an absolute `b` replaces `a`; otherwise a `/` is put
/// between them unless `a` is empty or already ends in `/`.
pub open spec fn join_path(a: Seq<char>, b: Seq<char>) -> Seq<char> {
    if is_absolute(b) {
        b
    } else if a.len() == 0 || a.last() == '/' {
        a + b
    } else {
        a + seq!['/'] + b
    }
}

/// `a` joined with `b` (see [`join_path`]).
pub fn join(a: &[char], b: &[char]) -> (r: Vec<char>)
    ensures
        r@ == join_path(a@, b@),
{
    if b.len() > 0 && b[0] == '/' {
        return copy_chars(b);
    }
    let mut out = copy_chars(a);
    if a.len() > 0 && a[a.len() - 1] != '/' {
        out.push('/');
    }
    push_all(&mut out, b);
    out
}


/// `s[a..b)` when that lies within `s`, else nothing.
pub open spec fn piece(s: Seq<char>, a: int, b: int) -> Seq<char> {
    if 0 <= a <= b <= s.len() {
        s.subrange(a, b)
    } else {
        Seq::empty()
    }
}

/// Where in `path` the rest lies that `std::path::Path::strip_prefix` leaves
/// after the leading components equal to `base`'s (std returns a slice of
/// `path`), or `None` when `base` is not a component-wise prefix of `path`.
pub uninterp spec fn strip_prefix_span(path: Seq<char>, base: Seq<char>) -> Option<(int, int)>;

/// What `std::path::Path::strip_prefix` gives for `path` and `base`, shown
/// as text: the piece of `path` at [`strip_prefix_span`].
pub open spec fn strip_prefix_result(path: Seq<char>, base: Seq<char>) -> Option<Seq<char>> {
    match strip_prefix_span(path, base) {
        Some((a, b)) => Some(piece(path, a, b)),
        None => None,
    }
}

/// Where in `path` its final component lies, as `std::path::Path::file_name`
/// finds it (std returns a slice of `path`), or `None` (for example when it
/// ends in `..`).
pub uninterp spec fn file_name_span(path: Seq<char>) -> Option<(int, int)>;

/// What `std::path::Path::file_name` gives for `path`, as text: the piece of
/// `path` at [`file_name_span`].
pub open spec fn file_name_result(path: Seq<char>) -> Option<Seq<char>> {
    match file_name_span(path) {
        Some((a, b)) => Some(piece(path, a, b)),
        None => None,
    }
}

/// An optional string viewed as an optional character sequence.
pub open spec fn opt_text(o: Option<String>) -> Option<Seq<char>> {
    match o {
        Some(s) => Some(s@),
        None => None,
    }
}

/// `path` with the leading components `base` removed.
///
/// Trusted: calls `std::path::Path::strip_prefix` and shows the remaining
/// path with `display()` (lossless here, since `path` is UTF-8). The result
/// is a slice of `path` (std takes it from the components after the prefix),
/// so the contract states it as the piece of `path` at a named span
/// ([`strip_prefix_span`]); std's component-wise comparison (which ignores
/// repeated and trailing separators and `.` components), which decides the
/// span, is not restated.
#[verifier::external_body]
pub(crate) fn strip_prefix(path: &str, base: &str) -> (r: Option<String>)
    ensures
        match strip_prefix_span(path@, base@) {
            Some((a, b)) => 0 <= a <= b <= path@.len() && opt_text(r) == Some(path@.subrange(a, b)),
            None => r is None,
        },
        opt_text(r) == strip_prefix_result(path@, base@),
{
    match std::path::Path::new(path).strip_prefix(base) {
        Ok(rest) => Some(rest.display().to_string()),
        Err(_) => None,
    }
}

/// The final component of `path`.
///
/// Trusted: calls `std::path::Path::file_name` and converts the component
/// with `to_string_lossy` (lossless here, since `path` is UTF-8). The
/// component is a slice of `path`, so the contract states it as the piece of
/// `path` at a named span ([`file_name_span`]); std's normalisation of
/// trailing separators and `.` components, which decides the span, is not
/// restated.
#[verifier::external_body]
pub(crate) fn file_name(path: &str) -> (r: Option<String>)
    ensures
        match file_name_span(path@) {
            Some((a, b)) => 0 <= a <= b <= path@.len() && opt_text(r) == Some(path@.subrange(a, b)),
            None => r is None,
        },
        opt_text(r) == file_name_result(path@),
{
    match std::path::Path::new(path).file_name() {
        Some(name) => Some(name.to_string_lossy().into_owned()),
        None => None,
    }
}

} // verus!
