//! The two path operations of std that the library's logic calls, behind
//! wrappers, with what their documentation shows on every platform.
use vstd::prelude::*;

verus! {

/// A path separator on some platform: `/` everywhere, `\` on Windows.
pub open spec fn is_sep(c: char) -> bool {
    c == '/' || c == '\\'
}

/// A path that does not start with two separators, the form of Windows'
/// verbatim, device and UNC prefixes.
pub open spec fn no_device_prefix(p: Seq<char>) -> bool {
    p.len() >= 2 ==> !(is_sep(p[0]) && is_sep(p[1]))
}

/// A path that `Path::join` appends to any base: it has no drive or other
/// prefix (no `:`) and does not start at a root.
pub open spec fn plain_relative(p: Seq<char>) -> bool {
    &&& !p.contains(':')
    &&& p.len() > 0 ==> !is_sep(p[0])
}

/// A path that starts like a Windows verbatim prefix (`\\?`), under which
/// `/` is no separator and `Path::join` rewrites what it appends.
pub open spec fn verbatim_like(b: Seq<char>) -> bool {
    b.len() >= 3 && is_sep(b[0]) && is_sep(b[1]) && b[2] == '?'
}

/// A base path for which `Path::join` behaves alike on every platform: any
/// path but a verbatim one.
pub open spec fn plain_base(b: Seq<char>) -> bool {
    !verbatim_like(b)
}

/// A bare drive such as `C:`.
pub open spec fn bare_drive(b: Seq<char>) -> bool {
    &&& b.len() == 2
    &&& b[1] == ':'
    &&& (('a' <= b[0] && b[0] <= 'z') || ('A' <= b[0] && b[0] <= 'Z'))
}

/// `r` is `p` joined onto `b`: `p` alone after an empty base; appended
/// directly after a trailing `/`; after a trailing `\` or a bare drive,
/// appended directly (Windows) or after a `/` (elsewhere); and otherwise
/// after one separator.
pub open spec fn joined(b: Seq<char>, p: Seq<char>, r: Seq<char>) -> bool {
    if b.len() == 0 {
        r == p
    } else if b.last() == '/' {
        r == b + p
    } else if b.last() == '\\' || bare_drive(b) {
        r == b + p || r == b.push('/') + p
    } else {
        exists|c: char| is_sep(c) && r == b.push(c) + p
    }
}

/// A candidate extension: non-empty, without `.` or separators.
pub open spec fn plain_extension(e: Seq<char>) -> bool {
    &&& e.len() > 0
    &&& !e.contains('.')
    &&& !e.contains('/')
    &&& !e.contains('\\')
}

/// `p` ends in `.` and the extension `e` after a non-empty file name part:
/// the character before the `.` is no separator, and the `.` does not
/// directly follow a drive (`C:.e`).
pub open spec fn ends_with_extension(p: Seq<char>, e: Seq<char>) -> bool {
    &&& plain_extension(e)
    &&& p.len() >= e.len() + 2
    &&& p.subrange(p.len() - e.len(), p.len() as int) == e
    &&& p[p.len() - e.len() - 1] == '.'
    &&& !is_sep(p[p.len() - e.len() - 2])
    &&& !(p.len() - e.len() - 1 == 2 && p[1] == ':')
}

/// `p` names a dot file `.e`: it is `.` and `e`, alone or after a `/`.
pub open spec fn is_dot_file(p: Seq<char>, e: Seq<char>) -> bool {
    &&& plain_extension(e)
    &&& p.len() >= e.len() + 1
    &&& p.subrange(p.len() - e.len(), p.len() as int) == e
    &&& p[p.len() - e.len() - 1] == '.'
    &&& (p.len() == e.len() + 1 || p[p.len() - e.len() - 2] == '/')
}

/// `p` ends in `.` followed by `x`.
pub open spec fn ends_with_dot(p: Seq<char>, x: Seq<char>) -> bool {
    &&& p.len() >= x.len() + 1
    &&& p.subrange(p.len() - x.len(), p.len() as int) == x
    &&& p[p.len() - x.len() - 1] == '.'
}

/// `p` starts with a UNC or device root `\\server\share` (two separators,
/// a server, a separator, a share) whose closing separator is at `j`, and is
/// not a verbatim path.
pub open spec fn unc_root_end(p: Seq<char>, j: int) -> bool {
    &&& 0 < j < p.len()
    &&& is_sep(p[0]) && is_sep(p[1])
    &&& !verbatim_like(p)
    &&& is_sep(p[j])
    &&& exists|i: int|
        #![trigger p[i]]
        2 < i && i + 1 < j && is_sep(p[i]) && (forall|k: int| 2 <= k < i ==> !is_sep(#[trigger] p[k]))
            && (forall|k: int| i < k < j ==> !is_sep(#[trigger] p[k]))
}

/// What `Path::extension` gives on every platform: an extension holds no
/// `.`, and a path without `.` has none; a path below a UNC or device root
/// (`\\server\share\`) that ends in `.e` after a file name part has `e`. For a path without a device prefix
/// (under a verbatim prefix `/` is no separator) moreover: an extension holds
/// no `/`; a path ending in `.e` after a file name part has `e`; a dot file
/// has none; and when the path ends in neither a separator nor `.`, a found
/// extension `x` is the text after the path's last `.`.
pub open spec fn extension_facts(path: Seq<char>, res: Option<Seq<char>>) -> bool {
    &&& res matches Some(x) ==> !x.contains('.')
    &&& !path.contains('.') ==> res is None
    &&& forall|e: Seq<char>, j: int|
        #![trigger ends_with_extension(path, e), unc_root_end(path, j)]
        unc_root_end(path, j) && ends_with_extension(path, e) && path.len() - e.len() - 1 > j ==> res == Some(e)
    &&& no_device_prefix(path) ==> {
        &&& res matches Some(x) ==> !x.contains('/')
        &&& forall|e: Seq<char>| #[trigger] ends_with_extension(path, e) ==> res == Some(e)
        &&& forall|e: Seq<char>| #[trigger] is_dot_file(path, e) ==> res is None
        &&& (path.len() > 0 && !is_sep(path.last()) && path.last() != '.' && res is Some)
            ==> ends_with_dot(path, res->0)
    }
}

/// The view of an optional string.
pub open spec fn opt_string_view(o: Option<String>) -> Option<Seq<char>> {
    match o {
        Some(s) => Some(s@),
        None => None,
    }
}

/// A text in which no position holds `c` does not contain `c`.
pub proof fn lemma_lacks(s: Seq<char>, c: char)
    requires
        forall|i: int| 0 <= i < s.len() ==> s[i] != c,
    ensures
        !s.contains(c),
{
}

/// Two texts without `c`, one after the other, hold no `c` either.
pub proof fn lemma_concat_lacks(a: Seq<char>, b: Seq<char>, c: char)
    requires
        !a.contains(c),
        !b.contains(c),
    ensures
        !(a + b).contains(c),
{
    assert forall|i: int| 0 <= i < (a + b).len() implies (a + b)[i] != c by {
        if i < a.len() {
            assert((a + b)[i] == a[i]);
        } else {
            assert((a + b)[i] == b[i - a.len()]);
        }
    }
}

/// Calls `std::path::Path::join` on two paths given as text, and gives the
/// joined path back as text.
/// What `join` does depends on the platform (its separator, and Windows
/// prefixes), so the contract states only what its documentation shows for
/// every platform (`joined`): onto any base but a verbatim one, a relative
/// path without prefix is appended after one separator, directly after a
/// trailing `/`, and, after a trailing `\` or a bare drive, directly on
/// Windows and after a `/` elsewhere.
#[verifier::external_body]
pub(crate) fn path_join(base: &str, part: &str) -> (res: String)
    ensures
        plain_base(base@) && plain_relative(part@) ==> joined(base@, part@, res@),
{
    std::path::Path::new(base).join(part).to_string_lossy().into_owned()
}

/// Calls `std::path::Path::extension` and gives the extension back as text.
/// The extension is read from the path's file name, which depends on the
/// platform's separators and prefixes, so the contract states only what
/// holds on every platform (`extension_facts`); for a path that starts with
/// two separators, or whose extension the facts do not fix, nothing more is
/// stated.
#[verifier::external_body]
pub(crate) fn path_extension(path: &str) -> (res: Option<String>)
    ensures
        extension_facts(path@, opt_string_view(res)),
{
    std::path::Path::new(path).extension().map(|e| e.to_string_lossy().into_owned())
}

/// The text after the last `/` of a path.
pub open spec fn after_last_slash(p: Seq<char>) -> Seq<char>
    decreases p.len(),
{
    if p.len() == 0 || p.last() == '/' {
        Seq::empty()
    } else {
        after_last_slash(p.drop_last()).push(p.last())
    }
}

/// A path whose file name is plainly its text after the last `/` on every
/// platform: non-empty, without `\` or `:`, without a device prefix, and
/// ending in neither `/` nor `.`.
pub open spec fn simple_path(p: Seq<char>) -> bool {
    &&& p.len() > 0
    &&& !p.contains('\\')
    &&& !p.contains(':')
    &&& no_device_prefix(p)
    &&& p.last() != '/'
    &&& p.last() != '.'
}

/// A single path component: non-empty, without separators or `:`, and
/// neither `.` nor `..`.
pub open spec fn plain_name(n: Seq<char>) -> bool {
    &&& n.len() > 0
    &&& !n.contains('/')
    &&& !n.contains('\\')
    &&& !n.contains(':')
    &&& n != seq!['.']
    &&& n != seq!['.', '.']
}

/// The part of a name up to and including its last `.`, if it has one.
pub open spec fn through_last_dot(n: Seq<char>) -> Option<Seq<char>>
    decreases n.len(),
{
    if n.len() == 0 {
        None
    } else if n.last() == '.' {
        Some(n)
    } else {
        through_last_dot(n.drop_last())
    }
}

/// A name with its extension replaced by `ext`, or `ext` added when it has
/// none (a leading `.` alone does not start an extension).
pub open spec fn renamed(n: Seq<char>, ext: Seq<char>) -> Seq<char> {
    match through_last_dot(n) {
        Some(s) => if s.len() > 1 {
            s + ext
        } else {
            n + seq!['.'] + ext
        },
        None => n + seq!['.'] + ext,
    }
}

/// Calls `std::path::Path::file_name` and gives the file name back as text.
/// Which part is the file name depends on the platform's separators and
/// prefixes, so the contract states it only for a path that reads alike on
/// every platform (`simple_path`): its text after the last `/`.
#[verifier::external_body]
pub(crate) fn path_file_name(path: &str) -> (res: Option<String>)
    ensures
        simple_path(path@) ==> opt_string_view(res) == Some(after_last_slash(path@)),
{
    std::path::Path::new(path).file_name().map(|n| n.to_string_lossy().into_owned())
}

/// Calls `std::path::Path::with_extension` on a single file name and gives
/// the result back as text. For a plain name (no separators, no `:`, not
/// `.` or `..`) std replaces the extension, the text after the last `.`
/// unless that `.` starts the name, by `ext`, or adds `.` and `ext`.
/// An extension with a separator makes std panic; it is excluded.
#[verifier::external_body]
pub(crate) fn name_with_extension(name: &str, ext: &str) -> (res: String)
    requires
        !ext@.contains('/'),
        !ext@.contains('\\'),
        ext@.len() > 0,
    ensures
        plain_name(name@) ==> res@ == renamed(name@, ext@),
{
    std::path::Path::new(name).with_extension(ext).to_string_lossy().into_owned()
}

} // verus!
