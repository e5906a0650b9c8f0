//! The decisions around MKV files: which entries are processed, where the
//! tool binaries lie, how a scan is split by chapters, and whether all files
//! of a directory tree have chapters.
use vstd::prelude::*;
use vstd::string::*;
use crate::chapters::Chapters;
use crate::entries::{EntryKind, EntryView, entries_view, entry_path};
use crate::paths::{
    path_join, path_extension, plain_base, plain_relative, joined, ends_with_extension, is_sep, no_device_prefix,
    is_dot_file, ends_with_dot, plain_extension, extension_facts, opt_string_view, path_file_name, name_with_extension,
    unc_root_end, verbatim_like, after_last_slash, simple_path, plain_name, renamed, through_last_dot, lemma_lacks, lemma_concat_lacks,
    bare_drive,
};
use crate::text::text_eq;

verus! {

/// The tool binaries' directory under the project directory.
pub open spec fn tools_dir() -> Seq<char> {
    "third_party/bin"@
}

/// `path` is where `get_third_party_binary` places the binary `name`: the
/// tools directory joined onto `manifest_dir`, then `name` joined onto that.
pub open spec fn third_party_path(manifest_dir: Seq<char>, name: Seq<char>, path: Seq<char>) -> bool {
    exists|dir: Seq<char>| joined(manifest_dir, tools_dir(), dir) && joined(dir, name, path)
}

/// The path of the outside binary `name` under the project directory
/// `manifest_dir` (its `third_party/bin` directory).
pub fn get_third_party_binary(manifest_dir: &str, name: &str) -> (res: String)
    ensures
        plain_base(manifest_dir@) && plain_relative(name@) ==> third_party_path(manifest_dir@, name@, res@),
{
    let dir = path_join(manifest_dir, "third_party/bin");
    let res = path_join(dir.as_str(), name);
    proof {
        reveal_strlit("third_party/bin");
        if plain_base(manifest_dir@) && plain_relative(name@) {
            let t = tools_dir();
            lemma_lacks(t, ':');
            assert(joined(manifest_dir@, t, dir@));
            lemma_join_keeps_plain(manifest_dir@, t, dir@);
            assert(joined(dir@, name@, res@));
        }
    }
    res
}

/// Why an entry is not processed as an MKV file.
pub enum MkvError {
    /// The entry is a directory or another non-file object.
    NotAFile,
    /// The file's extension is not `mkv`.
    NotMkv { path: String },
    /// The file lies directly in the base directory, in no subdirectory.
    DirectlyInBase,
}

/// The message an MKV error is reported with.
pub open spec fn mkv_error_message(e: MkvError) -> Seq<char> {
    match e {
        MkvError::NotAFile => "Only processes files"@,
        MkvError::NotMkv { path } => "Only .mkv supported for now, "@ + path@,
        MkvError::DirectlyInBase => "File is directly in base_dir without subdirectory"@,
    }
}

impl MkvError {
    /// The message the error is reported with.
    pub fn message(&self) -> (res: String)
        ensures
            res@ == mkv_error_message(*self),
    {
        match self {
            MkvError::NotAFile => String::from_str("Only processes files"),
            MkvError::NotMkv { path } => {
                let mut out = String::from_str("Only .mkv supported for now, ");
                out.append(path.as_str());
                out
            },
            MkvError::DirectlyInBase => String::from_str("File is directly in base_dir without subdirectory"),
        }
    }
}

/// Whether an optional extension is exactly `ext`.
pub open spec fn has_extension(extension: Option<Seq<char>>, ext: Seq<char>) -> bool {
    extension == Some(ext)
}

/// The view of an optional extension.
pub open spec fn ext_view(e: Option<String>) -> Option<Seq<char>> {
    match e {
        Some(s) => Some(s@),
        None => None,
    }
}

/// Whether `ext` is the extension `want`.
pub fn extension_is(ext: &Option<String>, want: &str) -> (res: bool)
    ensures
        res == has_extension(ext_view(*ext), want@),
{
    match ext {
        Some(e) => text_eq(e.as_str(), want),
        None => false,
    }
}

/// Checks an entry for `process_mkv_file`, given the extension of its path:
/// only a file whose extension is `mkv` passes, and its path comes back.
pub fn check_mkv_entry(entry: &EntryKind, extension: &Option<String>) -> (res: Result<String, MkvError>)
    ensures
        entry@ is File <==> !(res matches Err(MkvError::NotAFile)),
        res is Ok <==> (entry@ is File && has_extension(ext_view(*extension), "mkv"@)),
        res matches Ok(p) ==> p@ == entry_path(entry@),
        res matches Err(MkvError::NotMkv { path }) ==> path@ == entry_path(entry@),
        !(res matches Err(MkvError::DirectlyInBase)),
{
    match entry {
        EntryKind::File(p) => {
            if extension_is(extension, "mkv") {
                Ok(p.clone())
            } else {
                Err(MkvError::NotMkv { path: p.clone() })
            }
        },
        _ => Err(MkvError::NotAFile),
    }
}

/// What deciding "the path's extension is `want`" from `Path::extension`
/// fixes on every platform: a path without `.` is refused; below a UNC or
/// device root, a path ending in `.e` after a file name part is accepted
/// exactly when `e` is `want`; for a path
/// without a device prefix, a path ending in `.e` after a file name part is
/// accepted exactly when `e` is `want`, a dot file is refused, and an
/// accepted path that ends in neither a separator nor `.` ends in `.want`.
pub open spec fn ext_decision(p: Seq<char>, want: Seq<char>, accepted: bool) -> bool {
    &&& !p.contains('.') ==> !accepted
    &&& forall|e: Seq<char>, j: int|
        #![trigger ends_with_extension(p, e), unc_root_end(p, j)]
        unc_root_end(p, j) && ends_with_extension(p, e) && p.len() - e.len() - 1 > j ==> (accepted <==> e == want)
    &&& no_device_prefix(p) ==> {
        &&& forall|e: Seq<char>| #[trigger] ends_with_extension(p, e) ==> (accepted <==> e == want)
        &&& forall|e: Seq<char>| #[trigger] is_dot_file(p, e) ==> !accepted
        &&& (p.len() > 0 && !is_sep(p.last()) && p.last() != '.' && accepted) ==> ends_with_dot(p, want)
    }
}

/// Comparing what `Path::extension` gave with `want` meets `ext_decision`.
pub proof fn lemma_extension_decision(p: Seq<char>, ext: Option<Seq<char>>, want: Seq<char>)
    requires
        extension_facts(p, ext),
    ensures
        ext_decision(p, want, has_extension(ext, want)),
{
    if no_device_prefix(p) {
        assert forall|e: Seq<char>| #[trigger] ends_with_extension(p, e) implies (has_extension(ext, want) <==> e == want) by {
            assert(ext == Some(e));
        }
    }
    assert forall|e: Seq<char>, j: int|
        #![trigger ends_with_extension(p, e), unc_root_end(p, j)]
        unc_root_end(p, j) && ends_with_extension(p, e) && p.len() - e.len() - 1 > j
        implies (has_extension(ext, want) <==> e == want) by {
        assert(ext == Some(e));
    }
}

/// A non-empty run of characters without separators or `:`.
pub open spec fn plain_segment(s: Seq<char>) -> bool {
    &&& s.len() > 0
    &&& forall|k: int| 0 <= k < s.len() ==> !is_sep(#[trigger] s[k]) && s[k] != ':'
}

proof fn lemma_name_ends_with_extension(p: Seq<char>, head: Seq<char>, stem: Seq<char>, e: Seq<char>)
    requires
        p == head + stem + seq!['.'] + e,
        plain_segment(stem),
        plain_extension(e),
        head.len() > 0 ==> p[1] != ':' || head.len() + stem.len() != 2,
    ensures
        ends_with_extension(p, e),
        p.len() - e.len() - 1 == head.len() + stem.len(),
{
    let d: int = head.len() + stem.len() as int;
    assert(p.subrange(p.len() - e.len(), p.len() as int) =~= e);
    assert(p[d] == '.');
    assert(p[d - 1] == stem[stem.len() - 1]);
    if d == 2 && p[1] == ':' {
        if head.len() == 0 {
            assert(p[1] == stem[1]);
        } else if head.len() == 1 {
            assert(p[1] == stem[0]);
        }
    }
}

/// A file on a network share or device, `\\server\share\..\stem.e`, has the
/// extension `e`: it is accepted exactly when `e` is `want`, whatever
/// directories stand between the share and the file name.
pub proof fn lemma_unc_file_extension(
    server: Seq<char>,
    share: Seq<char>,
    c: char,
    dirs: Seq<char>,
    stem: Seq<char>,
    e: Seq<char>,
    want: Seq<char>,
    accepted: bool,
)
    requires
        plain_segment(server),
        server[0] != '?',
        plain_segment(share),
        is_sep(c),
        plain_segment(stem),
        plain_extension(e),
        ext_decision(seq!['\\', '\\'] + server + seq!['\\'] + share + seq![c] + dirs + stem + seq!['.'] + e, want, accepted),
    ensures
        accepted <==> e == want,
{
    let head = seq!['\\', '\\'] + server + seq!['\\'] + share + seq![c] + dirs;
    let p = seq!['\\', '\\'] + server + seq!['\\'] + share + seq![c] + dirs + stem + seq!['.'] + e;
    assert(p =~= head + stem + seq!['.'] + e);
    let i: int = 2 + server.len() as int;
    let j: int = i + 1 + share.len();
    assert(p[0] == '\\' && p[1] == '\\');
    assert(p[2] == server[0]);
    assert(!verbatim_like(p));
    assert(p[i] == '\\');
    assert forall|k: int| 2 <= k < i implies !is_sep(#[trigger] p[k]) by {
        assert(p[k] == server[k - 2]);
    }
    assert forall|k: int| i < k < j implies !is_sep(#[trigger] p[k]) by {
        assert(p[k] == share[k - i - 1]);
    }
    assert(p[j] == c);
    assert(unc_root_end(p, j));
    lemma_name_ends_with_extension(p, head, stem, e);
}

/// A local file, `dir/stem.e` with any directory part that does not start
/// like a network root (a drive such as `C:` included), has the extension
/// `e`: it is accepted exactly when `e` is `want`.
pub proof fn lemma_local_file_extension(
    dir: Seq<char>,
    c: char,
    stem: Seq<char>,
    e: Seq<char>,
    want: Seq<char>,
    accepted: bool,
)
    requires
        is_sep(c),
        no_device_prefix(dir.push(c)),
        plain_segment(stem),
        plain_extension(e),
        ext_decision(dir.push(c) + stem + seq!['.'] + e, want, accepted),
    ensures
        accepted <==> e == want,
{
    let head = dir.push(c);
    let p = head + stem + seq!['.'] + e;
    assert(p[0] == head[0]);
    if head.len() >= 2 {
        assert(p[1] == head[1]);
    } else {
        assert(p[1] == stem[0]);
    }
    assert(no_device_prefix(p));
    lemma_name_ends_with_extension(p, head, stem, e);
}

/// Whether the path's extension, as `Path::extension` reads it, is `want`.
pub fn path_has_extension(path: &str, want: &str) -> (res: bool)
    ensures
        ext_decision(path@, want@, res),
{
    let ext = path_extension(path);
    let res = extension_is(&ext, want);
    proof {
        lemma_extension_decision(path@, opt_string_view(ext), want@);
        assert(ext_view(ext) == opt_string_view(ext));
    }
    res
}

/// The path of an entry that `process_mkv_file` processes: files only, and
/// only those whose path has the extension `mkv` (as `Path::extension` reads it).
pub fn mkv_entry_path(entry: &EntryKind) -> (res: Result<String, MkvError>)
    ensures
        entry@ is File <==> !(res matches Err(MkvError::NotAFile)),
        res matches Ok(p) ==> p@ == entry_path(entry@),
        res matches Err(MkvError::NotMkv { path }) ==> path@ == entry_path(entry@),
        !(res matches Err(MkvError::DirectlyInBase)),
        entry@ is File ==> ext_decision(entry_path(entry@), "mkv"@, res is Ok),
{
    match entry {
        EntryKind::File(p) => {
            if path_has_extension(p.as_str(), "mkv") {
                Ok(p.clone())
            } else {
                Err(MkvError::NotMkv { path: p.clone() })
            }
        },
        _ => Err(MkvError::NotAFile),
    }
}

/// The entries of a scan whose chapter verdict is `want`, in scan order;
/// objects that are neither files nor directories are in neither part.
pub open spec fn pick_by_verdict(entries: Seq<EntryView>, verdicts: Seq<bool>, want: bool) -> Seq<EntryView>
    decreases entries.len(),
{
    if entries.len() == 0 {
        Seq::empty()
    } else {
        let rest = pick_by_verdict(entries.drop_last(), verdicts.take(entries.len() - 1), want);
        if !(entries.last() is Other) && verdicts[entries.len() - 1] == want {
            rest.push(entries.last())
        } else {
            rest
        }
    }
}

/// The number of files and directories among entries.
pub open spec fn count_sorted(entries: Seq<EntryView>) -> nat
    decreases entries.len(),
{
    if entries.len() == 0 {
        0
    } else {
        count_sorted(entries.drop_last()) + if entries.last() is Other { 0nat } else { 1nat }
    }
}

/// Splits a scan into the entries with chapters and those without
/// (`list_dir_with_kind_has_chapters_split` once each entry has been probed):
/// `verdicts[i]` tells whether entry `i` has chapters; files and directories
/// go to one side or the other in order, other objects are skipped.
pub fn split_by_chapter_verdicts(list: &Vec<EntryKind>, verdicts: &Vec<bool>) -> (res: (Vec<EntryKind>, Vec<EntryKind>))
    requires
        list@.len() == verdicts@.len(),
    ensures
        entries_view(res.0@) == pick_by_verdict(entries_view(list@), verdicts@, true),
        entries_view(res.1@) == pick_by_verdict(entries_view(list@), verdicts@, false),
{
    let mut with_chapters: Vec<EntryKind> = Vec::new();
    let mut without_chapters: Vec<EntryKind> = Vec::new();
    let mut i: usize = 0;
    let ghost all = entries_view(list@);
    while i < list.len()
        invariant
            i <= list.len(),
            list@.len() == verdicts@.len(),
            all == entries_view(list@),
            entries_view(with_chapters@) == pick_by_verdict(all.take(i as int), verdicts@.take(i as int), true),
            entries_view(without_chapters@) == pick_by_verdict(all.take(i as int), verdicts@.take(i as int), false),
        decreases list.len() - i,
    {
        let item = &list[i];
        proof {
            let t = all.take(i + 1);
            assert(t.drop_last() =~= all.take(i as int));
            assert(verdicts@.take(i + 1).take(i as int) =~= verdicts@.take(i as int));
            assert(t.last() == item@);
        }
        match item {
            EntryKind::Other(_) => {},
            _ => {
                if verdicts[i] {
                    with_chapters.push(item.duplicate());
                } else {
                    without_chapters.push(item.duplicate());
                }
            },
        }
        proof {
            assert(entries_view(with_chapters@) =~= pick_by_verdict(all.take(i + 1), verdicts@.take(i + 1), true));
            assert(entries_view(without_chapters@) =~= pick_by_verdict(all.take(i + 1), verdicts@.take(i + 1), false));
        }
        i = i + 1;
    }
    proof {
        assert(all.take(list@.len() as int) =~= all);
        assert(verdicts@.take(list@.len() as int) =~= verdicts@);
    }
    (with_chapters, without_chapters)
}

/// The split of a scan is a partition of its files and directories: the two
/// parts together hold as many entries as there are files and directories,
/// and neither part holds another kind of object.
pub proof fn lemma_split_partitions(entries: Seq<EntryView>, verdicts: Seq<bool>)
    requires
        entries.len() == verdicts.len(),
    ensures
        pick_by_verdict(entries, verdicts, true).len() + pick_by_verdict(entries, verdicts, false).len()
            == count_sorted(entries),
        forall|i: int| 0 <= i < pick_by_verdict(entries, verdicts, true).len()
            ==> !(#[trigger] pick_by_verdict(entries, verdicts, true)[i] is Other),
        forall|i: int| 0 <= i < pick_by_verdict(entries, verdicts, false).len()
            ==> !(#[trigger] pick_by_verdict(entries, verdicts, false)[i] is Other),
    decreases entries.len(),
{
    if entries.len() > 0 {
        let n = entries.len() - 1;
        lemma_split_partitions(entries.drop_last(), verdicts.take(n));
        let w0 = pick_by_verdict(entries.drop_last(), verdicts.take(n), true);
        let o0 = pick_by_verdict(entries.drop_last(), verdicts.take(n), false);
        let w = pick_by_verdict(entries, verdicts, true);
        let o = pick_by_verdict(entries, verdicts, false);
        assert forall|i: int| 0 <= i < w.len() implies !(#[trigger] w[i] is Other) by {
            if i < w0.len() {
                assert(w[i] == w0[i]);
            }
        }
        assert forall|i: int| 0 <= i < o.len() implies !(#[trigger] o[i] is Other) by {
            if i < o0.len() {
                assert(o[i] == o0[i]);
            }
        }
    }
}

/// How many of the first `i` entries of a scan are files or directories
/// whose own verdict is `want`.
pub open spec fn picked_before(entries: Seq<EntryView>, verdicts: Seq<bool>, want: bool, i: int) -> nat
    decreases i,
{
    if i <= 0 {
        0
    } else {
        picked_before(entries, verdicts, want, i - 1) + if !(entries[i - 1] is Other) && verdicts[i - 1] == want {
            1nat
        } else {
            0nat
        }
    }
}

proof fn lemma_picked_before_prefix(entries: Seq<EntryView>, verdicts: Seq<bool>, want: bool, m: int, i: int)
    requires
        0 <= i <= m <= entries.len(),
        m <= verdicts.len(),
    ensures
        picked_before(entries.take(m), verdicts.take(m), want, i) == picked_before(entries, verdicts, want, i),
    decreases i,
{
    if i > 0 {
        lemma_picked_before_prefix(entries, verdicts, want, m, i - 1);
        assert(entries.take(m)[i - 1] == entries[i - 1]);
        assert(verdicts.take(m)[i - 1] == verdicts[i - 1]);
    }
}

proof fn lemma_picked_before_monotone(entries: Seq<EntryView>, verdicts: Seq<bool>, want: bool, i: int, j: int)
    requires
        0 <= i <= j,
    ensures
        picked_before(entries, verdicts, want, i) <= picked_before(entries, verdicts, want, j),
    decreases j - i,
{
    if i < j {
        lemma_picked_before_monotone(entries, verdicts, want, i, j - 1);
    }
}

/// The part for `want` lists, in scan order, exactly the files and
/// directories whose verdict at the same index is `want`: entry `i` stands
/// at the position given by the number of such entries before it.
pub proof fn lemma_split_by_own_verdict(entries: Seq<EntryView>, verdicts: Seq<bool>, want: bool)
    requires
        entries.len() == verdicts.len(),
    ensures
        pick_by_verdict(entries, verdicts, want).len() == picked_before(entries, verdicts, want, entries.len() as int),
        forall|i: int| 0 <= i < entries.len() && !(entries[i] is Other) && verdicts[i] == want
            ==> #[trigger] pick_by_verdict(entries, verdicts, want)[picked_before(entries, verdicts, want, i) as int]
                == entries[i],
    decreases entries.len(),
{
    if entries.len() > 0 {
        let n = entries.len() - 1;
        let t = entries.drop_last();
        let v = verdicts.take(n);
        lemma_split_by_own_verdict(t, v, want);
        assert(t =~= entries.take(n));
        assert forall|i: int| 0 <= i <= n implies picked_before(t, v, want, i) == picked_before(entries, verdicts, want, i) by {
            lemma_picked_before_prefix(entries, verdicts, want, n, i);
        }
        assert forall|i: int| 0 <= i < entries.len() && !(entries[i] is Other) && verdicts[i] == want
            implies #[trigger] pick_by_verdict(entries, verdicts, want)[picked_before(entries, verdicts, want, i) as int]
                == entries[i] by {
            if i < n {
                assert(t[i] == entries[i]);
                assert(v[i] == verdicts[i]);
                assert(pick_by_verdict(t, v, want)[picked_before(t, v, want, i) as int] == t[i]);
                lemma_picked_before_monotone(entries, verdicts, want, i + 1, n);
            }
        }
    }
}

/// An entry of a directory tree that has been read and probed for chapters:
/// the tree over which the verdict of `all_files_have_chapters` is stated,
/// and which `scan::ChapterScan` walks step by step
/// (`scan::lemma_step_keeps_verdict`).
pub enum ProbedEntry {
    /// A file, the extension of its path, and whether it has chapters (or
    /// why probing it failed).
    File { path: String, extension: Option<String>, has_chapters: Result<bool, String> },
    /// A directory and its entries (or why it could not be listed).
    Directory { path: String, listing: Result<Vec<ProbedEntry>, String> },
    /// Any other object.
    Other { path: String },
}

/// Whether a probed entry counts as having chapters: `.txt` files and other
/// objects always do; a file as its probe says; a directory when all of its
/// entries do. The first failure met in order is the answer.
pub open spec fn entry_verdict(e: ProbedEntry) -> Result<bool, Seq<char>>
    decreases e,
{
    match e {
        ProbedEntry::File { path, extension, has_chapters } => {
            if has_extension(ext_view(extension), "txt"@) {
                Ok(true)
            } else {
                match has_chapters {
                    Ok(b) => Ok(b),
                    Err(m) => Err(m@),
                }
            }
        },
        ProbedEntry::Directory { path, listing } => match listing {
            Ok(v) => listing_verdict(v@),
            Err(m) => Err(m@),
        },
        ProbedEntry::Other { path } => Ok(true),
    }
}

/// Whether all entries of a listing have chapters, entries taken in order:
/// the first entry that lacks them, or fails, decides.
pub open spec fn listing_verdict(s: Seq<ProbedEntry>) -> Result<bool, Seq<char>>
    decreases s,
{
    if s.len() == 0 {
        Ok(true)
    } else {
        match listing_verdict(s.subrange(0, s.len() - 1)) {
            Ok(true) => entry_verdict(s[s.len() - 1]),
            other => other,
        }
    }
}

/// The verdict of a directory from the result of listing it.
pub open spec fn directory_verdict(listing: Result<Vec<ProbedEntry>, String>) -> Result<bool, Seq<char>> {
    match listing {
        Ok(v) => listing_verdict(v@),
        Err(m) => Err(m@),
    }
}

fn entry_has_chapters(e: &ProbedEntry) -> (res: Result<bool, String>)
    ensures
        match res {
            Ok(b) => entry_verdict(*e) == Ok::<bool, Seq<char>>(b),
            Err(m) => entry_verdict(*e) == Err::<bool, Seq<char>>(m@),
        },
    decreases e,
{
    match e {
        ProbedEntry::File { path, extension, has_chapters } => {
            if extension_is(extension, "txt") {
                Ok(true)
            } else {
                match has_chapters {
                    Ok(b) => Ok(*b),
                    Err(m) => Err(m.clone()),
                }
            }
        },
        ProbedEntry::Directory { path, listing } => match listing {
            Ok(v) => entries_have_chapters(v),
            Err(m) => Err(m.clone()),
        },
        ProbedEntry::Other { path } => Ok(true),
    }
}

fn entries_have_chapters(v: &Vec<ProbedEntry>) -> (res: Result<bool, String>)
    ensures
        match res {
            Ok(b) => listing_verdict(v@) == Ok::<bool, Seq<char>>(b),
            Err(m) => listing_verdict(v@) == Err::<bool, Seq<char>>(m@),
        },
    decreases v,
{
    let mut i: usize = 0;
    while i < v.len()
        invariant
            i <= v.len(),
            listing_verdict(v@.subrange(0, i as int)) == Ok::<bool, Seq<char>>(true),
        decreases v.len() - i,
    {
        proof {
            assert(v@.subrange(0, i + 1).subrange(0, i as int) =~= v@.subrange(0, i as int));
            assert(v@.subrange(0, i + 1)[i as int] == v@[i as int]);
        }
        let r = entry_has_chapters(&v[i]);
        match r {
            Ok(true) => {},
            Ok(false) => {
                proof {
                    lemma_verdict_settles(v@, i as int + 1);
                }
                return Ok(false);
            },
            Err(m) => {
                proof {
                    lemma_verdict_settles(v@, i as int + 1);
                }
                return Err(m);
            },
        }
        i = i + 1;
    }
    proof {
        assert(v@.subrange(0, v@.len() as int) =~= v@);
    }
    Ok(true)
}

/// Once a prefix of a listing has a verdict other than "all have chapters",
/// the whole listing has that verdict.
proof fn lemma_verdict_settles(s: Seq<ProbedEntry>, k: int)
    requires
        0 <= k <= s.len(),
        listing_verdict(s.subrange(0, k)) != Ok::<bool, Seq<char>>(true),
    ensures
        listing_verdict(s) == listing_verdict(s.subrange(0, k)),
    decreases s.len() - k,
{
    if k == s.len() {
        assert(s.subrange(0, k) =~= s);
    } else {
        assert(s.subrange(0, k + 1).subrange(0, k) =~= s.subrange(0, k));
        lemma_verdict_settles(s, k + 1);
    }
}

/// Whether all files of a directory tree have chapters, for a tree that has
/// been listed and probed (the walk that lists and probes only as far as
/// needed is `scan::ChapterScan`, which ends with this same verdict): `.txt`
/// files and other objects are passed over, a file counts as its probe says,
/// a subdirectory when all of its files have chapters, and the first file
/// without chapters, or the first failure, met in order decides.
pub fn all_files_have_chapters(listing: &Result<Vec<ProbedEntry>, String>) -> (res: Result<bool, String>)
    ensures
        match res {
            Ok(b) => directory_verdict(*listing) == Ok::<bool, Seq<char>>(b),
            Err(m) => directory_verdict(*listing) == Err::<bool, Seq<char>>(m@),
        },
{
    match listing {
        Ok(v) => entries_have_chapters(v),
        Err(m) => Err(m.clone()),
    }
}

/// A listing counts as having chapters exactly when each of its entries does.
pub proof fn lemma_listing_all_entries(s: Seq<ProbedEntry>)
    ensures
        listing_verdict(s) == Ok::<bool, Seq<char>>(true)
            <==> forall|i: int| 0 <= i < s.len() ==> #[trigger] entry_verdict(s[i]) == Ok::<bool, Seq<char>>(true),
    decreases s.len(),
{
    if s.len() > 0 {
        let p = s.subrange(0, s.len() - 1);
        lemma_listing_all_entries(p);
        if listing_verdict(s) == Ok::<bool, Seq<char>>(true) {
            assert forall|i: int| 0 <= i < s.len() implies #[trigger] entry_verdict(s[i]) == Ok::<bool, Seq<char>>(true) by {
                if i < s.len() - 1 {
                    assert(p[i] == s[i]);
                }
            }
        }
        if forall|i: int| 0 <= i < s.len() ==> #[trigger] entry_verdict(s[i]) == Ok::<bool, Seq<char>>(true) {
            assert forall|i: int| 0 <= i < p.len() implies #[trigger] entry_verdict(p[i]) == Ok::<bool, Seq<char>>(true) by {
                assert(p[i] == s[i]);
            }
            assert(entry_verdict(s[s.len() - 1]) == Ok::<bool, Seq<char>>(true));
        }
    }
}

/// The verdict of two listings one after the other: the first decides
/// unless all of its entries have chapters.
pub proof fn lemma_listing_verdict_concat(a: Seq<ProbedEntry>, b: Seq<ProbedEntry>)
    ensures
        listing_verdict(a + b) == (match listing_verdict(a) {
            Ok(true) => listing_verdict(b),
            other => other,
        }),
    decreases b.len(),
{
    if b.len() == 0 {
        assert(a + b =~= a);
    } else {
        let b0 = b.subrange(0, b.len() - 1);
        lemma_listing_verdict_concat(a, b0);
        assert((a + b).subrange(0, (a + b).len() - 1) =~= a + b0);
        assert((a + b)[(a + b).len() - 1] == b[b.len() - 1]);
    }
}

/// An entry that counts as having chapters can be left out of a listing,
/// wherever it stands, without changing the listing's verdict.
pub proof fn lemma_passing_entry_ignored(s: Seq<ProbedEntry>, i: int)
    requires
        0 <= i < s.len(),
        entry_verdict(s[i]) == Ok::<bool, Seq<char>>(true),
    ensures
        listing_verdict(s.remove(i)) == listing_verdict(s),
{
    let a = s.subrange(0, i);
    let b = s.subrange(i + 1, s.len() as int);
    let x = seq![s[i]];
    assert(s =~= a + x + b);
    assert(s.remove(i) =~= a + b);
    lemma_listing_verdict_concat(a + x, b);
    lemma_listing_verdict_concat(a, x);
    lemma_listing_verdict_concat(a, b);
    assert(x.subrange(0, 0) =~= Seq::<ProbedEntry>::empty());
    assert(x[0] == s[i]);
    assert(listing_verdict(Seq::<ProbedEntry>::empty()) == Ok::<bool, Seq<char>>(true));
    assert(listing_verdict(x) == Ok::<bool, Seq<char>>(true));
}

/// A `.txt` file never changes whether a listing has chapters: leaving one
/// out of a listing, wherever it stands, leaves the verdict as it was.
pub proof fn lemma_txt_file_ignored(s: Seq<ProbedEntry>, i: int)
    requires
        0 <= i < s.len(),
        s[i] matches ProbedEntry::File { extension, .. } && has_extension(ext_view(extension), "txt"@),
    ensures
        listing_verdict(s.remove(i)) == listing_verdict(s),
{
    assert(entry_verdict(s[i]) == Ok::<bool, Seq<char>>(true));
    lemma_passing_entry_ignored(s, i);
}

/// Culling empty directories never changes whether all files have chapters:
/// a directory whose listing is empty can be left out of a listing, wherever
/// it stands, without changing its verdict (and a directory's verdict is its
/// listing's, so this holds at every level of the tree).
pub proof fn lemma_empty_directory_ignored(s: Seq<ProbedEntry>, i: int)
    requires
        0 <= i < s.len(),
        s[i] matches ProbedEntry::Directory { listing: Ok(v), .. } && v@.len() == 0,
    ensures
        listing_verdict(s.remove(i)) == listing_verdict(s),
{
    assert(entry_verdict(s[i]) == Ok::<bool, Seq<char>>(true));
    lemma_passing_entry_ignored(s, i);
}

/// A directory node whose listing is empty.
pub open spec fn is_empty_dir_node(n: ProbedEntry) -> bool {
    n matches ProbedEntry::Directory { listing: Ok(v), .. } && v@.len() == 0
}

/// `culled` is the listing `full` as a walk that culls empty directories
/// sees it: every entry of `full`, in order, but the directories whose
/// listing is empty, each subdirectory's listing culled alike.
pub open spec fn culled_listing(culled: Seq<ProbedEntry>, full: Seq<ProbedEntry>) -> bool
    decreases full,
{
    if full.len() == 0 {
        culled.len() == 0
    } else if is_empty_dir_node(full[full.len() - 1]) {
        culled_listing(culled, full.subrange(0, full.len() - 1))
    } else {
        &&& culled.len() > 0
        &&& culled_entry(culled[culled.len() - 1], full[full.len() - 1])
        &&& culled_listing(culled.subrange(0, culled.len() - 1), full.subrange(0, full.len() - 1))
    }
}

/// `c` is the entry `f` as a culling walk sees it: the same file or other
/// object, or the same directory with its listing culled (or failing alike).
pub open spec fn culled_entry(c: ProbedEntry, f: ProbedEntry) -> bool
    decreases f,
{
    match f {
        ProbedEntry::Directory { path, listing } => match c {
            ProbedEntry::Directory { path: cpath, listing: clisting } => {
                &&& cpath@ == path@
                &&& match listing {
                    Ok(fv) => match clisting {
                        Ok(cv) => culled_listing(cv@, fv@),
                        Err(_) => false,
                    },
                    Err(m) => clisting matches Err(cm) && cm@ == m@,
                }
            },
            _ => false,
        },
        _ => c == f,
    }
}

/// Culling keeps the verdict of a listing, at every level of the tree.
pub proof fn lemma_culled_listing_verdict(c: Seq<ProbedEntry>, f: Seq<ProbedEntry>)
    requires
        culled_listing(c, f),
    ensures
        listing_verdict(c) == listing_verdict(f),
    decreases f,
{
    if f.len() == 0 {
        assert(c.len() == 0);
    } else {
        let fd = f.subrange(0, f.len() - 1);
        if is_empty_dir_node(f[f.len() - 1]) {
            lemma_culled_listing_verdict(c, fd);
            assert(listing_verdict(Seq::<ProbedEntry>::empty()) == Ok::<bool, Seq<char>>(true));
            assert(entry_verdict(f[f.len() - 1]) == Ok::<bool, Seq<char>>(true)) by {
                if let ProbedEntry::Directory { listing: Ok(v), .. } = f[f.len() - 1] {
                    assert(v@ =~= Seq::<ProbedEntry>::empty());
                }
            }
        } else {
            let cd = c.subrange(0, c.len() - 1);
            lemma_culled_listing_verdict(cd, fd);
            lemma_culled_entry_verdict(c[c.len() - 1], f[f.len() - 1]);
        }
    }
}

/// Culling keeps the verdict of an entry.
pub proof fn lemma_culled_entry_verdict(c: ProbedEntry, f: ProbedEntry)
    requires
        culled_entry(c, f),
    ensures
        entry_verdict(c) == entry_verdict(f),
    decreases f,
{
    if let ProbedEntry::Directory { listing: Ok(fv), .. } = f {
        if let ProbedEntry::Directory { listing: Ok(cv), .. } = c {
            lemma_culled_listing_verdict(cv@, fv@);
        }
    }
}

/// Culling empty folders never changes whether all files of a directory
/// have chapters: the walk with culling, which sees every listing with its
/// empty directories left out, gets the same answer as the walk without.
pub proof fn lemma_cull_keeps_answer(
    culled: Result<Vec<ProbedEntry>, String>,
    full: Result<Vec<ProbedEntry>, String>,
)
    requires
        match full {
            Ok(fv) => culled matches Ok(cv) && culled_listing(cv@, fv@),
            Err(m) => culled matches Err(cm) && cm@ == m@,
        },
    ensures
        directory_verdict(culled) == directory_verdict(full),
{
    if let Ok(fv) = full {
        if let Ok(cv) = culled {
            lemma_culled_listing_verdict(cv@, fv@);
        }
    }
}

/// Whether `has_chapters` reads the chapters of the file at `path`: only
/// files whose extension (as `Path::extension` reads it) is `mkv` are read;
/// any other file has none.
pub fn needs_chapter_read(path: &str) -> (res: bool)
    ensures
        ext_decision(path@, "mkv"@, res),
{
    path_has_extension(path, "mkv")
}

/// The verdict of `has_chapters` on an MKV file from the attempt to read its
/// chapters: a failed read counts as no chapters, a read list counts when it
/// holds at least one chapter.
pub fn chapters_verdict(read: &Result<Chapters, String>) -> (res: bool)
    ensures
        res == (read matches Ok(c) && c@.len() > 0),
{
    match read {
        Ok(c) => !c.is_empty(),
        Err(_) => false,
    }
}

/// Component lists as plain values.
pub open spec fn components_view(v: Seq<String>) -> Seq<Seq<char>> {
    v.map_values(|s: String| s@)
}

/// The directory directly under the base that holds a file: the path's
/// components must begin with the base's, and at least one directory must
/// stand between the base and the file name.
pub open spec fn top_level_spec(path: Seq<Seq<char>>, base: Seq<Seq<char>>) -> Option<Seq<char>> {
    if base.len() + 2 <= path.len() && path.subrange(0, base.len() as int) == base {
        Some(path[base.len() as int])
    } else {
        None
    }
}

/// The top-level directory depends only on there being a directory between
/// the base and the file, not on the base's length: below any base, a path
/// continuing with a directory `d` and at least one more component has `d`;
/// a file right in the base has none; and a path that does not begin with the
/// base has none.
pub proof fn lemma_top_level_below_base(base: Seq<Seq<char>>, d: Seq<char>, rest: Seq<Seq<char>>, path: Seq<Seq<char>>)
    ensures
        rest.len() > 0 ==> top_level_spec(base + seq![d] + rest, base) == Some(d),
        top_level_spec(base.push(d), base) is None,
        !(path.len() >= base.len() && path.subrange(0, base.len() as int) == base) ==> top_level_spec(path, base) is None,
{
    let p = base + seq![d] + rest;
    assert(p.subrange(0, base.len() as int) =~= base);
    assert(p[base.len() as int] == d);
}

/// The top-level directory of a file below a base directory, both given by
/// their path components (`get_top_level_dir`).
pub fn top_level_dir(path: &Vec<String>, base: &Vec<String>) -> (res: Option<String>)
    ensures
        opt_view(res) == top_level_spec(components_view(path@), components_view(base@)),
{
    let ghost pv = components_view(path@);
    let ghost bv = components_view(base@);
    if base.len() >= path.len() || path.len() - base.len() < 2 {
        return None;
    }
    let mut i: usize = 0;
    while i < base.len()
        invariant
            i <= base.len(),
            base.len() + 2 <= path.len(),
            pv == components_view(path@),
            bv == components_view(base@),
            forall|j: int| 0 <= j < i ==> pv[j] == bv[j],
        decreases base.len() - i,
    {
        if !text_eq(path[i].as_str(), base[i].as_str()) {
            proof {
                assert(pv.subrange(0, bv.len() as int)[i as int] != bv[i as int]);
            }
            return None;
        }
        i = i + 1;
    }
    proof {
        assert(pv.subrange(0, bv.len() as int) =~= bv);
    }
    Some(path[base.len()].clone())
}

/// The view of an optional string.
pub open spec fn opt_view(o: Option<String>) -> Option<Seq<char>> {
    match o {
        Some(s) => Some(s@),
        None => None,
    }
}

/// Where `process_mkv_file` places the report of a file: under the file's
/// top-level directory below the base, or nowhere when the file lies directly
/// in the base directory.
pub fn report_subdirectory(path: &Vec<String>, base: &Vec<String>) -> (res: Result<String, MkvError>)
    ensures
        match top_level_spec(components_view(path@), components_view(base@)) {
            Some(d) => res matches Ok(r) && r@ == d,
            None => res matches Err(MkvError::DirectlyInBase),
        },
{
    match top_level_dir(path, base) {
        Some(d) => Ok(d),
        None => Err(MkvError::DirectlyInBase),
    }
}

/// `r` is `b`, then possibly one separator `c`, then `p`.
proof fn lemma_join_positions(b: Seq<char>, p: Seq<char>, r: Seq<char>)
    requires
        joined(b, p, r),
    ensures
        r.len() >= b.len() + p.len(),
        p.len() > 0 ==> r.last() == p.last(),
        forall|i: int| 0 <= i < b.len() ==> #[trigger] r[i] == b[i],
        r.len() == b.len() + p.len() ==> forall|j: int| 0 <= j < p.len() ==> #[trigger] r[b.len() + j] == p[j],
        r.len() == b.len() + p.len() + 1 ==> is_sep(r[b.len() as int]) && forall|j: int|
            0 <= j < p.len() ==> #[trigger] r[b.len() + 1 + j] == p[j],
        r.len() <= b.len() + p.len() + 1,
        b.len() == 0 ==> r == p,
        b.len() > 0 && b.last() == '/' ==> r == b + p,
{
    if b.len() == 0 {
    } else if b.last() == '/' {
    } else if b.last() == '\\' || bare_drive(b) {
        if r == b + p {
        } else {
            assert(r == b.push('/') + p);
        }
    } else {
        let c = choose|c: char| is_sep(c) && r == b.push(c) + p;
    }
}

/// Joining a relative part onto a plain base gives a plain base again; when
/// the base is one or two separators only, the part must not start with `?`.
pub proof fn lemma_join_keeps_plain(b: Seq<char>, p: Seq<char>, r: Seq<char>)
    requires
        plain_base(b),
        plain_relative(p),
        p.len() > 0,
        (1 <= b.len() <= 2 && is_sep(b[0]) && is_sep(b.last())) ==> p[0] != '?',
        joined(b, p, r),
    ensures
        plain_base(r),
        r.len() > 0,
        r.last() == p.last(),
        r.len() >= b.len() + p.len(),
{
    lemma_join_positions(b, p, r);
    if b.len() >= 3 {
        assert(r[0] == b[0] && r[1] == b[1] && r[2] == b[2]);
    } else if b.len() == 0 {
        assert(r[0] == p[0]);
    } else if r.len() == b.len() + p.len() {
        if b.len() == 1 {
            assert(r[1] == p[0]);
        } else {
            assert(r[0] == b[0] && r[1] == b[1]);
            assert(r[2] == p[0]);
        }
    } else {
        if b.len() == 1 {
            assert(r[0] == b[0]);
            assert(r[2] == p[0]);
            if is_sep(b[0]) {
                assert(b.last() == b[0]);
            }
        } else {
            assert(r[0] == b[0] && r[1] == b[1]);
        }
    }
}

/// The extension of report files.
pub open spec fn report_extension() -> Seq<char> {
    "chapters.txt"@
}

/// `r` is where the report of the file `file` goes: its file name, with the
/// extension `chapters.txt`, in the directory `top` under `output_dir`.
pub open spec fn report_path_spec(output_dir: Seq<char>, top: Seq<char>, file: Seq<char>, r: Seq<char>) -> bool {
    exists|dir: Seq<char>|
        joined(output_dir, top, dir) && joined(dir, renamed(after_last_slash(file), report_extension()), r)
}

/// A directory name under the output directory that the joins keep plain.
pub open spec fn plain_top(top: Seq<char>) -> bool {
    &&& plain_relative(top)
    &&& top.len() > 0
    &&& !is_sep(top.last())
    &&& top[0] != '?'
}

proof fn lemma_after_last_slash(p: Seq<char>)
    requires
        simple_path(p),
    ensures
        plain_name(after_last_slash(p)),
        after_last_slash(p).len() > 0,
        after_last_slash(p)[0] != '/' && after_last_slash(p)[0] != '\\',
    decreases p.len(),
{
    let n = after_last_slash(p);
    lemma_after_last_slash_in(p);
    assert(n.len() > 0);
    assert(n.last() == p.last());
    assert(n != seq!['.']) by {
        if n == seq!['.'] {
            assert(n.last() == '.');
        }
    }
    assert(n != seq!['.', '.']) by {
        if n == seq!['.', '.'] {
            assert(n.last() == '.');
        }
    }
}

proof fn lemma_after_last_slash_in(p: Seq<char>)
    ensures
        forall|i: int| 0 <= i < after_last_slash(p).len() ==> {
            &&& #[trigger] after_last_slash(p)[i] != '/'
            &&& p.contains(after_last_slash(p)[i])
        },
        p.len() > 0 && p.last() != '/' ==> after_last_slash(p).len() > 0 && after_last_slash(p).last() == p.last(),
        after_last_slash(p).len() <= p.len(),
    decreases p.len(),
{
    if p.len() > 0 && p.last() != '/' {
        lemma_after_last_slash_in(p.drop_last());
        let q = after_last_slash(p.drop_last());
        assert forall|i: int| 0 <= i < after_last_slash(p).len() implies {
            &&& #[trigger] after_last_slash(p)[i] != '/'
            &&& p.contains(after_last_slash(p)[i])
        } by {
            if i < q.len() {
                assert(after_last_slash(p)[i] == q[i]);
                let k = choose|k: int| 0 <= k < p.drop_last().len() && p.drop_last()[k] == q[i];
                assert(p[k] == q[i]);
            } else {
                assert(p[p.len() - 1] == after_last_slash(p)[i]);
            }
        }
    }
}

/// Where `process_mkv_file` writes the report of `file`: the file's name with
/// the extension `chapters.txt`, in the directory `top` under `output_dir`;
/// `None` when the path has no file name.
pub fn report_path(output_dir: &str, top: &str, file: &str) -> (res: Option<String>)
    ensures
        simple_path(file@) ==> res is Some,
        res matches Some(r) ==> (simple_path(file@) && plain_base(output_dir@) && plain_top(top@)
            ==> report_path_spec(output_dir@, top@, file@, r@)),
{
    let name = match path_file_name(file) {
        Some(n) => n,
        None => return None,
    };
    proof {
        reveal_strlit("chapters.txt");
        lemma_lacks(report_extension(), '/');
        lemma_lacks(report_extension(), '\\');
        lemma_lacks(report_extension(), ':');
    }
    let file_name = name_with_extension(name.as_str(), "chapters.txt");
    let dir = path_join(output_dir, top);
    let res = path_join(dir.as_str(), file_name.as_str());
    proof {
        if simple_path(file@) && plain_base(output_dir@) && plain_top(top@) {
            let n = after_last_slash(file@);
            lemma_after_last_slash(file@);
            lemma_after_last_slash_in(file@);
            assert(name@ == n);
            assert(file_name@ == renamed(n, report_extension()));
            lemma_join_keeps_plain(output_dir@, top@, dir@);
            let f = file_name@;
            let e = report_extension();
            assert forall|i: int| 0 <= i < n.len() implies n[i] != ':' by {
                assert(file@.contains(n[i]));
            }
            lemma_lacks(n, ':');
            lemma_renamed_shape(n, e);
            assert(plain_relative(f));
            assert(joined(dir@, f, res@));
            assert(report_path_spec(output_dir@, top@, file@, res@));
        }
    }
    Some(res)
}

proof fn lemma_through_last_dot(n: Seq<char>)
    ensures
        through_last_dot(n) matches Some(s) ==> s.len() > 0 && s.len() <= n.len() && s == n.subrange(0, s.len() as int),
    decreases n.len(),
{
    if n.len() > 0 && n.last() != '.' {
        lemma_through_last_dot(n.drop_last());
        if let Some(s) = through_last_dot(n.drop_last()) {
            assert(n.drop_last().subrange(0, s.len() as int) =~= n.subrange(0, s.len() as int));
        }
    }
    if n.len() > 0 && n.last() == '.' {
        assert(n.subrange(0, n.len() as int) =~= n);
    }
}

proof fn lemma_renamed_shape(n: Seq<char>, e: Seq<char>)
    requires
        n.len() > 0,
        !n.contains(':'),
        !e.contains(':'),
        !is_sep(n[0]),
    ensures
        plain_relative(renamed(n, e)),
        renamed(n, e).len() > 0,
        e.len() > 0 ==> renamed(n, e).last() == e.last(),
{
    lemma_through_last_dot(n);
    let r = renamed(n, e);
    let dot = seq!['.'];
    let head = match through_last_dot(n) {
        Some(s) => if s.len() > 1 { s } else { n + dot },
        None => n + dot,
    };
    assert(!dot.contains(':')) by {
        lemma_lacks(dot, ':');
    }
    if let Some(s) = through_last_dot(n) {
        if s.len() > 1 {
            assert forall|i: int| 0 <= i < s.len() implies s[i] != ':' by {
                assert(s[i] == n[i]);
            }
            lemma_lacks(s, ':');
        } else {
            lemma_concat_lacks(n, dot, ':');
        }
    } else {
        lemma_concat_lacks(n, dot, ':');
    }
    assert(r == head + e);
    assert(head[0] == n[0]);
    lemma_concat_lacks(head, e, ':');
    assert(r[0] == head[0]);
}

/// What `collect_series_with_chapters` does with one entry of the scan.
pub enum SeriesAction {
    /// Process the file and write its metadata.
    Process,
    /// Report that a directory was met where none is expected.
    ReportDirectory,
    /// Neither file nor directory: not handled.
    Unsupported,
}

/// Files are processed, directories reported, other objects are not handled.
pub fn series_item_action(entry: &EntryKind) -> (res: SeriesAction)
    ensures
        entry@ is File <==> res is Process,
        entry@ is Directory <==> res is ReportDirectory,
        entry@ is Other <==> res is Unsupported,
{
    match entry {
        EntryKind::File(_) => SeriesAction::Process,
        EntryKind::Directory(_) => SeriesAction::ReportDirectory,
        EntryKind::Other(_) => SeriesAction::Unsupported,
    }
}

/// The line `path_exists` prints about `path`.
pub open spec fn path_exists_line(path: Seq<char>, exists: bool) -> Seq<char> {
    if exists {
        "✅ Path exists: "@ + path
    } else {
        "❌ Path does NOT exist: "@ + path
    }
}

/// The line `path_exists` prints, given whether the path exists.
pub fn path_exists_message(path: &str, exists: bool) -> (res: String)
    ensures
        res@ == path_exists_line(path@, exists),
{
    let mut out = if exists {
        String::from_str("✅ Path exists: ")
    } else {
        String::from_str("❌ Path does NOT exist: ")
    };
    out.append(path);
    out
}

/// The directory of the label files under the output directory.
pub open spec fn labels_dir_spec(output_path: Seq<char>) -> Seq<char> {
    output_path + "\\zaoai_labels"@
}

/// The directory of the label files: `\zaoai_labels` appended to the output path.
pub fn zaoai_labels_dir(output_path: &str) -> (res: String)
    ensures
        res@ == labels_dir_spec(output_path@),
{
    let mut out = String::from_str(output_path);
    out.append("\\zaoai_labels");
    out
}

} // verus!
