//! Directory entries by kind, and which entries a directory listing keeps.
use vstd::prelude::*;
use vstd::multiset::Multiset;

verus! {

/// A directory entry by its kind, with its path.
pub enum EntryKind {
    File(String),
    Directory(String),
    /// A symlink, a device or anything else.
    Other(String),
}

/// An entry kind as plain values.
pub enum EntryView {
    File(Seq<char>),
    Directory(Seq<char>),
    Other(Seq<char>),
}

impl View for EntryKind {
    type V = EntryView;

    open spec fn view(&self) -> EntryView {
        match self {
            EntryKind::File(p) => EntryView::File(p@),
            EntryKind::Directory(p) => EntryView::Directory(p@),
            EntryKind::Other(p) => EntryView::Other(p@),
        }
    }
}

/// The path of an entry of any kind.
pub open spec fn entry_path(e: EntryView) -> Seq<char> {
    match e {
        EntryView::File(p) => p,
        EntryView::Directory(p) => p,
        EntryView::Other(p) => p,
    }
}

/// A vector of entries as plain values.
pub open spec fn entries_view(v: Seq<EntryKind>) -> Seq<EntryView> {
    v.map_values(|e: EntryKind| e@)
}

impl EntryKind {
    /// The path of this entry.
    pub fn path(&self) -> (res: &str)
        ensures
            res@ == entry_path(self@),
    {
        match self {
            EntryKind::File(p) => p.as_str(),
            EntryKind::Directory(p) => p.as_str(),
            EntryKind::Other(p) => p.as_str(),
        }
    }

    /// A copy of this entry.
    pub fn duplicate(&self) -> (res: EntryKind)
        ensures
            res@ == self@,
    {
        match self {
            EntryKind::File(p) => EntryKind::File(p.clone()),
            EntryKind::Directory(p) => EntryKind::Directory(p.clone()),
            EntryKind::Other(p) => EntryKind::Other(p.clone()),
        }
    }
}

/// The type of a file system object, as a directory listing reports it.
pub enum FileType {
    File,
    Directory,
    Other,
}

/// One entry of a directory listing: its path, its type, and, for a
/// directory that was looked into, whether it turned out empty.
pub struct RawDirEntry {
    pub path: String,
    pub file_type: FileType,
    pub is_empty_dir: bool,
}

/// What a listing makes of one raw entry: files and other objects are kept
/// by kind; a directory is kept unless empty directories are culled and it
/// is empty.
pub open spec fn classify(e: RawDirEntry, cull_empty_folders: bool) -> Option<EntryView> {
    match e.file_type {
        FileType::File => Some(EntryView::File(e.path@)),
        FileType::Directory => if cull_empty_folders && e.is_empty_dir {
            None
        } else {
            Some(EntryView::Directory(e.path@))
        },
        FileType::Other => Some(EntryView::Other(e.path@)),
    }
}

/// The entries a listing keeps, in the order of the raw listing.
pub open spec fn classified(s: Seq<RawDirEntry>, cull_empty_folders: bool) -> Seq<EntryView>
    decreases s.len(),
{
    if s.len() == 0 {
        Seq::empty()
    } else {
        let rest = classified(s.drop_last(), cull_empty_folders);
        match classify(s.last(), cull_empty_folders) {
            Some(k) => rest.push(k),
            None => rest,
        }
    }
}

/// The kinds of the entries of a directory (`list_dir_with_kind` once the
/// directory has been read): each raw entry in order becomes a file, a
/// directory or another object, and with `cull_empty_folders` the empty
/// directories are left out.
pub fn classify_dir_entries(entries: &Vec<RawDirEntry>, cull_empty_folders: bool) -> (res: Vec<EntryKind>)
    ensures
        entries_view(res@) == classified(entries@, cull_empty_folders),
{
    let mut out: Vec<EntryKind> = Vec::new();
    let mut i: usize = 0;
    while i < entries.len()
        invariant
            i <= entries.len(),
            entries_view(out@) == classified(entries@.take(i as int), cull_empty_folders),
        decreases entries.len() - i,
    {
        let e = &entries[i];
        proof {
            assert(entries@.take(i + 1).drop_last() =~= entries@.take(i as int));
            assert(entries@.take(i + 1).last() == entries@[i as int]);
        }
        match e.file_type {
            FileType::File => {
                out.push(EntryKind::File(e.path.clone()));
            },
            FileType::Directory => {
                if !(cull_empty_folders && e.is_empty_dir) {
                    out.push(EntryKind::Directory(e.path.clone()));
                }
            },
            FileType::Other => {
                out.push(EntryKind::Other(e.path.clone()));
            },
        }
        proof {
            assert(entries_view(out@) =~= classified(entries@.take(i + 1), cull_empty_folders));
        }
        i = i + 1;
    }
    proof {
        assert(entries@.take(entries@.len() as int) =~= entries@);
    }
    out
}

/// Without culling, a listing keeps every entry, in order and with its path.
pub proof fn lemma_listing_keeps_all_without_cull(s: Seq<RawDirEntry>)
    ensures
        classified(s, false).len() == s.len(),
        forall|i: int| 0 <= i < s.len() ==> #[trigger] classified(s, false)[i] == classify(s[i], false)->0,
    decreases s.len(),
{
    if s.len() > 0 {
        lemma_listing_keeps_all_without_cull(s.drop_last());
        assert forall|i: int| 0 <= i < s.len() implies #[trigger] classified(s, false)[i] == classify(s[i], false)->0 by {
            if i < s.len() - 1 {
                assert(s.drop_last()[i] == s[i]);
            }
        }
    }
}

/// Culling empty directories only ever leaves entries out: the culled
/// listing is never longer than the full one, and the two agree wherever no
/// empty directory is listed.
pub proof fn lemma_cull_only_removes(s: Seq<RawDirEntry>)
    ensures
        classified(s, true).len() <= classified(s, false).len(),
        (forall|i: int| 0 <= i < s.len() ==> !(#[trigger] s[i].file_type is Directory && s[i].is_empty_dir))
            ==> classified(s, true) == classified(s, false),
    decreases s.len(),
{
    if s.len() > 0 {
        lemma_cull_only_removes(s.drop_last());
        if forall|i: int| 0 <= i < s.len() ==> !(#[trigger] s[i].file_type is Directory && s[i].is_empty_dir) {
            assert forall|i: int| 0 <= i < s.drop_last().len() implies !(#[trigger] s.drop_last()[i].file_type is Directory
                && s.drop_last()[i].is_empty_dir) by {
                assert(s.drop_last()[i] == s[i]);
            }
            assert(!(s[s.len() - 1].file_type is Directory && s[s.len() - 1].is_empty_dir));
        }
    }
}

/// Whether a raw entry is a directory found empty.
pub open spec fn is_empty_directory(e: RawDirEntry) -> bool {
    e.file_type is Directory && e.is_empty_dir
}

/// The culled listing is exactly the full listing of the raw entries that
/// are not empty directories: culling leaves out the empty directories and
/// nothing else, keeping the order of the rest.
pub proof fn lemma_cull_removes_exactly_empty_directories(s: Seq<RawDirEntry>)
    ensures
        classified(s, true) == classified(s.filter(|e: RawDirEntry| !is_empty_directory(e)), false),
    decreases s.len(),
{
    reveal_with_fuel(Seq::<RawDirEntry>::filter, 1);
    let pred = |e: RawDirEntry| !is_empty_directory(e);
    if s.len() > 0 {
        lemma_cull_removes_exactly_empty_directories(s.drop_last());
        let f0 = s.drop_last().filter(pred);
        if pred(s.last()) {
            assert(s.filter(pred) == f0.push(s.last()));
            assert(f0.push(s.last()).drop_last() =~= f0);
        } else {
            assert(s.filter(pred) == f0);
        }
    }
}

/// The entries a listing keeps of one raw entry, as a multiset.
pub open spec fn classify_ms(e: RawDirEntry, cull_empty_folders: bool) -> Multiset<EntryView> {
    match classify(e, cull_empty_folders) {
        Some(k) => Multiset::singleton(k),
        None => Multiset::empty(),
    }
}

proof fn lemma_classified_remove(s: Seq<RawDirEntry>, i: int, c: bool)
    requires
        0 <= i < s.len(),
    ensures
        classified(s, c).to_multiset() =~= classified(s.remove(i), c).to_multiset().add(classify_ms(s[i], c)),
    decreases s.len(),
{
    broadcast use vstd::seq_lib::group_to_multiset_ensures;
    if i == s.len() - 1 {
        assert(s.remove(i) =~= s.drop_last());
    } else {
        lemma_classified_remove(s.drop_last(), i, c);
        assert(s.remove(i).drop_last() =~= s.drop_last().remove(i));
        assert(s.remove(i).last() == s.last());
        assert(s.drop_last()[i] == s[i]);
    }
}

proof fn lemma_classified_permutation(s1: Seq<RawDirEntry>, s2: Seq<RawDirEntry>, c: bool)
    requires
        s1.to_multiset() == s2.to_multiset(),
    ensures
        classified(s1, c).to_multiset() == classified(s2, c).to_multiset(),
    decreases s1.len(),
{
    broadcast use vstd::seq_lib::group_to_multiset_ensures;
    assert(s1.len() == s1.to_multiset().len());
    assert(s2.len() == s2.to_multiset().len());
    if s1.len() == 0 {
        assert(s2.len() == 0);
        assert(s1 =~= s2);
    } else {
        let x = s1.last();
        assert(s1.contains(x)) by {
            assert(s1[s1.len() - 1] == x);
        }
        assert(s1.to_multiset().count(x) > 0);
        assert(s2.to_multiset().count(x) > 0);
        assert(s2.contains(x));
        let j = choose|j: int| 0 <= j < s2.len() && s2[j] == x;
        assert(s1.remove(s1.len() - 1) =~= s1.drop_last());
        assert(s1.drop_last().to_multiset() == s2.remove(j).to_multiset());
        lemma_classified_permutation(s1.drop_last(), s2.remove(j), c);
        lemma_classified_remove(s1, s1.len() - 1, c);
        lemma_classified_remove(s2, j, c);
    }
}

/// Two reads of an unchanged directory, one with culling and one without,
/// agree up to order: with `first` the raw listing of the directory (each
/// directory marked by whether it is empty) and `second` the same entries in
/// any order, the culled listing of `second` holds, as a multiset, exactly
/// the full listing of the entries of `first` that are not empty
/// directories.
pub proof fn lemma_cull_across_reads(first: Seq<RawDirEntry>, second: Seq<RawDirEntry>)
    requires
        first.to_multiset() == second.to_multiset(),
    ensures
        classified(second, true).to_multiset()
            == classified(first.filter(|e: RawDirEntry| !is_empty_directory(e)), false).to_multiset(),
{
    lemma_classified_permutation(second, first, true);
    lemma_cull_removes_exactly_empty_directories(first);
}

/// Whether a listing keeps a raw entry: everything but, when culling, a
/// directory found empty.
pub open spec fn kept(e: RawDirEntry, cull_empty_folders: bool) -> bool {
    !(cull_empty_folders && e.file_type is Directory && e.is_empty_dir)
}

/// The kind a raw entry is listed with: the type it was read with, and its path.
pub open spec fn kind_of(e: RawDirEntry) -> EntryView {
    match e.file_type {
        FileType::File => EntryView::File(e.path@),
        FileType::Directory => EntryView::Directory(e.path@),
        FileType::Other => EntryView::Other(e.path@),
    }
}

/// How many of the first `i` raw entries a listing keeps.
pub open spec fn kept_before(s: Seq<RawDirEntry>, cull_empty_folders: bool, i: int) -> nat
    decreases i,
{
    if i <= 0 {
        0
    } else {
        kept_before(s, cull_empty_folders, i - 1) + if kept(s[i - 1], cull_empty_folders) { 1nat } else { 0nat }
    }
}

proof fn lemma_kept_before_prefix(s: Seq<RawDirEntry>, c: bool, m: int, i: int)
    requires
        0 <= i <= m <= s.len(),
    ensures
        kept_before(s.take(m), c, i) == kept_before(s, c, i),
    decreases i,
{
    if i > 0 {
        lemma_kept_before_prefix(s, c, m, i - 1);
        assert(s.take(m)[i - 1] == s[i - 1]);
    }
}

/// A listing lists every kept raw entry with the kind it was read with and
/// its path, in order: the kept entry `i` stands at the position given by the
/// number of kept entries before it, and nothing else is listed.
pub proof fn lemma_listing_kinds(s: Seq<RawDirEntry>, c: bool)
    ensures
        classified(s, c).len() == kept_before(s, c, s.len() as int),
        forall|i: int| 0 <= i < s.len() && kept(s[i], c)
            ==> #[trigger] classified(s, c)[kept_before(s, c, i) as int] == kind_of(s[i]),
    decreases s.len(),
{
    if s.len() > 0 {
        let n = s.len() - 1;
        let t = s.drop_last();
        lemma_listing_kinds(t, c);
        assert(t =~= s.take(n));
        assert forall|i: int| 0 <= i <= n implies kept_before(t, c, i) == kept_before(s, c, i) by {
            lemma_kept_before_prefix(s, c, n, i);
        }
        assert forall|i: int| 0 <= i < s.len() && kept(s[i], c)
            implies #[trigger] classified(s, c)[kept_before(s, c, i) as int] == kind_of(s[i]) by {
            if i < n {
                assert(t[i] == s[i]);
                assert(kept_before(t, c, i) == kept_before(s, c, i));
                assert(classified(t, c)[kept_before(t, c, i) as int] == kind_of(t[i]));
                assert(kept_before(s, c, i) < kept_before(s, c, n)) by {
                    lemma_kept_before_monotone(s, c, i + 1, n);
                }
            }
        }
    }
}

proof fn lemma_kept_before_monotone(s: Seq<RawDirEntry>, c: bool, i: int, j: int)
    requires
        0 <= i <= j <= s.len(),
    ensures
        kept_before(s, c, i) <= kept_before(s, c, j),
    decreases j - i,
{
    if i < j {
        lemma_kept_before_monotone(s, c, i, j - 1);
    }
}

} // verus!
