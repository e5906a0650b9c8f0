//! The walk of `all_files_have_chapters` as steps: the library decides which
//! directory to list or which file to probe next, and stops at the first
//! file without chapters or the first failure; the caller does the listing
//! and the probing.
use vstd::prelude::*;
use vstd::string::*;
use crate::entries::{EntryKind, EntryView, entry_path};
use crate::media::{
    ProbedEntry, entry_verdict, listing_verdict, directory_verdict, ext_decision, path_has_extension,
    has_extension, ext_view,
};

verus! {

/// An entry still to be looked at: a file to probe or a directory to list.
pub enum ScanItem {
    File(String),
    Directory(String),
}

/// A pending entry as plain values.
pub enum ItemView {
    File(Seq<char>),
    Directory(Seq<char>),
}

impl View for ScanItem {
    type V = ItemView;

    open spec fn view(&self) -> ItemView {
        match self {
            ScanItem::File(p) => ItemView::File(p@),
            ScanItem::Directory(p) => ItemView::Directory(p@),
        }
    }
}

/// What the caller is to do next.
pub enum ScanAction {
    /// List this directory and report the listing with `on_listing`.
    ListDirectory(String),
    /// Probe this file for chapters and report it with `on_probe`.
    ProbeFile(String),
    /// The walk is over: whether all files have chapters, or why it failed.
    Finished(Result<bool, String>),
}

/// An action as plain values.
pub enum ActionView {
    List(Seq<char>),
    Probe(Seq<char>),
    Finished(Result<bool, Seq<char>>),
}

impl View for ScanAction {
    type V = ActionView;

    open spec fn view(&self) -> ActionView {
        match self {
            ScanAction::ListDirectory(p) => ActionView::List(p@),
            ScanAction::ProbeFile(p) => ActionView::Probe(p@),
            ScanAction::Finished(Ok(b)) => ActionView::Finished(Ok(*b)),
            ScanAction::Finished(Err(m)) => ActionView::Finished(Err(m@)),
        }
    }
}

/// The state of a walk: the entries still to look at, the next one last.
pub struct ChapterScan {
    pending: Vec<ScanItem>,
}

impl View for ChapterScan {
    type V = Seq<ItemView>;

    closed spec fn view(&self) -> Seq<ItemView> {
        self.pending@.map_values(|i: ScanItem| i@)
    }
}

/// The next action from the pending entries: list or probe the last one, or
/// finish with "all have chapters" when none is left.
pub open spec fn next_step(stack: Seq<ItemView>) -> (Seq<ItemView>, ActionView) {
    if stack.len() == 0 {
        (stack, ActionView::Finished(Ok(true)))
    } else {
        match stack.last() {
            ItemView::File(p) => (stack.drop_last(), ActionView::Probe(p)),
            ItemView::Directory(p) => (stack.drop_last(), ActionView::List(p)),
        }
    }
}

/// The step after a probe: a file with chapters lets the walk go on; a file
/// without chapters, or a failed probe, ends it.
pub open spec fn probe_step(stack: Seq<ItemView>, probe: Result<bool, Seq<char>>) -> (Seq<ItemView>, ActionView) {
    match probe {
        Ok(true) => next_step(stack),
        Ok(false) => (stack, ActionView::Finished(Ok(false))),
        Err(m) => (stack, ActionView::Finished(Err(m))),
    }
}

/// The pending entries a listing adds, in stack order (its first entry
/// ends up last, to be looked at first): files whose `txt` flag is unset and
/// directories; `.txt` files and other objects are passed over.
pub open spec fn pushed(entries: Seq<EntryView>, txt: Seq<bool>) -> Seq<ItemView>
    decreases entries.len(),
{
    if entries.len() == 0 {
        Seq::empty()
    } else {
        let rest = pushed(entries.drop_first(), txt.drop_first());
        match entries[0] {
            EntryView::File(p) => if txt[0] {
                rest
            } else {
                rest.push(ItemView::File(p))
            },
            EntryView::Directory(p) => rest.push(ItemView::Directory(p)),
            EntryView::Other(_) => rest,
        }
    }
}

/// The step after a listing: a failed listing ends the walk; otherwise its
/// entries are added, to be looked at before what was pending, and the walk
/// goes on.
pub open spec fn listing_step(
    stack: Seq<ItemView>,
    listing: Result<Seq<EntryView>, Seq<char>>,
    txt: Seq<bool>,
) -> (Seq<ItemView>, ActionView) {
    match listing {
        Ok(es) => next_step(stack + pushed(es, txt)),
        Err(m) => (stack, ActionView::Finished(Err(m))),
    }
}

/// `txt[i]` says whether entry `i` is a file whose extension is `txt`, as far
/// as `Path::extension` fixes it.
pub open spec fn txt_flags(entries: Seq<EntryView>, txt: Seq<bool>) -> bool {
    &&& txt.len() == entries.len()
    &&& forall|i: int| 0 <= i < entries.len() ==> (#[trigger] entries[i] matches EntryView::File(p) ==> ext_decision(p, "txt"@, txt[i]))
}

/// A listing result as plain values.
pub open spec fn listing_view(l: Result<Vec<EntryKind>, String>) -> Result<Seq<EntryView>, Seq<char>> {
    match l {
        Ok(v) => Ok(v@.map_values(|e: EntryKind| e@)),
        Err(m) => Err(m@),
    }
}

/// A probe result as plain values.
pub open spec fn probe_view(r: Result<bool, String>) -> Result<bool, Seq<char>> {
    match r {
        Ok(b) => Ok(b),
        Err(m) => Err(m@),
    }
}

impl ChapterScan {
    /// Starts the walk of the directory `dir_path`: the first action lists it.
    pub fn new(dir_path: &str) -> (res: (ChapterScan, ScanAction))
        ensures
            res.0@ == Seq::<ItemView>::empty(),
            res.1@ == ActionView::List(dir_path@),
    {
        let scan = ChapterScan { pending: Vec::new() };
        proof {
            assert(scan@ =~= Seq::<ItemView>::empty());
        }
        (scan, ScanAction::ListDirectory(String::from_str(dir_path)))
    }

    fn next_action(&mut self) -> (act: ScanAction)
        ensures
            (final(self)@, act@) == next_step(old(self)@),
    {
        match self.pending.pop() {
            Some(ScanItem::File(p)) => {
                proof {
                    assert(self@ =~= old(self)@.drop_last());
                }
                ScanAction::ProbeFile(p)
            },
            Some(ScanItem::Directory(p)) => {
                proof {
                    assert(self@ =~= old(self)@.drop_last());
                }
                ScanAction::ListDirectory(p)
            },
            None => ScanAction::Finished(Ok(true)),
        }
    }

    /// Takes the outcome of probing the file of the last action: the walk
    /// goes on after a file with chapters, and ends at a file without
    /// chapters or a failed probe.
    pub fn on_probe(&mut self, probe: Result<bool, String>) -> (act: ScanAction)
        ensures
            (final(self)@, act@) == probe_step(old(self)@, probe_view(probe)),
    {
        match probe {
            Ok(true) => self.next_action(),
            Ok(false) => ScanAction::Finished(Ok(false)),
            Err(m) => ScanAction::Finished(Err(m)),
        }
    }

    /// Takes the listing of the directory of the last action: a failed
    /// listing ends the walk; otherwise its files (but `.txt` files) and
    /// directories are looked at next, in listing order.
    pub fn on_listing(&mut self, listing: Result<Vec<EntryKind>, String>) -> (act: ScanAction)
        ensures
            exists|txt: Seq<bool>|
                #![trigger listing_step(old(self)@, listing_view(listing), txt)]
                (listing matches Ok(v) ==> txt_flags(v@.map_values(|e: EntryKind| e@), txt))
                && (final(self)@, act@) == listing_step(old(self)@, listing_view(listing), txt),
    {
        match listing {
            Err(m) => {
                let act = ScanAction::Finished(Err(m));
                proof {
                    let txt = Seq::<bool>::empty();
                    assert((self@, act@) == listing_step(old(self)@, listing_view(listing), txt));
                }
                act
            },
            Ok(v) => {
                let ghost es = v@.map_values(|e: EntryKind| e@);
                let ghost mut txt: Seq<bool> = Seq::new(v@.len(), |_i: int| false);
                let mut i: usize = v.len();
                proof {
                    assert(es.subrange(i as int, es.len() as int) =~= Seq::<EntryView>::empty());
                    assert(self@ =~= old(self)@ + pushed(
                        es.subrange(i as int, es.len() as int),
                        txt.subrange(i as int, es.len() as int),
                    ));
                }
                while i > 0
                    invariant
                        i <= v.len(),
                        es == v@.map_values(|e: EntryKind| e@),
                        txt.len() == es.len(),
                        forall|j: int| i <= j < es.len() ==> (#[trigger] es[j] matches EntryView::File(p) ==> ext_decision(p, "txt"@, txt[j])),
                        self@ == old(self)@ + pushed(
                            es.subrange(i as int, es.len() as int),
                            txt.subrange(i as int, es.len() as int),
                        ),
                    decreases i,
                {
                    i = i - 1;
                    let ghost before = self@;
                    let ghost old_txt = txt;
                    let e = &v[i];
                    match e {
                        EntryKind::File(p) => {
                            let is_txt = path_has_extension(p.as_str(), "txt");
                            proof {
                                txt = txt.update(i as int, is_txt);
                            }
                            if !is_txt {
                                self.pending.push(ScanItem::File(p.clone()));
                                proof {
                                    assert(self@ =~= before.push(ItemView::File(p@)));
                                }
                            }
                        },
                        EntryKind::Directory(p) => {
                            self.pending.push(ScanItem::Directory(p.clone()));
                            proof {
                                assert(self@ =~= before.push(ItemView::Directory(p@)));
                            }
                        },
                        EntryKind::Other(_) => {},
                    }
                    proof {
                        let n = es.len() as int;
                        assert(txt.subrange(i + 1, n) =~= old_txt.subrange(i + 1, n));
                        let es_i = es.subrange(i as int, n);
                        let tx_i = txt.subrange(i as int, n);
                        assert(es_i.drop_first() =~= es.subrange(i + 1, n));
                        assert(tx_i.drop_first() =~= txt.subrange(i + 1, n));
                        assert(es_i[0] == es[i as int]);
                        assert(tx_i[0] == txt[i as int]);
                        assert(es[i as int] == v@[i as int]@);
                        assert(pushed(es_i.drop_first(), tx_i.drop_first()) == pushed(
                            es.subrange(i + 1, n),
                            old_txt.subrange(i + 1, n),
                        ));
                        assert(self@ =~= old(self)@ + pushed(es_i, tx_i));
                        assert forall|j: int| i <= j < es.len() implies (#[trigger] es[j] matches EntryView::File(p) ==> ext_decision(p, "txt"@, txt[j])) by {
                            if j > i {
                                assert(txt[j] == old_txt[j]);
                            }
                        }
                    }
                }
                proof {
                    assert(es.subrange(0, es.len() as int) =~= es);
                    assert(txt.subrange(0, es.len() as int) =~= txt);
                }
                let act = self.next_action();
                proof {
                    assert(txt_flags(es, txt));
                    assert((self@, act@) == listing_step(old(self)@, listing_view(listing), txt));
                }
                act
            },
        }
    }
}

// ---------------------------------------------------------------------------
// The walk computes the verdict of the tree it walks.

/// The entry of a scan that a probed tree node stands for.
pub open spec fn entry_of(n: ProbedEntry) -> EntryView {
    match n {
        ProbedEntry::File { path, .. } => EntryView::File(path@),
        ProbedEntry::Directory { path, .. } => EntryView::Directory(path@),
        ProbedEntry::Other { path } => EntryView::Other(path@),
    }
}

/// Whether a probed tree node is a file with extension `txt`.
pub open spec fn txt_of(n: ProbedEntry) -> bool {
    match n {
        ProbedEntry::File { extension, .. } => has_extension(ext_view(extension), "txt"@),
        _ => false,
    }
}

/// A node the walk looks at: a file that is not a `.txt` file, or a directory.
pub open spec fn walked(n: ProbedEntry) -> bool {
    match n {
        ProbedEntry::File { .. } => !txt_of(n),
        ProbedEntry::Directory { .. } => true,
        ProbedEntry::Other { .. } => false,
    }
}

/// The pending entry that a walked node stands for.
pub open spec fn item_of(n: ProbedEntry) -> ItemView {
    match n {
        ProbedEntry::File { path, .. } => ItemView::File(path@),
        ProbedEntry::Directory { path, .. } => ItemView::Directory(path@),
        ProbedEntry::Other { path } => ItemView::File(path@),
    }
}

/// The pending entries that stand for a forest of walked nodes (stack order).
pub open spec fn items_of(f: Seq<ProbedEntry>) -> Seq<ItemView> {
    f.map_values(|n: ProbedEntry| item_of(n))
}

/// The walked nodes of a listing, in stack order.
pub open spec fn pushed_nodes(children: Seq<ProbedEntry>) -> Seq<ProbedEntry>
    decreases children.len(),
{
    if children.len() == 0 {
        Seq::empty()
    } else {
        let rest = pushed_nodes(children.drop_first());
        if walked(children[0]) {
            rest.push(children[0])
        } else {
            rest
        }
    }
}

/// The verdict of a forest in stack order: the last node is looked at first,
/// and the first node that lacks chapters, or fails, decides.
pub open spec fn stack_verdict(f: Seq<ProbedEntry>) -> Result<bool, Seq<char>>
    decreases f.len(),
{
    if f.len() == 0 {
        Ok(true)
    } else {
        match entry_verdict(f.last()) {
            Ok(true) => stack_verdict(f.drop_last()),
            other => other,
        }
    }
}

proof fn lemma_stack_verdict_concat(a: Seq<ProbedEntry>, b: Seq<ProbedEntry>)
    ensures
        stack_verdict(a + b) == (match stack_verdict(b) {
            Ok(true) => stack_verdict(a),
            other => other,
        }),
    decreases b.len(),
{
    if b.len() == 0 {
        assert(a + b =~= a);
    } else {
        assert((a + b).drop_last() =~= a + b.drop_last());
        assert((a + b).last() == b.last());
        lemma_stack_verdict_concat(a, b.drop_last());
    }
}

proof fn lemma_listing_verdict_front(s: Seq<ProbedEntry>)
    requires
        s.len() > 0,
    ensures
        listing_verdict(s) == (match entry_verdict(s[0]) {
            Ok(true) => listing_verdict(s.drop_first()),
            other => other,
        }),
    decreases s.len(),
{
    if s.len() == 1 {
        assert(s.subrange(0, 0) =~= Seq::<ProbedEntry>::empty());
        assert(s.drop_first() =~= Seq::<ProbedEntry>::empty());
    } else {
        let p = s.subrange(0, s.len() - 1);
        lemma_listing_verdict_front(p);
        assert(p[0] == s[0]);
        assert(p.drop_first() =~= s.drop_first().subrange(0, s.drop_first().len() - 1));
        assert(s.drop_first()[s.drop_first().len() - 1] == s[s.len() - 1]);
    }
}

proof fn lemma_pushed_nodes_verdict(c: Seq<ProbedEntry>)
    ensures
        stack_verdict(pushed_nodes(c)) == listing_verdict(c),
        forall|i: int| 0 <= i < pushed_nodes(c).len() ==> walked(#[trigger] pushed_nodes(c)[i]),
    decreases c.len(),
{
    if c.len() > 0 {
        lemma_pushed_nodes_verdict(c.drop_first());
        lemma_listing_verdict_front(c);
        let rest = pushed_nodes(c.drop_first());
        if walked(c[0]) {
            assert(rest.push(c[0]).drop_last() =~= rest);
            assert forall|i: int| 0 <= i < pushed_nodes(c).len() implies walked(#[trigger] pushed_nodes(c)[i]) by {
                if i < rest.len() {
                    assert(pushed_nodes(c)[i] == rest[i]);
                }
            }
        } else {
            assert(entry_verdict(c[0]) == Ok::<bool, Seq<char>>(true));
        }
    }
}

proof fn lemma_pushed_matches(c: Seq<ProbedEntry>)
    ensures
        pushed(c.map_values(|n: ProbedEntry| entry_of(n)), c.map_values(|n: ProbedEntry| txt_of(n)))
            == items_of(pushed_nodes(c)),
    decreases c.len(),
{
    let es = c.map_values(|n: ProbedEntry| entry_of(n));
    let tx = c.map_values(|n: ProbedEntry| txt_of(n));
    if c.len() == 0 {
        assert(pushed(es, tx) =~= items_of(pushed_nodes(c)));
    } else {
        lemma_pushed_matches(c.drop_first());
        assert(es.drop_first() =~= c.drop_first().map_values(|n: ProbedEntry| entry_of(n)));
        assert(tx.drop_first() =~= c.drop_first().map_values(|n: ProbedEntry| txt_of(n)));
        assert(es[0] == entry_of(c[0]));
        assert(tx[0] == txt_of(c[0]));
        let rest = pushed_nodes(c.drop_first());
        if walked(c[0]) {
            assert(items_of(rest.push(c[0])) =~= items_of(rest).push(item_of(c[0])));
        }
    }
}

/// Each step of the walk keeps its verdict. Let the pending entries stand for
/// the walked forest `f`, apart from its last node `n`, which the last
/// action named. Answering that action with what the tree holds for `n`
/// (its probe, or its listing and the `.txt` flags of its entries) either
/// ends the walk with the verdict of the whole forest, or leaves a state
/// whose pending entries stand for a walked forest with that same verdict,
/// with the next action taken from it. At the start, the forest is the
/// single directory walked, whose verdict is `all_files_have_chapters`'s.
pub proof fn lemma_step_keeps_verdict(f: Seq<ProbedEntry>)
    requires
        f.len() > 0,
        forall|i: int| 0 <= i < f.len() ==> walked(#[trigger] f[i]),
    ensures
        f.last() matches ProbedEntry::File { has_chapters, .. } ==> {
            let (s, a) = probe_step(items_of(f.drop_last()), probe_view(has_chapters));
            ||| a == ActionView::Finished(stack_verdict(f))
            ||| (s, a) == next_step(items_of(f.drop_last())) && stack_verdict(f.drop_last()) == stack_verdict(f)
        },
        f.last() matches ProbedEntry::Directory { listing, .. } ==> {
            let c = match listing { Ok(v) => v@, Err(_) => Seq::empty() };
            let (s, a) = listing_step(
                items_of(f.drop_last()),
                match listing { Ok(v) => Ok(c.map_values(|n: ProbedEntry| entry_of(n))), Err(m) => Err(m@) },
                c.map_values(|n: ProbedEntry| txt_of(n)),
            );
            ||| a == ActionView::Finished(stack_verdict(f))
            ||| {
                let g = f.drop_last() + pushed_nodes(c);
                &&& (s, a) == next_step(items_of(g))
                &&& stack_verdict(g) == stack_verdict(f)
                &&& forall|i: int| 0 <= i < g.len() ==> walked(#[trigger] g[i])
            }
        },
        stack_verdict(seq![f.last()]) == entry_verdict(f.last()),
{
    let n = f.last();
    assert(seq![n].drop_last() =~= Seq::<ProbedEntry>::empty());
    assert(seq![n].last() == n);
    assert(stack_verdict(Seq::<ProbedEntry>::empty()) == Ok::<bool, Seq<char>>(true));
    match n {
        ProbedEntry::File { extension, has_chapters, .. } => {
            assert(!txt_of(n)) by {
                assert(walked(f[f.len() - 1]));
            }
        },
        ProbedEntry::Directory { listing, .. } => {
            match listing {
                Ok(v) => {
                    let c = v@;
                    let g = f.drop_last() + pushed_nodes(c);
                    lemma_pushed_nodes_verdict(c);
                    lemma_pushed_matches(c);
                    lemma_stack_verdict_concat(f.drop_last(), pushed_nodes(c));
                    assert(items_of(g) =~= items_of(f.drop_last()) + items_of(pushed_nodes(c)));
                    assert forall|i: int| 0 <= i < g.len() implies walked(#[trigger] g[i]) by {
                        if i < f.len() - 1 {
                            assert(g[i] == f[i]);
                        } else {
                            assert(g[i] == pushed_nodes(c)[i - (f.len() - 1)]);
                        }
                    }
                },
                Err(m) => {},
            }
        },
        ProbedEntry::Other { .. } => {
            assert(walked(f[f.len() - 1]));
        },
    }
}

/// The walk of a directory starts from nothing pending and the single
/// directory, whose verdict is the one `all_files_have_chapters` gives for
/// its listing.
pub proof fn lemma_walk_start(path: String, listing: Result<Vec<ProbedEntry>, String>)
    ensures
        stack_verdict(seq![ProbedEntry::Directory { path, listing }]) == directory_verdict(listing),
        items_of(seq![ProbedEntry::Directory { path, listing }].drop_last()) == Seq::<ItemView>::empty(),
{
    let f = seq![ProbedEntry::Directory { path, listing }];
    assert(f.drop_last() =~= Seq::<ProbedEntry>::empty());
    assert(f.last() == ProbedEntry::Directory { path, listing });
    assert(stack_verdict(Seq::<ProbedEntry>::empty()) == Ok::<bool, Seq<char>>(true));
    assert(entry_verdict(f.last()) == directory_verdict(listing));
    assert(items_of(f.drop_last()) =~= Seq::<ItemView>::empty());
}

} // verus!
