//! The decisions of a directory traversal. The caller lists directories;
//! the walker decides which entries are files to search, which
//! subdirectories to descend into, and which to report as skipped.
use vstd::multiset::Multiset;
use vstd::prelude::*;

use crate::text::string_views;

verus! {

broadcast use {vstd::seq_lib::group_to_multiset_ensures, vstd::multiset::group_multiset_axioms};

/// One entry of a directory listing.
pub struct DirEntry {
    pub path: String,
    pub is_dir: bool,
}

impl View for DirEntry {
    type V = (Seq<char>, bool);

    open spec fn view(&self) -> (Seq<char>, bool) {
        (self.path@, self.is_dir)
    }
}

/// The views of a vector of entries.
pub open spec fn entry_views(v: Seq<DirEntry>) -> Seq<(Seq<char>, bool)> {
    v.map_values(|e: DirEntry| e@)
}

/// The paths of the entries that are not directories, in order.
pub open spec fn file_paths(es: Seq<(Seq<char>, bool)>) -> Seq<Seq<char>>
    decreases es.len(),
{
    if es.len() == 0 {
        Seq::empty()
    } else {
        let r = file_paths(es.drop_last());
        if es.last().1 {
            r
        } else {
            r.push(es.last().0)
        }
    }
}

/// The paths of the entries that are directories, in order.
pub open spec fn dir_paths(es: Seq<(Seq<char>, bool)>) -> Seq<Seq<char>>
    decreases es.len(),
{
    if es.len() == 0 {
        Seq::empty()
    } else {
        let r = dir_paths(es.drop_last());
        if es.last().1 {
            r.push(es.last().0)
        } else {
            r
        }
    }
}

/// What the walker decided for the next pending entry.
pub enum WalkStep {
    /// A subdirectory to list next; its entries go to `add_listing`.
    Descend(String),
    /// A subdirectory that a shallow walk does not enter.
    Skipped(String),
    /// A file entry, now among the collected files.
    Collected,
    /// Nothing is pending: the walk is over.
    Done,
}

/// The state of one traversal: the entries still to decide (the next one
/// last), the files collected so far, and every entry handed to it.
pub struct Walker {
    full: bool,
    pending: Vec<DirEntry>,
    files: Vec<String>,
    received: Ghost<Seq<(Seq<char>, bool)>>,
}

impl Walker {
    /// Whether subdirectories are entered.
    pub closed spec fn is_full(&self) -> bool {
        self.full
    }

    /// The entries still to decide; the next one is the last.
    pub closed spec fn pending_view(&self) -> Seq<(Seq<char>, bool)> {
        entry_views(self.pending@)
    }

    /// The files collected so far, in order.
    pub closed spec fn files_view(&self) -> Seq<Seq<char>> {
        string_views(self.files@)
    }

    /// Every entry handed to the walker, in the order it was taken on.
    pub closed spec fn received_view(&self) -> Seq<(Seq<char>, bool)> {
        self.received@
    }

    /// Every file entry received is either collected or still pending, and
    /// nothing else is collected.
    pub closed spec fn wf(&self) -> bool {
        self.files_view().to_multiset().add(file_paths(self.pending_view()).to_multiset())
            == file_paths(self.received_view()).to_multiset()
    }

    /// A walker with nothing received yet.
    pub fn new(full: bool) -> (r: Walker)
        ensures
            r.wf(),
            r.is_full() == full,
            r.pending_view().len() == 0,
            r.files_view().len() == 0,
            r.received_view().len() == 0,
    {
        let r = Walker {
            full,
            pending: Vec::new(),
            files: Vec::new(),
            received: Ghost(Seq::empty()),
        };
        proof {
            assert(r.files_view() =~= Seq::<Seq<char>>::empty());
            assert(r.pending_view() =~= Seq::<(Seq<char>, bool)>::empty());
            let es = Seq::<(Seq<char>, bool)>::empty();
            assert(r.received_view() == es);
            assert(file_paths(es) == Seq::<Seq<char>>::empty());
            assert(Seq::<Seq<char>>::empty().to_multiset() =~= Multiset::empty());
            assert(Multiset::<Seq<char>>::empty().add(Multiset::empty()) =~= Multiset::empty());
            assert(r.files_view().to_multiset() =~= Multiset::empty());
            assert(file_paths(r.pending_view()).to_multiset() =~= Multiset::empty());
            assert(file_paths(r.received_view()).to_multiset() =~= Multiset::empty());
        }
        r
    }

    /// Takes on the entries of a listed directory; the first of them is
    /// decided next.
    pub fn add_listing(&mut self, entries: Vec<DirEntry>)
        requires
            old(self).wf(),
        ensures
            final(self).wf(),
            final(self).is_full() == old(self).is_full(),
            final(self).files_view() == old(self).files_view(),
            final(self).pending_view() == old(self).pending_view() + entry_views(
                entries@,
            ).reverse(),
            final(self).received_view() == old(self).received_view() + entry_views(
                entries@,
            ).reverse(),
    {
        let ghost ev = entry_views(entries@);
        let ghost pend_start = self.pending_view();
        let ghost recv_start = self.received_view();
        let mut entries = entries;
        let n = entries.len();
        proof {
            assert(ev.subrange(n as int, n as int).reverse() =~= Seq::<(Seq<char>, bool)>::empty());
            assert(pend_start + Seq::<(Seq<char>, bool)>::empty() =~= pend_start);
            assert(recv_start + Seq::<(Seq<char>, bool)>::empty() =~= recv_start);
        }
        while entries.len() > 0
            invariant
                self.wf(),
                self.is_full() == old(self).is_full(),
                self.files_view() == old(self).files_view(),
                entries@.len() <= n,
                n == ev.len(),
                forall|k: int| 0 <= k < entries@.len() ==> (#[trigger] entries@[k])@ == ev[k],
                self.pending_view() == pend_start + ev.subrange(entries@.len() as int, n as int).reverse(),
                self.received_view() == recv_start + ev.subrange(entries@.len() as int, n as int).reverse(),
            decreases entries.len(),
        {
            let j = entries.len() - 1;
            let e = entries.pop().unwrap();
            let ghost ew = e@;
            let ghost before_p = self.pending_view();
            let ghost before_r = self.received_view();
            self.pending.push(e);
            self.received = Ghost(self.received@.push(ew));
            proof {
                assert(ew == ev[j as int]);
                assert(self.pending_view() =~= before_p.push(ew));
                assert(ev.subrange(j as int, n as int).reverse() =~= ev.subrange(
                    j + 1,
                    n as int,
                ).reverse().push(ev[j as int]));
                assert(self.pending_view() =~= pend_start + ev.subrange(j as int, n as int).reverse());
                assert(self.received_view() =~= recv_start + ev.subrange(j as int, n as int).reverse());
                assert(self.pending_view().drop_last() =~= before_p);
                assert(self.received_view().drop_last() =~= before_r);
                let fp = file_paths(before_p);
                let fr = file_paths(before_r);
                if !ew.1 {
                    assert(file_paths(self.pending_view()) == fp.push(ew.0));
                    assert(file_paths(self.received_view()) == fr.push(ew.0));
                } else {
                    assert(file_paths(self.pending_view()) == fp);
                    assert(file_paths(self.received_view()) == fr);
                }
                assert(self.files_view().to_multiset().add(
                    file_paths(self.pending_view()).to_multiset(),
                ) =~= file_paths(self.received_view()).to_multiset());
            }
        }
        proof {
            assert(ev.subrange(0, n as int) =~= ev);
        }
    }

    /// Decides the next pending entry: a directory is descended into in a
    /// full walk and skipped otherwise; any other entry is collected.
    pub fn step(&mut self) -> (r: WalkStep)
        requires
            old(self).wf(),
        ensures
            final(self).wf(),
            final(self).is_full() == old(self).is_full(),
            final(self).received_view() == old(self).received_view(),
            old(self).pending_view().len() == 0 ==> r is Done && *final(self) == *old(self),
            old(self).pending_view().len() > 0 ==> {
                let top = old(self).pending_view().last();
                &&& final(self).pending_view() == old(self).pending_view().drop_last()
                &&& (top.1 && old(self).is_full()) ==> (r matches WalkStep::Descend(p) && p@
                    == top.0) && final(self).files_view() == old(self).files_view()
                &&& (top.1 && !old(self).is_full()) ==> (r matches WalkStep::Skipped(p) && p@
                    == top.0) && final(self).files_view() == old(self).files_view()
                &&& !top.1 ==> r is Collected && final(self).files_view() == old(
                    self,
                ).files_view().push(top.0)
            },
    {
        if self.pending.len() == 0 {
            return WalkStep::Done;
        }
        let ghost pend_start = self.pending_view();
        let ghost files_start = self.files_view();
        let e = self.pending.pop().unwrap();
        proof {
            assert(self.pending_view() =~= pend_start.drop_last());
            assert(pend_start =~= pend_start.drop_last().push(e@));
        }
        if e.is_dir {
            if self.full {
                WalkStep::Descend(e.path)
            } else {
                WalkStep::Skipped(e.path)
            }
        } else {
            let ghost path = e.path@;
            self.files.push(e.path);
            proof {
                assert(self.files_view() =~= files_start.push(path));
                assert(self.files_view().to_multiset().add(
                    file_paths(self.pending_view()).to_multiset(),
                ) =~= file_paths(self.received_view()).to_multiset());
            }
            WalkStep::Collected
        }
    }

    /// Whether no entry is pending.
    pub fn is_done(&self) -> (r: bool)
        ensures
            r == (self.pending_view().len() == 0),
    {
        self.pending.len() == 0
    }

    /// The collected files, in the order they were collected.
    pub fn into_files(self) -> (r: Vec<String>)
        ensures
            string_views(r@) == self.files_view(),
    {
        self.files
    }
}

/// A shallow walk of one listing: its file entries, and separately its
/// subdirectories, which are skipped; both in listing order.
pub fn collect_shallow(entries: Vec<DirEntry>) -> (r: (Vec<String>, Vec<String>))
    ensures
        string_views(r.0@) == file_paths(entry_views(entries@)),
        string_views(r.1@) == dir_paths(entry_views(entries@)),
{
    let ghost ev = entry_views(entries@);
    let ghost n = ev.len();
    let mut w = Walker::new(false);
    w.add_listing(entries);
    let mut skipped: Vec<String> = Vec::new();
    proof {
        assert(w.pending_view() =~= ev.subrange(0, n as int).reverse());
        assert(ev.subrange(0, 0) =~= Seq::<(Seq<char>, bool)>::empty());
        assert(string_views(skipped@) =~= Seq::<Seq<char>>::empty());
    }
    while !w.is_done()
        invariant
            w.wf(),
            !w.is_full(),
            n == ev.len(),
            w.pending_view().len() <= n,
            w.pending_view() == ev.subrange(n - w.pending_view().len(), n as int).reverse(),
            w.files_view() == file_paths(ev.subrange(0, n - w.pending_view().len())),
            string_views(skipped@) == dir_paths(ev.subrange(0, n - w.pending_view().len())),
        decreases w.pending_view().len(),
    {
        let ghost k = n - w.pending_view().len();
        let ghost sk = skipped@;
        proof {
            assert(w.pending_view().last() == ev[k]);
            assert(ev.subrange(0, k + 1).drop_last() =~= ev.subrange(0, k));
            assert(ev.subrange(k, n as int).reverse().drop_last() =~= ev.subrange(
                k + 1,
                n as int,
            ).reverse());
        }
        match w.step() {
            WalkStep::Skipped(p) => {
                skipped.push(p);
                proof {
                    assert(string_views(skipped@) =~= string_views(sk).push(ev[k].0));
                }
            },
            _ => {},
        }
    }
    proof {
        assert(ev.subrange(0, n as int) =~= ev);
    }
    let files = w.into_files();
    (files, skipped)
}

/// A walk that has nothing pending has collected every file entry it
/// received, each as often as it was received, and nothing that was not a
/// file entry; so when the received paths are distinct, no file is
/// collected twice.
pub proof fn lemma_walk_complete(w: Walker)
    requires
        w.wf(),
        w.pending_view().len() == 0,
    ensures
        w.files_view().to_multiset() == file_paths(w.received_view()).to_multiset(),
        forall|f: Seq<char>|
            #[trigger] w.files_view().contains(f) <==> file_paths(w.received_view()).contains(f),
        file_paths(w.received_view()).no_duplicates() ==> w.files_view().no_duplicates(),
{
    let fs = w.files_view();
    let rs = file_paths(w.received_view());
    assert(file_paths(w.pending_view()) == Seq::<Seq<char>>::empty());
    assert(Seq::<Seq<char>>::empty().to_multiset() =~= Multiset::empty());
    assert(fs.to_multiset().add(Multiset::empty()) =~= fs.to_multiset());
    assert(fs.to_multiset() == rs.to_multiset());
    assert forall|f: Seq<char>| #[trigger] fs.contains(f) <==> rs.contains(f) by {
        assert(fs.to_multiset().count(f) == rs.to_multiset().count(f));
    }
    if rs.no_duplicates() {
        rs.lemma_multiset_has_no_duplicates();
        fs.lemma_multiset_has_no_duplicates_conv();
    }
}

} // verus!
