//! An index held in memory, which answers what a search asks.

use vstd::prelude::*;
use crate::list::{listed, Reply, ReplyView};
use crate::path::{copy_name, lemma_last_contains, path_view, paths_view, same_name};
use crate::reach::{closed, lists};

verus! {

/// The paths that exist in an index with the files `files`: the files and
/// every directory above one of them.
pub open spec fn entries_of(files: Seq<Seq<Seq<u8>>>) -> Set<Seq<Seq<u8>>> {
    Set::new(
        |p: Seq<Seq<u8>>|
            exists|i: int|
                0 <= i < files.len() && p.len() <= (#[trigger] files[i]).len() && files[i].take(
                    p.len() as int,
                ) == p,
    )
}

/// With a path, the index of a list of files holds every directory above it.
pub proof fn lemma_entries_closed(files: Seq<Seq<Seq<u8>>>)
    ensures
        closed(entries_of(files)),
{
    let entries = entries_of(files);
    assert forall|p: Seq<Seq<u8>>, k: int|
        entries.contains(p) && 0 <= k <= p.len() implies #[trigger] entries.contains(
        p.take(k),
    ) by {
        let i = choose|i: int|
            0 <= i < files.len() && p.len() <= (#[trigger] files[i]).len() && files[i].take(
                p.len() as int,
            ) == p;
        assert(files[i].take(k) =~= p.take(k));
    }
}

/// The file `f` lies in or below the entry `e` of the directory `d`.
pub open spec fn holds(f: Seq<Seq<u8>>, d: Seq<Seq<u8>>, e: Seq<u8>) -> bool {
    &&& d.len() < f.len()
    &&& f.take(d.len() as int) == d
    &&& f[d.len() as int] == e
}

/// The names of the entries of the directory `d` in an index with the files
/// `files`: each once, in the order in which the files below them stand.
pub open spec fn names_in(files: Seq<Seq<Seq<u8>>>, d: Seq<Seq<u8>>) -> Seq<Seq<u8>>
    decreases files.len(),
{
    if files.len() == 0 {
        Seq::empty()
    } else {
        let before = names_in(files.drop_last(), d);
        let f = files.last();
        if d.len() < f.len() && f.take(d.len() as int) == d && !before.contains(f[d.len() as int]) {
            before.push(f[d.len() as int])
        } else {
            before
        }
    }
}

/// What an index with the files `files` answers when asked for the entries
/// of `d`.
pub open spec fn listing(files: Seq<Seq<Seq<u8>>>, d: Seq<Seq<u8>>) -> ReplyView {
    if names_in(files, d).len() == 0 {
        ReplyView::Absent
    } else {
        ReplyView::Entries(names_in(files, d))
    }
}

proof fn lemma_names_in(files: Seq<Seq<Seq<u8>>>, d: Seq<Seq<u8>>, e: Seq<u8>)
    ensures
        names_in(files, d).contains(e) <==> exists|j: int|
            0 <= j < files.len() && holds(#[trigger] files[j], d, e),
    decreases files.len(),
{
    let names = names_in(files, d);
    if files.len() == 0 {
        assert(!names.contains(e));
    } else {
        let init = files.drop_last();
        let before = names_in(init, d);
        let f = files.last();
        let x = f[d.len() as int];
        let added = names != before;
        lemma_names_in(init, d, e);
        if added {
            assert(names == before.push(x));
            assert(names.drop_last() =~= before);
            lemma_last_contains(names, e);
        }
        if names.contains(e) {
            if before.contains(e) {
                let j = choose|j: int| 0 <= j < init.len() && holds(#[trigger] init[j], d, e);
                assert(holds(files[j], d, e));
            } else {
                assert(holds(files[files.len() - 1], d, e));
            }
        }
        if exists|j: int| 0 <= j < files.len() && holds(#[trigger] files[j], d, e) {
            let j = choose|j: int| 0 <= j < files.len() && holds(#[trigger] files[j], d, e);
            if j < files.len() - 1 {
                assert(holds(init[j], d, e));
                assert(before.contains(e));
            } else {
                assert(e == x);
                if !added {
                    assert(before.contains(x));
                }
            }
            assert(names.contains(e));
        }
    }
}

/// What an index answers when asked for the entries of a directory are the
/// names of the paths that exist right below it.
pub proof fn lemma_listing_lists(files: Seq<Seq<Seq<u8>>>, d: Seq<Seq<u8>>)
    ensures
        lists(entries_of(files), d, listed(listing(files, d))),
{
    let entries = entries_of(files);
    let names = listed(listing(files, d));
    assert(names =~= names_in(files, d));
    assert forall|e: Seq<u8>| names.contains(e) <==> entries.contains(#[trigger] d.push(e)) by {
        let c = d.push(e);
        lemma_names_in(files, d, e);
        if names.contains(e) {
            let j = choose|j: int| 0 <= j < files.len() && holds(#[trigger] files[j], d, e);
            assert(files[j].take(c.len() as int) =~= c);
            assert(c.len() <= files[j].len());
        }
        if entries.contains(c) {
            let j = choose|j: int|
                0 <= j < files.len() && c.len() <= (#[trigger] files[j]).len() && files[j].take(
                    c.len() as int,
                ) == c;
            assert(files[j].take(d.len() as int) =~= c.take(d.len() as int));
            assert(c.take(d.len() as int) =~= d);
            assert(files[j][d.len() as int] == c[d.len() as int]);
            assert(holds(files[j], d, e));
        }
    }
}

/// Whether a list of names holds a name.
fn has_name(names: &Vec<Vec<u8>>, name: &[u8]) -> (r: bool)
    ensures
        r == path_view(names@).contains(name@),
{
    let mut i: usize = 0;
    while i < names.len()
        invariant
            i <= names@.len(),
            forall|j: int| 0 <= j < i ==> path_view(names@)[j] != name@,
        decreases names@.len() - i,
    {
        if same_name(names[i].as_slice(), name) {
            assert(path_view(names@)[i as int] == name@);
            return true;
        }
        i += 1;
    }
    false
}

/// An index held in memory: the paths of its files.
pub struct Snapshot {
    pub files: Vec<Vec<Vec<u8>>>,
}

/// Whether the path `p` is `f` or a directory above it.
fn is_above(p: &Vec<Vec<u8>>, f: &Vec<Vec<u8>>) -> (r: bool)
    ensures
        r == (p@.len() <= f@.len() && path_view(f@).take(p@.len() as int) == path_view(p@)),
{
    if p.len() > f.len() {
        return false;
    }
    let mut i: usize = 0;
    while i < p.len()
        invariant
            p@.len() <= f@.len(),
            i <= p@.len(),
            forall|j: int| 0 <= j < i ==> p@[j]@ == f@[j]@,
        decreases p@.len() - i,
    {
        if !same_name(p[i].as_slice(), f[i].as_slice()) {
            assert(path_view(f@).take(p@.len() as int)[i as int] != path_view(p@)[i as int]);
            return false;
        }
        i += 1;
    }
    assert(path_view(f@).take(p@.len() as int) =~= path_view(p@));
    true
}

impl Snapshot {
    /// The paths that exist in the index.
    pub open spec fn entries(&self) -> Set<Seq<Seq<u8>>> {
        entries_of(paths_view(self.files@))
    }

    /// The entries of a directory, each once, in the order in which the
    /// files below them stand in the index, or `Absent` where nothing lies
    /// below the path.
    pub fn read_dir(&self, dir: &Vec<Vec<u8>>) -> (r: Reply)
        ensures
            r@ == listing(paths_view(self.files@), path_view(dir@)),
            lists(self.entries(), path_view(dir@), listed(r@)),
    {
        let ghost files = paths_view(self.files@);
        let ghost d = path_view(dir@);
        let mut names: Vec<Vec<u8>> = Vec::new();
        let mut i: usize = 0;
        assert(path_view(names@) =~= Seq::empty());
        assert(files.take(0) =~= Seq::empty());
        while i < self.files.len()
            invariant
                i <= self.files@.len(),
                files == paths_view(self.files@),
                d == path_view(dir@),
                path_view(names@) == names_in(files.take(i as int), d),
            decreases self.files@.len() - i,
        {
            let file: &Vec<Vec<u8>> = &self.files[i];
            let ghost was = path_view(names@);
            let ghost f = files[i as int];
            assert(files.take(i + 1).drop_last() =~= files.take(i as int));
            assert(files.take(i + 1).last() == f);
            if dir.len() < file.len() && is_above(dir, file) {
                if !has_name(&names, file[dir.len()].as_slice()) {
                    names.push(copy_name(file[dir.len()].as_slice()));
                    assert(path_view(names@) =~= was.push(f[d.len() as int]));
                }
            }
            i += 1;
        }
        assert(files.take(i as int) =~= files);
        let r: Reply = if names.len() == 0 {
            Reply::Absent
        } else {
            Reply::Entries(names)
        };
        proof {
            lemma_listing_lists(files, d);
        }
        r
    }
}

} // verus!
