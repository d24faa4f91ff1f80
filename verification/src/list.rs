//! The search for the files of the packages whose names begin with a query.
//!
//! The index is sharded by the length and the first bytes of a name, so a
//! query is answered from a few directories. `prefixes` names them, a
//! `Search` asks for them one at a time, and the one that reads the
//! directories answers.

use vstd::prelude::*;
use vstd::slice::slice_subrange;
use vstd::string::StringSliceAdditionalSpecFns;
use crate::fuzzy::{
    fuzzy_starts_with, lemma_order_flip, lemma_order_refl, lemma_order_trans, name_le,
    name_order, order_bytes, starts_with_bytes,
};
use crate::path::{
    child, copy_name, copy_path, lemma_last_contains, path_view, paths_view, same_path,
};
use crate::reach::{
    candidates, closed, count_depth, covered, lemma_begun_covers, lemma_step_covers,
    lemma_step_shrinks,
};
use crate::scan::{lemma_search_is_scan, scan, well_formed};
use crate::snapshot::{lemma_entries_closed, Snapshot};

verus! {

/// A place in the index that a query has to look at. Directories are
/// chosen by listing the directory above them and keeping the names that
/// pass a filter, so that `-` and `_` count as one in them too.
pub enum Prefix {
    /// A directory to search with no recursion.
    List(Vec<Vec<u8>>),
    /// A directory of which the matching directories are searched.
    RecurseMatching1(Vec<Vec<u8>>, Vec<u8>),
    /// A directory of which the matching directories are taken, and of
    /// those the directories that match the second filter are searched.
    RecurseMatching2(Vec<Vec<u8>>, Vec<u8>, Vec<u8>),
}

/// What a `Prefix` stands for.
pub enum PrefixView {
    List(Seq<Seq<u8>>),
    RecurseMatching1(Seq<Seq<u8>>, Seq<u8>),
    RecurseMatching2(Seq<Seq<u8>>, Seq<u8>, Seq<u8>),
}

impl View for Prefix {
    type V = PrefixView;

    open spec fn view(&self) -> PrefixView {
        match self {
            Prefix::List(p) => PrefixView::List(path_view(p@)),
            Prefix::RecurseMatching1(p, f) => PrefixView::RecurseMatching1(path_view(p@), f@),
            Prefix::RecurseMatching2(p, f, g) => PrefixView::RecurseMatching2(
                path_view(p@),
                f@,
                g@,
            ),
        }
    }
}

impl PrefixView {
    /// The path that the place starts from.
    pub open spec fn base(self) -> Seq<Seq<u8>> {
        match self {
            PrefixView::List(p) => p,
            PrefixView::RecurseMatching1(p, _) => p,
            PrefixView::RecurseMatching2(p, _, _) => p,
        }
    }

    /// How many levels below the base the files lie.
    pub open spec fn depth(self) -> nat {
        match self {
            PrefixView::List(_) => 1,
            PrefixView::RecurseMatching1(_, _) => 2,
            PrefixView::RecurseMatching2(_, _, _) => 3,
        }
    }

    /// What the name of a directory right below the base must begin with.
    /// The empty filter lets every directory through.
    pub open spec fn filter(self) -> Seq<u8> {
        match self {
            PrefixView::List(_) => Seq::empty(),
            PrefixView::RecurseMatching1(_, f) => f,
            PrefixView::RecurseMatching2(_, f, _) => f,
        }
    }

    /// What the name of a directory two levels below the base must begin
    /// with.
    pub open spec fn inner(self) -> Seq<u8> {
        match self {
            PrefixView::RecurseMatching2(_, _, g) => g,
            _ => Seq::empty(),
        }
    }
}

/// The name of the directory of the names of one byte.
pub open spec fn dir_one() -> Seq<u8> {
    seq![0x31u8]
}

/// The name of the directory of the names of two bytes.
pub open spec fn dir_two() -> Seq<u8> {
    seq![0x32u8]
}

/// The name of the directory of the names of three bytes.
pub open spec fn dir_three() -> Seq<u8> {
    seq![0x33u8]
}

/// The places to look at for a query, by the length of the query: the
/// directories of the names of one, two and three bytes as far as such a
/// name can begin with the query, and, from the root, the directories whose
/// names agree with the first two bytes of the query and below them those
/// that agree with its next two.
pub open spec fn prefixes_of(q: Seq<u8>) -> Seq<PrefixView> {
    if q.len() == 0 {
        Seq::empty()
    } else if q.len() == 1 {
        seq![
            PrefixView::List(seq![dir_one()]),
            PrefixView::List(seq![dir_two()]),
            PrefixView::RecurseMatching1(seq![dir_three()], q),
            PrefixView::RecurseMatching2(Seq::empty(), q, Seq::empty()),
        ]
    } else if q.len() == 2 {
        seq![
            PrefixView::List(seq![dir_two()]),
            PrefixView::RecurseMatching1(seq![dir_three()], q.subrange(0, 1)),
            PrefixView::RecurseMatching2(Seq::empty(), q, Seq::empty()),
        ]
    } else if q.len() == 3 {
        seq![
            PrefixView::RecurseMatching1(seq![dir_three()], q.subrange(0, 1)),
            PrefixView::RecurseMatching2(Seq::empty(), q.subrange(0, 2), q.subrange(2, 3)),
        ]
    } else {
        seq![PrefixView::RecurseMatching2(Seq::empty(), q.subrange(0, 2), q.subrange(2, 4))]
    }
}

/// What a list of places stands for.
pub open spec fn prefixes_view(ps: Seq<Prefix>) -> Seq<PrefixView> {
    Seq::new(ps.len(), |i: int| ps[i]@)
}

fn path1(a: Vec<u8>) -> (r: Vec<Vec<u8>>)
    ensures
        path_view(r@) == seq![a@],
{
    let mut r: Vec<Vec<u8>> = Vec::new();
    r.push(a);
    assert(path_view(r@) =~= seq![a@]);
    r
}

fn root() -> (r: Vec<Vec<u8>>)
    ensures
        path_view(r@) == Seq::<Seq<u8>>::empty(),
{
    let r: Vec<Vec<u8>> = Vec::new();
    assert(path_view(r@) =~= Seq::<Seq<u8>>::empty());
    r
}

/// The name of one byte.
pub fn digit_dir(d: u8) -> (r: Vec<u8>)
    ensures
        r@ == seq![d],
{
    let mut r: Vec<u8> = Vec::new();
    r.push(d);
    assert(r@ =~= seq![d]);
    r
}

fn part(query: &[u8], from: usize, to: usize) -> (r: Vec<u8>)
    requires
        from <= to <= query@.len(),
    ensures
        r@ == query@.subrange(from as int, to as int),
{
    copy_name(slice_subrange(query, from, to))
}

/// The places to look at for a query.
pub fn prefixes(query: &[u8]) -> (r: Vec<Prefix>)
    ensures
        prefixes_view(r@) == prefixes_of(query@),
{
    let mut r: Vec<Prefix> = Vec::new();
    let n: usize = query.len();
    if n == 0 {
    } else if n == 1 {
        // ./1/{q*}
        r.push(Prefix::List(path1(digit_dir(0x31))));
        // ./2/{q*}
        r.push(Prefix::List(path1(digit_dir(0x32))));
        // ./3/{a*}/{q*}
        r.push(Prefix::RecurseMatching1(path1(digit_dir(0x33)), copy_name(query)));
        // ./{a*}/*/{q*}
        r.push(Prefix::RecurseMatching2(root(), copy_name(query), Vec::new()));
    } else if n == 2 {
        // ./2/{q*}
        r.push(Prefix::List(path1(digit_dir(0x32))));
        // ./3/{a*}/{q*}
        r.push(Prefix::RecurseMatching1(path1(digit_dir(0x33)), part(query, 0, 1)));
        // ./{ab*}/*/{q*}
        r.push(Prefix::RecurseMatching2(root(), copy_name(query), Vec::new()));
    } else if n == 3 {
        // ./3/{a*}/{q*}
        r.push(Prefix::RecurseMatching1(path1(digit_dir(0x33)), part(query, 0, 1)));
        // ./{ab*}/{c*}/{q*}
        r.push(Prefix::RecurseMatching2(root(), part(query, 0, 2), part(query, 2, 3)));
    } else {
        // ./{ab*}/{cd*}/{q*}
        r.push(Prefix::RecurseMatching2(root(), part(query, 0, 2), part(query, 2, 4)));
    }
    assert(prefixes_view(r@) =~= prefixes_of(query@));
    r
}

/// The names of a listing that begin with `filter`, in the order of the
/// listing.
pub open spec fn matching(names: Seq<Seq<u8>>, filter: Seq<u8>) -> Seq<Seq<u8>>
    decreases names.len(),
{
    if names.len() == 0 {
        Seq::empty()
    } else if fuzzy_starts_with(names.last(), filter) {
        matching(names.drop_last(), filter).push(names.last())
    } else {
        matching(names.drop_last(), filter)
    }
}

/// The paths of the entries `names` of the directory `base`.
pub open spec fn children(base: Seq<Seq<u8>>, names: Seq<Seq<u8>>) -> Seq<Seq<Seq<u8>>> {
    Seq::new(names.len(), |i: int| base.push(names[i]))
}

/// The directories `paths` as places to search: where `deep` holds, each
/// for its directories that pass the filter `inner`, and alone where it
/// does not.
pub open spec fn places(paths: Seq<Seq<Seq<u8>>>, deep: bool, inner: Seq<u8>) -> Seq<PrefixView> {
    Seq::new(
        paths.len(),
        |i: int|
            if deep {
                PrefixView::RecurseMatching1(paths[i], inner)
            } else {
                PrefixView::List(paths[i])
            },
    )
}

/// The answer to the request of a search for the entries of a directory.
pub enum Reply {
    /// The names of the entries of the directory.
    Entries(Vec<Vec<u8>>),
    /// There is no such directory.
    Absent,
}

/// What a `Reply` stands for.
pub enum ReplyView {
    Entries(Seq<Seq<u8>>),
    Absent,
}

impl View for Reply {
    type V = ReplyView;

    open spec fn view(&self) -> ReplyView {
        match self {
            Reply::Entries(names) => ReplyView::Entries(path_view(names@)),
            Reply::Absent => ReplyView::Absent,
        }
    }
}

/// The names that a reply lists: none where the directory is absent.
pub open spec fn listed(reply: ReplyView) -> Seq<Seq<u8>> {
    match reply {
        ReplyView::Entries(names) => names,
        ReplyView::Absent => Seq::empty(),
    }
}

/// A search under way: the query, the places still to look at, and the
/// paths found so far.
pub struct Search {
    query: Vec<u8>,
    pending: Vec<Prefix>,
    found: Vec<Vec<Vec<u8>>>,
}

/// What a `Search` stands for.
pub struct SearchView {
    pub query: Seq<u8>,
    pub pending: Seq<PrefixView>,
    pub found: Seq<Seq<Seq<u8>>>,
}

impl View for Search {
    type V = SearchView;

    closed spec fn view(&self) -> SearchView {
        SearchView {
            query: self.query@,
            pending: prefixes_view(self.pending@),
            found: paths_view(self.found@),
        }
    }
}

/// A search for a query with nothing looked at yet.
pub open spec fn begun(query: Seq<u8>) -> SearchView {
    SearchView { query, pending: prefixes_of(query), found: Seq::empty() }
}

/// The directory whose entries a search asks for next: that of its last
/// pending place, and none when no place is left.
pub open spec fn request_of(s: SearchView) -> Option<Seq<Seq<u8>>> {
    if s.pending.len() == 0 {
        None
    } else {
        Some(s.pending.last().base())
    }
}

/// The search after the answer to its request. The last pending place
/// leaves. Of a directory searched alone, the entries that begin with the
/// query are found. Of any other, the entries that pass its filter become
/// places to search.
pub open spec fn step(s: SearchView, reply: ReplyView) -> SearchView {
    if s.pending.len() == 0 {
        s
    } else {
        let place = s.pending.last();
        let rest = s.pending.drop_last();
        if place.depth() == 1 {
            SearchView {
                query: s.query,
                pending: rest,
                found: s.found + children(place.base(), matching(listed(reply), s.query)),
            }
        } else {
            SearchView {
                query: s.query,
                pending: rest + places(
                    children(place.base(), matching(listed(reply), place.filter())),
                    place.depth() == 3,
                    place.inner(),
                ),
                found: s.found,
            }
        }
    }
}

/// Adds to `r` the path of every entry of the directory `dir` whose name
/// begins with the query.
pub fn append_files(
    r: &mut Vec<Vec<Vec<u8>>>,
    dir: &Vec<Vec<u8>>,
    entries: &Vec<Vec<u8>>,
    query: &[u8],
)
    ensures
        paths_view(final(r)@) == paths_view(old(r)@) + children(
            path_view(dir@),
            matching(path_view(entries@), query@),
        ),
{
    let ghost names = path_view(entries@);
    let ghost before = paths_view(r@);
    let mut i: usize = 0;
    while i < entries.len()
        invariant
            i <= entries@.len(),
            names == path_view(entries@),
            paths_view(r@) == before + children(
                path_view(dir@),
                matching(names.take(i as int), query@),
            ),
        decreases entries@.len() - i,
    {
        let ghost was = paths_view(r@);
        assert(names.take(i + 1).drop_last() =~= names.take(i as int));
        assert(names.take(i + 1).last() == entries@[i as int]@);
        if starts_with_bytes(entries[i].as_slice(), query) {
            r.push(child(dir, entries[i].as_slice()));
            assert(paths_view(r@) =~= was.push(path_view(dir@).push(entries@[i as int]@)));
            assert(paths_view(r@) =~= before + children(
                path_view(dir@),
                matching(names.take(i + 1), query@),
            ));
        }
        i += 1;
    }
    assert(names.take(names.len() as int) =~= names);
}

/// Adds to `pending` every entry of the directory `dir` whose name begins
/// with `filter`, as a directory to search: where `deep` holds for its
/// directories that pass the filter `inner`, and alone where it does not.
fn append_places(
    pending: &mut Vec<Prefix>,
    dir: &Vec<Vec<u8>>,
    entries: &Vec<Vec<u8>>,
    filter: &[u8],
    deep: bool,
    inner: &[u8],
)
    ensures
        prefixes_view(final(pending)@) == prefixes_view(old(pending)@) + places(
            children(path_view(dir@), matching(path_view(entries@), filter@)),
            deep,
            inner@,
        ),
{
    let ghost names = path_view(entries@);
    let ghost before = prefixes_view(pending@);
    let mut i: usize = 0;
    while i < entries.len()
        invariant
            i <= entries@.len(),
            names == path_view(entries@),
            prefixes_view(pending@) == before + places(
                children(path_view(dir@), matching(names.take(i as int), filter@)),
                deep,
                inner@,
            ),
        decreases entries@.len() - i,
    {
        let ghost was = prefixes_view(pending@);
        assert(names.take(i + 1).drop_last() =~= names.take(i as int));
        assert(names.take(i + 1).last() == entries@[i as int]@);
        if starts_with_bytes(entries[i].as_slice(), filter) {
            let path: Vec<Vec<u8>> = child(dir, entries[i].as_slice());
            let place: Prefix = if deep {
                Prefix::RecurseMatching1(path, copy_name(inner))
            } else {
                Prefix::List(path)
            };
            pending.push(place);
            assert(prefixes_view(pending@) =~= was.push(place@));
            assert(prefixes_view(pending@) =~= before + places(
                children(path_view(dir@), matching(names.take(i + 1), filter@)),
                deep,
                inner@,
            ));
        }
        i += 1;
    }
    assert(names.take(names.len() as int) =~= names);
}

impl Search {
    /// A search for the names that begin with `query`, with nothing looked
    /// at yet.
    pub fn new(query: &[u8]) -> (r: Search)
        ensures
            r@ == begun(query@),
    {
        let r = Search { query: copy_name(query), pending: prefixes(query), found: Vec::new() };
        assert(paths_view(r.found@) =~= Seq::empty());
        r
    }

    /// The directory whose entries the one that reads the index is to give
    /// next; `None` when the search is over.
    pub fn request(&self) -> (r: Option<Vec<Vec<u8>>>)
        ensures
            match r {
                Some(dir) => request_of(self@) == Some(path_view(dir@)),
                None => request_of(self@).is_none(),
            },
    {
        let n: usize = self.pending.len();
        if n == 0 {
            return None;
        }
        assert(prefixes_view(self.pending@).last() == self.pending@[n - 1]@);
        match &self.pending[n - 1] {
            Prefix::List(p) => Some(copy_path(p)),
            Prefix::RecurseMatching1(p, _) => Some(copy_path(p)),
            Prefix::RecurseMatching2(p, _, _) => Some(copy_path(p)),
        }
    }

    /// Takes the answer to the last request.
    pub fn advance(&mut self, reply: Reply)
        ensures
            final(self)@ == step(old(self)@, reply@),
    {
        let ghost before = self@;
        let empty: Vec<Vec<u8>> = Vec::new();
        let none: Vec<u8> = Vec::new();
        assert(path_view(empty@) =~= Seq::empty());
        let top: Option<Prefix> = self.pending.pop();
        let place: Prefix = match top {
            None => {
                return ;
            },
            Some(place) => place,
        };
        assert(before.pending.last() == place@);
        assert(prefixes_view(self.pending@) =~= before.pending.drop_last());
        let names: &Vec<Vec<u8>> = match &reply {
            Reply::Entries(names) => names,
            Reply::Absent => &empty,
        };
        assert(path_view(names@) == listed(reply@));
        match place {
            Prefix::List(p) => {
                append_files(&mut self.found, &p, names, self.query.as_slice());
            },
            Prefix::RecurseMatching1(p, f) => {
                append_places(&mut self.pending, &p, names, f.as_slice(), false, none.as_slice());
            },
            Prefix::RecurseMatching2(p, f, g) => {
                append_places(&mut self.pending, &p, names, f.as_slice(), true, g.as_slice());
            },
        }
    }
}

/// The name of the entry that a path leads to: its last segment.
pub open spec fn file_name(p: Seq<Seq<u8>>) -> Seq<u8> {
    if p.len() == 0 {
        Seq::empty()
    } else {
        p.last()
    }
}

/// The paths are in the order of the sort keys of their names.
pub open spec fn sorted(ps: Seq<Seq<Seq<u8>>>) -> bool {
    forall|i: int, j: int|
        0 <= i < j < ps.len() ==> name_le(#[trigger] file_name(ps[i]), #[trigger] file_name(ps[j]))
}

/// The place at which a path goes into a sorted list: behind the paths
/// whose names do not come after its own.
pub open spec fn place_of(out: Seq<Seq<Seq<u8>>>, p: Seq<Seq<u8>>) -> int
    decreases out.len(),
{
    if out.len() == 0 || name_order(file_name(out[0]), file_name(p)) > 0 {
        0
    } else {
        1 + place_of(out.drop_first(), p)
    }
}

/// A sorted list with a path put into it at its place, and the list itself
/// where it holds the path already.
pub open spec fn put(out: Seq<Seq<Seq<u8>>>, p: Seq<Seq<u8>>) -> Seq<Seq<Seq<u8>>> {
    if out.contains(p) {
        out
    } else {
        out.insert(place_of(out, p), p)
    }
}

/// The paths of a list, each once, in the order of the sort keys of their
/// names: each path put into what the paths behind it make.
pub open spec fn arranged(paths: Seq<Seq<Seq<u8>>>) -> Seq<Seq<Seq<u8>>>
    decreases paths.len(),
{
    if paths.len() == 0 {
        Seq::empty()
    } else {
        put(arranged(paths.drop_first()), paths[0])
    }
}

/// The order of two paths by the sort keys of their names: -1, 0 or 1.
pub fn order_paths(a: &Vec<Vec<u8>>, b: &Vec<Vec<u8>>) -> (r: i8)
    ensures
        r == name_order(file_name(path_view(a@)), file_name(path_view(b@))),
{
    let none: Vec<u8> = Vec::new();
    let x: &[u8] = if a.len() == 0 {
        none.as_slice()
    } else {
        a[a.len() - 1].as_slice()
    };
    let y: &[u8] = if b.len() == 0 {
        none.as_slice()
    } else {
        b[b.len() - 1].as_slice()
    };
    assert(x@ =~= file_name(path_view(a@)));
    assert(y@ =~= file_name(path_view(b@)));
    order_bytes(x, y)
}

/// Puts a path into a sorted list without doubles, after the paths whose
/// names have the same sort key, unless the list holds it already.
fn insert_sorted(out: &mut Vec<Vec<Vec<u8>>>, path: Vec<Vec<u8>>)
    requires
        sorted(paths_view(old(out)@)),
        paths_view(old(out)@).no_duplicates(),
    ensures
        paths_view(final(out)@) == put(paths_view(old(out)@), path_view(path@)),
        sorted(paths_view(final(out)@)),
        paths_view(final(out)@).no_duplicates(),
        forall|p: Seq<Seq<u8>>|
            paths_view(final(out)@).contains(p) <==> (paths_view(old(out)@).contains(p) || p
                == path_view(path@)),
{
    let ghost before = paths_view(out@);
    let ghost new = path_view(path@);
    let mut i: usize = 0;
    assert(before.skip(0) =~= before);
    while i < out.len()
        invariant
            i <= out@.len(),
            before == paths_view(out@),
            new == path_view(path@),
            sorted(before),
            before.no_duplicates(),
            place_of(before, new) == i + place_of(before.skip(i as int), new),
            forall|j: int| 0 <= j < i ==> before[j] != new,
            forall|j: int| 0 <= j < i ==> name_le(#[trigger] file_name(before[j]), file_name(new)),
        ensures
            i <= out@.len(),
            before == paths_view(out@),
            place_of(before, new) == i,
            forall|j: int| 0 <= j < i ==> before[j] != new,
            forall|j: int| 0 <= j < i ==> name_le(#[trigger] file_name(before[j]), file_name(new)),
            i < out@.len() ==> name_order(file_name(before[i as int]), file_name(new)) > 0,
        decreases out@.len() - i,
    {
        assert(before.skip(i as int)[0] == before[i as int]);
        assert(before.skip(i as int).drop_first() =~= before.skip(i + 1));
        if order_paths(&out[i], &path) > 0 {
            break ;
        }
        if same_path(&out[i], &path) {
            assert(before.contains(new)) by {
                assert(before[i as int] == new);
            }
            assert forall|p: Seq<Seq<u8>>| before.contains(p) <==> (before.contains(p) || p
                == new) by {}
            return ;
        }
        i += 1;
    }
    out.insert(i, path);
    let ghost after = paths_view(out@);
    assert(after =~= before.insert(i as int, new));
    proof {
        assert(!before.contains(new)) by {
            if before.contains(new) {
                let k = choose|k: int| 0 <= k < before.len() && before[k] == new;
                lemma_order_flip(file_name(before[i as int]), file_name(new));
                if k > i {
                    assert(name_le(file_name(before[i as int]), file_name(before[k])));
                } else {
                    lemma_order_refl(file_name(before[i as int]));
                }
                lemma_order_trans(file_name(new), file_name(before[i as int]), file_name(before[k]));
                lemma_order_refl(file_name(new));
            }
        }
        assert forall|a: int, b: int| 0 <= a < b < after.len() implies name_le(
            #[trigger] file_name(after[a]),
            #[trigger] file_name(after[b]),
        ) by {
            if b < i {
                assert(after[a] == before[a] && after[b] == before[b]);
            } else if b == i {
                assert(after[a] == before[a]);
            } else if a < i {
                assert(after[a] == before[a] && after[b] == before[b - 1]);
                if b - 1 >= i && a < b - 1 {
                    assert(name_le(file_name(before[a]), file_name(before[b - 1])));
                }
            } else if a == i {
                assert(after[b] == before[b - 1]);
                lemma_order_flip(file_name(before[i as int]), file_name(new));
                if b - 1 > i {
                    assert(name_le(file_name(before[i as int]), file_name(before[b - 1])));
                    lemma_order_trans(
                        file_name(new),
                        file_name(before[i as int]),
                        file_name(before[b - 1]),
                    );
                }
            } else {
                assert(after[a] == before[a - 1] && after[b] == before[b - 1]);
                assert(name_le(file_name(before[a - 1]), file_name(before[b - 1])));
            }
        }
        assert forall|a: int, b: int| 0 <= a < b < after.len() implies after[a] != after[b] by {
            if b < i {
            } else if b == i {
            } else if a < i {
                assert(after[a] == before[a] && after[b] == before[b - 1]);
            } else if a == i {
                assert(after[b] == before[b - 1]);
                lemma_order_flip(file_name(before[i as int]), file_name(new));
                if b - 1 > i {
                    assert(name_le(file_name(before[i as int]), file_name(before[b - 1])));
                } else {
                    lemma_order_refl(file_name(before[i as int]));
                }
                lemma_order_trans(
                    file_name(new),
                    file_name(before[i as int]),
                    file_name(before[b - 1]),
                );
                lemma_order_refl(file_name(new));
            } else {
                assert(after[a] == before[a - 1] && after[b] == before[b - 1]);
            }
        }
        assert forall|p: Seq<Seq<u8>>| after.contains(p) <==> (before.contains(p) || p
            == new) by {
            if after.contains(p) {
                let k = choose|k: int| 0 <= k < after.len() && after[k] == p;
                if k < i {
                    assert(before[k] == p);
                } else if k > i {
                    assert(before[k - 1] == p);
                }
            }
            if before.contains(p) {
                let k = choose|k: int| 0 <= k < before.len() && before[k] == p;
                if k < i {
                    assert(after[k] == p);
                } else {
                    assert(after[k + 1] == p);
                }
            }
            if p == new {
                assert(after[i as int] == p);
            }
        }
    }
}

impl Search {
    /// Whether no place is left to look at.
    pub fn is_done(&self) -> (r: bool)
        ensures
            r == (self@.pending.len() == 0),
    {
        self.pending.len() == 0
    }

    /// The paths found, each once, in the order of the sort keys of their
    /// names.
    pub fn finish(self) -> (r: Vec<Vec<Vec<u8>>>)
        ensures
            paths_view(r@) == arranged(self@.found),
            sorted(paths_view(r@)),
            paths_view(r@).no_duplicates(),
            forall|p: Seq<Seq<u8>>| paths_view(r@).contains(p) <==> self@.found.contains(p),
    {
        let ghost all = self@.found;
        let mut found: Vec<Vec<Vec<u8>>> = self.found;
        let mut out: Vec<Vec<Vec<u8>>> = Vec::new();
        assert(paths_view(out@) =~= Seq::empty());
        assert(all.skip(all.len() as int) =~= Seq::empty());
        assert(all.take(all.len() as int) =~= all);
        while found.len() > 0
            invariant
                found@.len() <= all.len(),
                paths_view(found@) == all.take(found@.len() as int),
                paths_view(out@) == arranged(all.skip(found@.len() as int)),
                sorted(paths_view(out@)),
                paths_view(out@).no_duplicates(),
                forall|p: Seq<Seq<u8>>|
                    (paths_view(out@).contains(p) || paths_view(found@).contains(p))
                        <==> all.contains(p),
            decreases found@.len(),
        {
            let ghost left = paths_view(found@);
            let ghost done = paths_view(out@);
            let ghost n = found@.len() as int;
            let path: Vec<Vec<u8>> = match found.pop() {
                Some(path) => path,
                None => Vec::new(),
            };
            assert(paths_view(found@) =~= left.drop_last());
            assert(paths_view(found@) =~= all.take(n - 1));
            assert(path_view(path@) == left.last());
            assert(all.skip(n - 1)[0] == left.last());
            assert(all.skip(n - 1).drop_first() =~= all.skip(n));
            insert_sorted(&mut out, path);
            assert forall|p: Seq<Seq<u8>>|
                (paths_view(out@).contains(p) || paths_view(found@).contains(p)) <==> all.contains(
                    p,
                ) by {
                lemma_last_contains(left, p);
                assert((done.contains(p) || left.contains(p)) <==> all.contains(p));
            }
        }
        out
    }
}

/// The paths of the index that a query leads to, each once, in the order of
/// the sort keys of their names. In an index laid out as `shard_path` says
/// they are the files whose names begin with the query, and none for the
/// empty query: what a scan of every file would find.
pub fn all(index: &Snapshot, query: &str) -> (r: Vec<Vec<Vec<u8>>>)
    ensures
        sorted(paths_view(r@)),
        paths_view(r@).no_duplicates(),
        forall|p: Seq<Seq<u8>>|
            paths_view(r@).contains(p) <==> candidates(index.entries(), query.spec_bytes()).contains(
                p,
            ),
        query.spec_bytes().len() == 0 ==> r@.len() == 0,
        well_formed(paths_view(index.files@)) ==> forall|p: Seq<Seq<u8>>|
            paths_view(r@).contains(p) <==> scan(
                paths_view(index.files@),
                query.spec_bytes(),
            ).contains(p),
{
    let ghost entries = index.entries();
    let ghost q = query.spec_bytes();
    let mut search: Search = Search::new(query.as_bytes());
    proof {
        lemma_entries_closed(paths_view(index.files@));
        assert forall|p: Seq<Seq<u8>>|
            covered(entries, search@, p) <==> candidates(entries, q).contains(p) by {
            lemma_begun_covers(entries, q, p);
        }
    }
    while !search.is_done()
        invariant
            entries == index.entries(),
            closed(entries),
            search@.query == q,
            q.len() == 0 ==> search@.pending.len() == 0 && search@.found.len() == 0,
            forall|p: Seq<Seq<u8>>|
                covered(entries, search@, p) <==> candidates(entries, q).contains(p),
        decreases
            count_depth(search@.pending, 3),
            count_depth(search@.pending, 2),
            count_depth(search@.pending, 1),
    {
        let ghost before = search@;
        let reply: Reply = match search.request() {
            Some(dir) => index.read_dir(&dir),
            None => Reply::Absent,
        };
        search.advance(reply);
        proof {
            assert forall|p: Seq<Seq<u8>>|
                covered(entries, search@, p) <==> candidates(entries, q).contains(p) by {
                lemma_step_covers(entries, before, reply@, p);
            }
            lemma_step_shrinks(before, reply@, 3);
            if before.pending.last().depth() <= 2 {
                lemma_step_shrinks(before, reply@, 2);
            }
            if before.pending.last().depth() <= 1 {
                lemma_step_shrinks(before, reply@, 1);
            }
        }
    }
    let ghost last = search@;
    let r = search.finish();
    proof {
        if well_formed(paths_view(index.files@)) {
            lemma_search_is_scan(paths_view(index.files@), q);
        }
    }
    assert forall|p: Seq<Seq<u8>>|
        paths_view(r@).contains(p) <==> candidates(entries, q).contains(p) by {
        assert(covered(entries, last, p) <==> last.found.contains(p));
    }
    r
}

} // verus!
