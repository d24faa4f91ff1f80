//! What a search reaches.
//!
//! An index is taken as the set of the paths that exist in it. The paths
//! that a query leads to are stated over that set, and a search that gets
//! true answers is shown to find exactly those, and to end.

use vstd::prelude::*;
use crate::fuzzy::fuzzy_starts_with;
use crate::list::{
    begun, children, listed, matching, places, prefixes_of, request_of, step, PrefixView,
    ReplyView, SearchView,
};
use crate::path::{lemma_add_contains, lemma_last_contains};

verus! {

/// An index as the set of the paths that exist in it. With a path it holds
/// every directory above it.
pub open spec fn closed(entries: Set<Seq<Seq<u8>>>) -> bool {
    forall|p: Seq<Seq<u8>>, k: int|
        #![trigger entries.contains(p.take(k))]
        entries.contains(p) && 0 <= k <= p.len() ==> entries.contains(p.take(k))
}

/// The path `p` is one that the place `place` leads to: it exists, it lies
/// as deep below the base as the place reaches, the directories on the way
/// pass the filters of the place, and the name of the entry begins with the
/// query.
pub open spec fn finds(
    entries: Set<Seq<Seq<u8>>>,
    query: Seq<u8>,
    place: PrefixView,
    p: Seq<Seq<u8>>,
) -> bool {
    &&& p.len() == place.base().len() + place.depth()
    &&& p.take(place.base().len() as int) == place.base()
    &&& entries.contains(p)
    &&& fuzzy_starts_with(p.last(), query)
    &&& place.depth() >= 2 ==> fuzzy_starts_with(p[place.base().len() as int], place.filter())
    &&& place.depth() >= 3 ==> fuzzy_starts_with(
        p[place.base().len() as int + 1],
        place.inner(),
    )
}

/// The paths that a query leads to in an index: those that one of its
/// places leads to.
pub open spec fn candidates(entries: Set<Seq<Seq<u8>>>, query: Seq<u8>) -> Set<Seq<Seq<u8>>> {
    Set::new(
        |p: Seq<Seq<u8>>|
            exists|place: PrefixView|
                prefixes_of(query).contains(place) && finds(entries, query, place, p),
    )
}

/// The path `p` is found already, or one of the pending places leads to it.
pub open spec fn covered(entries: Set<Seq<Seq<u8>>>, s: SearchView, p: Seq<Seq<u8>>) -> bool {
    s.found.contains(p) || exists|place: PrefixView|
        s.pending.contains(place) && finds(entries, s.query, place, p)
}

/// The names `names` are those of the entries of the directory `dir`.
pub open spec fn lists(entries: Set<Seq<Seq<u8>>>, dir: Seq<Seq<u8>>, names: Seq<Seq<u8>>) -> bool {
    forall|e: Seq<u8>| names.contains(e) <==> entries.contains(#[trigger] dir.push(e))
}

/// The reply is the true answer, in the index `entries`, to the request for
/// the entries of the directory `dir`.
pub open spec fn answers(entries: Set<Seq<Seq<u8>>>, dir: Seq<Seq<u8>>, reply: ReplyView) -> bool {
    lists(entries, dir, listed(reply))
}

/// A name is among the matching names exactly when it is listed and begins
/// with the filter.
pub proof fn lemma_matching_contains(names: Seq<Seq<u8>>, filter: Seq<u8>, e: Seq<u8>)
    ensures
        matching(names, filter).contains(e) == (names.contains(e) && fuzzy_starts_with(e, filter)),
    decreases names.len(),
{
    if names.len() > 0 {
        let init = names.drop_last();
        lemma_matching_contains(init, filter, e);
        if names.contains(e) {
            let i = choose|i: int| 0 <= i < names.len() && names[i] == e;
            if i < names.len() - 1 {
                assert(init[i] == e);
            }
        }
        if init.contains(e) {
            let i = choose|i: int| 0 <= i < init.len() && init[i] == e;
            assert(names[i] == e);
        }
        assert(names[names.len() - 1] == names.last());
        if fuzzy_starts_with(names.last(), filter) {
            let m = matching(init, filter);
            assert(m.push(names.last())[m.len() as int] == names.last());
            if m.push(names.last()).contains(e) {
                let i = choose|i: int| 0 <= i < m.len() + 1 && m.push(names.last())[i] == e;
                if i < m.len() {
                    assert(m[i] == e);
                }
            }
            if m.contains(e) {
                let i = choose|i: int| 0 <= i < m.len() && m[i] == e;
                assert(m.push(names.last())[i] == e);
            }
        }
    }
}

proof fn lemma_children_contains(base: Seq<Seq<u8>>, names: Seq<Seq<u8>>, p: Seq<Seq<u8>>)
    ensures
        children(base, names).contains(p) == (exists|e: Seq<u8>|
            names.contains(e) && p == #[trigger] base.push(e)),
{
    let c = children(base, names);
    if c.contains(p) {
        let i = choose|i: int| 0 <= i < c.len() && c[i] == p;
        assert(names.contains(names[i]) && p == base.push(names[i]));
    }
    if exists|e: Seq<u8>| names.contains(e) && p == #[trigger] base.push(e) {
        let e = choose|e: Seq<u8>| names.contains(e) && p == #[trigger] base.push(e);
        let i = choose|i: int| 0 <= i < names.len() && names[i] == e;
        assert(c[i] == p);
    }
}

proof fn lemma_places_contains(
    paths: Seq<Seq<Seq<u8>>>,
    deep: bool,
    inner: Seq<u8>,
    place: PrefixView,
)
    ensures
        places(paths, deep, inner).contains(place) == (paths.contains(place.base()) && place
            == if deep {
            PrefixView::RecurseMatching1(place.base(), inner)
        } else {
            PrefixView::List(place.base())
        }),
{
    let c = places(paths, deep, inner);
    if c.contains(place) {
        let i = choose|i: int| 0 <= i < c.len() && c[i] == place;
        assert(paths[i] == place.base());
    }
    if paths.contains(place.base()) && place == if deep {
        PrefixView::RecurseMatching1(place.base(), inner)
    } else {
        PrefixView::List(place.base())
    } {
        let i = choose|i: int| 0 <= i < paths.len() && paths[i] == place.base();
        assert(c[i] == place);
    }
}

/// What the last pending place leads to is what its answer adds: the paths
/// found, and what the new places lead to.
proof fn lemma_place_unfolds(
    entries: Set<Seq<Seq<u8>>>,
    s: SearchView,
    reply: ReplyView,
    p: Seq<Seq<u8>>,
)
    requires
        closed(entries),
        s.pending.len() > 0,
        answers(entries, request_of(s)->0, reply),
    ensures
        finds(entries, s.query, s.pending.last(), p) == (if s.pending.last().depth() == 1 {
            children(s.pending.last().base(), matching(listed(reply), s.query)).contains(p)
        } else {
            exists|next: PrefixView|
                places(
                    children(
                        s.pending.last().base(),
                        matching(listed(reply), s.pending.last().filter()),
                    ),
                    s.pending.last().depth() == 3,
                    s.pending.last().inner(),
                ).contains(next) && finds(entries, s.query, next, p)
        }),
{
    let place = s.pending.last();
    let d = place.base();
    let n = d.len() as int;
    assert(lists(entries, d, listed(reply)));
    if place.depth() == 1 {
        let sel = matching(listed(reply), s.query);
        lemma_children_contains(d, sel, p);
        if finds(entries, s.query, place, p) {
            let e = p.last();
            assert(p =~= d.push(e));
            lemma_matching_contains(listed(reply), s.query, e);
            assert(entries.contains(d.push(e)));
            assert(listed(reply).contains(e));
            assert(sel.contains(e) && p == d.push(e));
        }
        if children(d, sel).contains(p) {
            let e = choose|e: Seq<u8>| sel.contains(e) && p == #[trigger] d.push(e);
            lemma_matching_contains(listed(reply), s.query, e);
            assert(p.take(n) =~= d);
            assert(p.last() == e);
        }
    } else {
        let deep = place.depth() == 3;
        let sel = matching(listed(reply), place.filter());
        let kids = children(d, sel);
        let new = places(kids, deep, place.inner());
        if finds(entries, s.query, place, p) {
            let e = p[n];
            let q = d.push(e);
            assert(q =~= p.take(n + 1));
            assert(entries.contains(p.take(n + 1)));
            lemma_matching_contains(listed(reply), place.filter(), e);
            lemma_children_contains(d, sel, q);
            assert(sel.contains(e) && q == d.push(e));
            let next = if deep {
                PrefixView::RecurseMatching1(q, place.inner())
            } else {
                PrefixView::List(q)
            };
            lemma_places_contains(kids, deep, place.inner(), next);
            assert(new.contains(next) && finds(entries, s.query, next, p));
        }
        if exists|next: PrefixView| new.contains(next) && finds(entries, s.query, next, p) {
            let next = choose|next: PrefixView|
                new.contains(next) && finds(entries, s.query, next, p);
            let q = next.base();
            lemma_places_contains(kids, deep, place.inner(), next);
            lemma_children_contains(d, sel, q);
            let e = choose|e: Seq<u8>| sel.contains(e) && q == #[trigger] d.push(e);
            lemma_matching_contains(listed(reply), place.filter(), e);
            assert(p.take(n + 1) == q);
            assert(p.take(n) =~= p.take(n + 1).take(n));
            assert(q.take(n) =~= d);
            assert(p[n] == p.take(n + 1)[n]);
        }
    }
}

/// A true answer loses nothing and adds nothing: a path is found, or a
/// pending place leads to it, after the step exactly when that held before.
pub proof fn lemma_step_covers(
    entries: Set<Seq<Seq<u8>>>,
    s: SearchView,
    reply: ReplyView,
    p: Seq<Seq<u8>>,
)
    requires
        closed(entries),
        s.pending.len() > 0,
        answers(entries, request_of(s)->0, reply),
    ensures
        covered(entries, step(s, reply), p) == covered(entries, s, p),
{
    let place = s.pending.last();
    let rest = s.pending.drop_last();
    let after = step(s, reply);
    let new = places(
        children(place.base(), matching(listed(reply), place.filter())),
        place.depth() == 3,
        place.inner(),
    );
    let kids = children(place.base(), matching(listed(reply), s.query));
    lemma_place_unfolds(entries, s, reply, p);
    assert forall|x: PrefixView| s.pending.contains(x) == (rest.contains(x) || x == place) by {
        lemma_last_contains(s.pending, x);
    }
    if place.depth() == 1 {
        lemma_add_contains(s.found, kids, p);
        assert(after.pending == rest);
    } else {
        assert(after.pending == rest + new);
        assert(after.found == s.found);
    }
    if covered(entries, s, p) {
        if s.found.contains(p) {
            assert(after.found.contains(p));
        } else {
            let x = choose|x: PrefixView|
                s.pending.contains(x) && finds(entries, s.query, x, p);
            if x != place {
                if place.depth() >= 2 {
                    lemma_add_contains(rest, new, x);
                }
                assert(after.pending.contains(x));
            } else if place.depth() == 1 {
                assert(after.found.contains(p));
            } else {
                let next = choose|next: PrefixView|
                    new.contains(next) && finds(entries, s.query, next, p);
                lemma_add_contains(rest, new, next);
                assert(after.pending.contains(next));
            }
        }
        assert(covered(entries, after, p));
    }
    if covered(entries, after, p) {
        if after.found.contains(p) {
            assert(s.found.contains(p) || finds(entries, s.query, place, p));
        } else {
            let x = choose|x: PrefixView|
                after.pending.contains(x) && finds(entries, s.query, x, p);
            if place.depth() >= 2 {
                lemma_add_contains(rest, new, x);
                if !rest.contains(x) {
                    assert(finds(entries, s.query, place, p));
                }
            }
            assert(rest.contains(x) || finds(entries, s.query, place, p));
            if rest.contains(x) {
                assert(s.pending.contains(x));
            }
        }
        assert(s.pending.contains(place));
        assert(covered(entries, s, p));
    }
}

/// How many of the pending places reach `k` levels below their base.
pub open spec fn count_depth(pending: Seq<PrefixView>, k: nat) -> nat
    decreases pending.len(),
{
    if pending.len() == 0 {
        0
    } else if pending.last().depth() == k {
        count_depth(pending.drop_last(), k) + 1
    } else {
        count_depth(pending.drop_last(), k)
    }
}

proof fn lemma_count_add(a: Seq<PrefixView>, b: Seq<PrefixView>, k: nat)
    ensures
        count_depth(a + b, k) == count_depth(a, k) + count_depth(b, k),
    decreases b.len(),
{
    if b.len() == 0 {
        assert(a + b =~= a);
    } else {
        assert((a + b).drop_last() =~= a + b.drop_last());
        assert((a + b).last() == b.last());
        lemma_count_add(a, b.drop_last(), k);
    }
}

proof fn lemma_count_places(paths: Seq<Seq<Seq<u8>>>, deep: bool, inner: Seq<u8>, k: nat)
    ensures
        count_depth(places(paths, deep, inner), k) == if k == (if deep {
            2nat
        } else {
            1nat
        }) {
            paths.len()
        } else {
            0
        },
    decreases paths.len(),
{
    if paths.len() > 0 {
        assert(places(paths, deep, inner).drop_last() =~= places(paths.drop_last(), deep, inner));
        lemma_count_places(paths.drop_last(), deep, inner, k);
    }
}

/// A step takes away one place, and the places that it adds reach less deep:
/// of the places as deep as the one taken away there is one fewer, and of
/// the deeper ones as many as before. So a search ends.
pub proof fn lemma_step_shrinks(s: SearchView, reply: ReplyView, k: nat)
    requires
        s.pending.len() > 0,
        k >= s.pending.last().depth(),
    ensures
        count_depth(step(s, reply).pending, k) == if k == s.pending.last().depth() {
            count_depth(s.pending, k) - 1
        } else {
            count_depth(s.pending, k) as int
        },
{
    let place = s.pending.last();
    let rest = s.pending.drop_last();
    if place.depth() >= 2 {
        let kids = children(place.base(), matching(listed(reply), place.filter()));
        let new = places(kids, place.depth() == 3, place.inner());
        lemma_count_add(rest, new, k);
        lemma_count_places(kids, place.depth() == 3, place.inner(), k);
    }
}

/// A search for a query after the replies given, one to each of its
/// requests.
pub open spec fn told(query: Seq<u8>, replies: Seq<ReplyView>) -> SearchView
    decreases replies.len(),
{
    if replies.len() == 0 {
        begun(query)
    } else {
        step(told(query, replies.drop_last()), replies.last())
    }
}

/// Each of the replies is the true answer to the request that it replies
/// to.
pub open spec fn truthful(entries: Set<Seq<Seq<u8>>>, query: Seq<u8>, replies: Seq<ReplyView>) -> bool
    decreases replies.len(),
{
    replies.len() == 0 || {
        let before = told(query, replies.drop_last());
        &&& truthful(entries, query, replies.drop_last())
        &&& before.pending.len() > 0
        &&& answers(entries, request_of(before)->0, replies.last())
    }
}

/// Before anything is looked at, the places of the query lead to all that
/// the query leads to.
pub proof fn lemma_begun_covers(entries: Set<Seq<Seq<u8>>>, query: Seq<u8>, p: Seq<Seq<u8>>)
    ensures
        covered(entries, begun(query), p) == candidates(entries, query).contains(p),
{
    let s = begun(query);
    assert(!s.found.contains(p));
    if covered(entries, s, p) {
        let place = choose|place: PrefixView|
            s.pending.contains(place) && finds(entries, s.query, place, p);
        assert(prefixes_of(query).contains(place) && finds(entries, query, place, p));
    }
    if candidates(entries, query).contains(p) {
        let place = choose|place: PrefixView|
            prefixes_of(query).contains(place) && finds(entries, query, place, p);
        assert(s.pending.contains(place) && finds(entries, s.query, place, p));
    }
}

proof fn lemma_told_covers(
    entries: Set<Seq<Seq<u8>>>,
    query: Seq<u8>,
    replies: Seq<ReplyView>,
    p: Seq<Seq<u8>>,
)
    requires
        closed(entries),
        truthful(entries, query, replies),
    ensures
        covered(entries, told(query, replies), p) == candidates(entries, query).contains(p),
    decreases replies.len(),
{
    if replies.len() == 0 {
        lemma_begun_covers(entries, query, p);
    } else {
        lemma_told_covers(entries, query, replies.drop_last(), p);
        lemma_step_covers(entries, told(query, replies.drop_last()), replies.last(), p);
    }
}

/// A search that gets a true answer to each of its requests, and has no
/// place left to look at, has found the paths that the query leads to, and
/// no others.
pub proof fn lemma_search_finds_candidates(
    entries: Set<Seq<Seq<u8>>>,
    query: Seq<u8>,
    replies: Seq<ReplyView>,
)
    requires
        closed(entries),
        truthful(entries, query, replies),
        told(query, replies).pending.len() == 0,
    ensures
        forall|p: Seq<Seq<u8>>|
            told(query, replies).found.contains(p) <==> candidates(entries, query).contains(p),
{
    assert forall|p: Seq<Seq<u8>>|
        told(query, replies).found.contains(p) <==> candidates(entries, query).contains(p) by {
        lemma_told_covers(entries, query, replies, p);
    }
}

/// The empty query leads nowhere: a search for it asks nothing, and no path
/// is one that it leads to.
pub proof fn lemma_empty_query(entries: Set<Seq<Seq<u8>>>)
    ensures
        prefixes_of(Seq::empty()).len() == 0,
        request_of(begun(Seq::empty())).is_none(),
        candidates(entries, Seq::empty()) == Set::<Seq<Seq<u8>>>::empty(),
{
    assert forall|p: Seq<Seq<u8>>| !candidates(entries, Seq::empty()).contains(p) by {
        assert forall|place: PrefixView| !prefixes_of(Seq::empty()).contains(place) by {}
    }
    assert(candidates(entries, Seq::empty()) =~= Set::<Seq<Seq<u8>>>::empty());
}

} // verus!
