//! The filter of a walk over the whole index: which paths a walk that looks
//! for a query has to visit.

use vstd::prelude::*;
use vstd::slice::slice_subrange;
use vstd::string::StringSliceAdditionalSpecFns;
use crate::fuzzy::{eq_bytes, fuzzy_eq, fuzzy_starts_with, starts_with_bytes};
use crate::list::{dir_one, dir_three, dir_two};
use crate::path::{copy_name, path_view, pieces, split};
use crate::shard::shard_path;

verus! {

/// The pieces that are not empty, in their order.
pub open spec fn nonempty(pieces: Seq<Seq<u8>>) -> Seq<Seq<u8>>
    decreases pieces.len(),
{
    if pieces.len() == 0 {
        Seq::empty()
    } else if pieces.last().len() == 0 {
        nonempty(pieces.drop_last())
    } else {
        nonempty(pieces.drop_last()).push(pieces.last())
    }
}

/// The segments of a path below its first: what stands between its slashes,
/// without the directory that the walk began at.
pub open spec fn components(path: Seq<u8>) -> Seq<Seq<u8>> {
    let all = nonempty(pieces(path, 0x2f));
    if all.len() == 0 {
        all
    } else {
        all.drop_first()
    }
}

/// A name and a query agree as far as both reach.
pub open spec fn agrees(name: Seq<u8>, query: Seq<u8>) -> bool {
    if name.len() <= query.len() {
        fuzzy_eq(name, query.take(name.len() as int))
    } else {
        fuzzy_eq(name.take(query.len() as int), query)
    }
}

/// A walk that looks for the names that begin with `query` has to visit the
/// path with the segments `segments`. It visits nothing for the empty
/// query. It visits the root; the directory of the names of one, two or
/// three bytes where the query is no longer than they are; a directory of
/// the index whose name agrees with the query; and a file whose name begins
/// with the query.
pub open spec fn visits(query: Seq<u8>, segments: Seq<Seq<u8>>) -> bool {
    if query.len() == 0 {
        false
    } else if segments.len() == 0 {
        true
    } else if segments.len() == 1 {
        let a = segments[0];
        if a == dir_one() {
            query.len() <= 1
        } else if a == dir_two() {
            query.len() <= 2
        } else if a == dir_three() {
            query.len() <= 3
        } else {
            a.len() == 2 && agrees(a, query)
        }
    } else if segments.len() == 2 {
        let a = segments[0];
        let b = segments[1];
        if a == dir_three() {
            query.len() <= 3 && b.len() == 1 && agrees(b, query)
        } else if a == dir_one() || a == dir_two() {
            fuzzy_starts_with(b, query)
        } else {
            a.len() == 2 && b.len() == 2 && agrees(a + b, query)
        }
    } else if segments.len() == 3 {
        fuzzy_starts_with(segments[2], query)
    } else {
        false
    }
}

/// The segments of a path below its first.
pub fn segments(path: &[u8]) -> (r: Vec<Vec<u8>>)
    ensures
        path_view(r@) == components(path@),
{
    let raw: Vec<Vec<u8>> = split(path, 0x2f);
    let ghost all = path_view(raw@);
    let mut r: Vec<Vec<u8>> = Vec::new();
    let mut first: bool = true;
    let mut i: usize = 0;
    assert(all.take(0) =~= Seq::empty());
    assert(path_view(r@) =~= Seq::empty());
    while i < raw.len()
        invariant
            i <= raw@.len(),
            all == path_view(raw@),
            first == (nonempty(all.take(i as int)).len() == 0),
            !first ==> path_view(r@) == nonempty(all.take(i as int)).drop_first(),
            first ==> r@.len() == 0,
        decreases raw@.len() - i,
    {
        assert(all.take(i + 1).drop_last() =~= all.take(i as int));
        assert(all.take(i + 1).last() == raw@[i as int]@);
        if raw[i].len() > 0 {
            if first {
                first = false;
                assert(nonempty(all.take(i + 1)).drop_first() =~= Seq::<Seq<u8>>::empty());
                assert(path_view(r@) =~= Seq::<Seq<u8>>::empty());
            } else {
                let ghost before = path_view(r@);
                r.push(copy_name(raw[i].as_slice()));
                assert(path_view(r@) =~= before.push(all[i as int]));
                assert(path_view(r@) =~= nonempty(all.take(i + 1)).drop_first());
            }
        }
        i += 1;
    }
    assert(all.take(i as int) =~= all);
    assert(path_view(r@) =~= components(path@));
    r
}

/// Whether a name and a query agree as far as both reach.
pub fn agree(name: &[u8], query: &[u8]) -> (r: bool)
    ensures
        r == agrees(name@, query@),
{
    if name.len() <= query.len() {
        let head: &[u8] = slice_subrange(query, 0, name.len());
        assert(head@ =~= query@.take(name@.len() as int));
        eq_bytes(name, head)
    } else {
        let head: &[u8] = slice_subrange(name, 0, query.len());
        assert(head@ =~= name@.take(query@.len() as int));
        eq_bytes(head, query)
    }
}

fn is_dir(name: &[u8], digit: u8) -> (r: bool)
    ensures
        r == (name@ == seq![digit]),
{
    if name.len() == 1 && name[0] == digit {
        assert(name@ =~= seq![digit]);
        true
    } else {
        assert(seq![digit].len() == 1 && seq![digit][0] == digit);
        false
    }
}

/// Whether a walk that looks for `query` has to visit the path with the
/// segments given.
pub fn visit(query: &[u8], segments: &Vec<Vec<u8>>) -> (r: bool)
    ensures
        r == visits(query@, path_view(segments@)),
{
    let n: usize = query.len();
    if n == 0 {
        return false;
    }
    if segments.len() == 0 {
        true
    } else if segments.len() == 1 {
        let a: &[u8] = segments[0].as_slice();
        if is_dir(a, 0x31) {
            n <= 1
        } else if is_dir(a, 0x32) {
            n <= 2
        } else if is_dir(a, 0x33) {
            n <= 3
        } else {
            a.len() == 2 && agree(a, query)
        }
    } else if segments.len() == 2 {
        let a: &[u8] = segments[0].as_slice();
        let b: &[u8] = segments[1].as_slice();
        if is_dir(a, 0x33) {
            n <= 3 && b.len() == 1 && agree(b, query)
        } else if is_dir(a, 0x31) || is_dir(a, 0x32) {
            starts_with_bytes(b, query)
        } else if a.len() == 2 && b.len() == 2 {
            let mut both: Vec<u8> = Vec::new();
            both.push(a[0]);
            both.push(a[1]);
            both.push(b[0]);
            both.push(b[1]);
            assert(both@ =~= a@ + b@);
            agree(both.as_slice(), query)
        } else {
            false
        }
    } else if segments.len() == 3 {
        starts_with_bytes(segments[2].as_slice(), query)
    } else {
        false
    }
}

/// Whether a walk that looks for `query` has to visit `path`, which begins
/// with the directory that the walk began at.
pub fn matches(query: &str, path: &str) -> (r: bool)
    ensures
        r == visits(query.spec_bytes(), components(path.spec_bytes())),
{
    let below: Vec<Vec<u8>> = segments(path.as_bytes());
    visit(query.as_bytes(), &below)
}

/// A walk misses no file: where the name of a package begins with the
/// query, the walk visits its file and every directory above it.
pub proof fn lemma_walk_reaches(query: Seq<u8>, name: Seq<u8>, k: int)
    requires
        query.len() > 0,
        fuzzy_starts_with(name, query),
        0 <= k <= shard_path(name).len(),
    ensures
        visits(query, shard_path(name).take(k)),
{
    let path = shard_path(name);
    let segments = path.take(k);
    let q = query.len() as int;
    assert(fuzzy_eq(name.subrange(0, q), query));
    assert forall|i: int| 0 <= i < q implies crate::fuzzy::byte_matches(name[i], query[i]) by {
        assert(name.subrange(0, q)[i] == name[i]);
    }
    assert(dir_one().len() == 1 && dir_two().len() == 1 && dir_three().len() == 1);
    assert(dir_one()[0] != dir_two()[0] && dir_one()[0] != dir_three()[0] && dir_two()[0]
        != dir_three()[0]);
    if k == 1 {
        if name.len() > 3 {
            let a = name.subrange(0, 2);
            if a.len() <= q {
                assert forall|i: int| 0 <= i < a.len() implies crate::fuzzy::byte_matches(
                    #[trigger] a[i],
                    query.take(a.len() as int)[i],
                ) by {
                    assert(crate::fuzzy::byte_matches(name[i], query[i]));
                }
            } else {
                assert forall|i: int| 0 <= i < q implies crate::fuzzy::byte_matches(
                    #[trigger] a.take(q)[i],
                    query[i],
                ) by {
                    assert(crate::fuzzy::byte_matches(name[i], query[i]));
                }
            }
        }
    } else if k == 2 {
        if name.len() == 3 {
            let b = name.subrange(0, 1);
            assert forall|i: int| 0 <= i < b.len() implies crate::fuzzy::byte_matches(
                #[trigger] b[i],
                query.take(b.len() as int)[i],
            ) by {
                assert(crate::fuzzy::byte_matches(name[i], query[i]));
            }
        } else if name.len() > 3 {
            let ab = name.subrange(0, 2) + name.subrange(2, 4);
            assert(ab =~= name.subrange(0, 4));
            if ab.len() <= q {
                assert forall|i: int| 0 <= i < ab.len() implies crate::fuzzy::byte_matches(
                    #[trigger] ab[i],
                    query.take(ab.len() as int)[i],
                ) by {
                    assert(crate::fuzzy::byte_matches(name[i], query[i]));
                }
            } else {
                assert forall|i: int| 0 <= i < q implies crate::fuzzy::byte_matches(
                    #[trigger] ab.take(q)[i],
                    query[i],
                ) by {
                    assert(crate::fuzzy::byte_matches(name[i], query[i]));
                }
            }
        }
    }
}

} // verus!
