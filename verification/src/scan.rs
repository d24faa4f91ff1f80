//! The search against a scan of the whole index.
//!
//! A search looks into a few directories only. That it misses nothing is
//! stated here: in an index laid out as `shard_path` says, it finds the
//! files that a scan of every file would find.

use vstd::prelude::*;
use crate::fuzzy::{byte_matches, fuzzy_starts_with};
use crate::list::{dir_one, dir_three, dir_two, file_name, prefixes_of, PrefixView};
use crate::reach::{candidates, finds, lemma_empty_query};
use crate::shard::shard_path;
use crate::snapshot::entries_of;

verus! {

/// Every file of the index lies where the layout puts the package that it
/// is named after.
pub open spec fn well_formed(files: Seq<Seq<Seq<u8>>>) -> bool {
    forall|i: int|
        0 <= i < files.len() ==> file_name(#[trigger] files[i]).len() > 0 && files[i]
            == shard_path(file_name(files[i]))
}

/// What a scan of every file finds for a query: the files whose names begin
/// with it, and nothing for the empty query.
pub open spec fn scan(files: Seq<Seq<Seq<u8>>>, query: Seq<u8>) -> Set<Seq<Seq<u8>>> {
    Set::new(
        |p: Seq<Seq<u8>>|
            query.len() > 0 && files.contains(p) && fuzzy_starts_with(file_name(p), query),
    )
}

proof fn lemma_dirs_differ()
    ensures
        dir_one().len() == 1,
        dir_two().len() == 1,
        dir_three().len() == 1,
        dir_one() != dir_two(),
        dir_one() != dir_three(),
        dir_two() != dir_three(),
{
    assert(dir_one()[0] == 0x31 && dir_two()[0] == 0x32 && dir_three()[0] == 0x33);
}

/// Where a name begins with a query, a part of the name begins with the
/// part of the query that lies at the same place.
proof fn lemma_part_starts(name: Seq<u8>, query: Seq<u8>, a: int, b: int, c: int)
    requires
        fuzzy_starts_with(name, query),
        0 <= a <= c <= b <= name.len(),
        c <= query.len(),
    ensures
        fuzzy_starts_with(name.subrange(a, b), query.subrange(a, c)),
{
    let part = name.subrange(a, b);
    let head = query.subrange(a, c);
    assert forall|i: int| 0 <= i < c - a implies byte_matches(
        #[trigger] part.subrange(0, c - a)[i],
        head[i],
    ) by {
        assert(name.subrange(0, query.len() as int)[a + i] == name[a + i]);
        assert(byte_matches(name.subrange(0, query.len() as int)[a + i], query[a + i]));
    }
}

proof fn lemma_starts_with_nothing(name: Seq<u8>)
    ensures
        fuzzy_starts_with(name, Seq::empty()),
{
    assert(name.subrange(0, 0) =~= Seq::<u8>::empty());
}

/// What a search finds is a file whose name begins with the query.
proof fn lemma_candidate_is_file(files: Seq<Seq<Seq<u8>>>, query: Seq<u8>, p: Seq<Seq<u8>>)
    requires
        well_formed(files),
        query.len() > 0,
        candidates(entries_of(files), query).contains(p),
    ensures
        scan(files, query).contains(p),
{
    lemma_dirs_differ();
    let entries = entries_of(files);
    let place = choose|place: PrefixView|
        prefixes_of(query).contains(place) && finds(entries, query, place, p);
    let k = choose|k: int| 0 <= k < prefixes_of(query).len() && prefixes_of(query)[k] == place;
    let i = choose|i: int|
        0 <= i < files.len() && p.len() <= (#[trigger] files[i]).len() && files[i].take(
            p.len() as int,
        ) == p;
    let f = files[i];
    let n = file_name(f);
    assert(f == shard_path(n));
    assert(2 <= f.len() <= 3);
    assert(p.len() == 2 || p.len() == 3);
    assert(p.take(place.base().len() as int) == place.base());
    if p.len() == 2 {
        assert(p[0] == p.take(place.base().len() as int)[0]);
        assert(p[0] == dir_one() || p[0] == dir_two());
        assert(f[0] == f.take(2)[0]);
        if f.len() == 3 {
            if n.len() > 3 {
                assert(f[0].len() == 2);
            }
            assert(false);
        }
    }
    assert(f.len() == p.len());
    assert(f.take(p.len() as int) =~= f);
    assert(files.contains(p));
}

/// A search finds every file whose name begins with the query.
proof fn lemma_file_is_candidate(files: Seq<Seq<Seq<u8>>>, query: Seq<u8>, f: Seq<Seq<u8>>)
    requires
        well_formed(files),
        scan(files, query).contains(f),
    ensures
        candidates(entries_of(files), query).contains(f),
{
    lemma_dirs_differ();
    let entries = entries_of(files);
    let i = choose|i: int| 0 <= i < files.len() && files[i] == f;
    let n = file_name(f);
    let q = query.len();
    assert(f == shard_path(n));
    assert(f.take(f.len() as int) =~= f);
    assert(entries.contains(f));
    let places = prefixes_of(query);
    let k: int = if q == 1 {
        if n.len() == 1 {
            0
        } else if n.len() == 2 {
            1
        } else if n.len() == 3 {
            2
        } else {
            3
        }
    } else if q == 2 {
        if n.len() == 2 {
            0
        } else if n.len() == 3 {
            1
        } else {
            2
        }
    } else if q == 3 {
        if n.len() == 3 {
            0
        } else {
            1
        }
    } else {
        0
    };
    let place = places[k];
    let base = place.base();
    if n.len() == 3 {
        lemma_part_starts(n, query, 0, 1, 1);
        assert(query.subrange(0, 1) =~= place.filter());
    }
    if n.len() > 3 {
        let c: int = if q < 2 {
            1
        } else {
            2
        };
        lemma_part_starts(n, query, 0, 2, c);
        assert(query.subrange(0, c) =~= place.filter());
        if q > 2 {
            let m: int = if q < 4 {
                3
            } else {
                4
            };
            lemma_part_starts(n, query, 2, 4, m);
            assert(query.subrange(2, m) =~= place.inner());
        } else {
            lemma_starts_with_nothing(n.subrange(2, 4));
        }
    }
    assert(f.take(base.len() as int) =~= base);
    assert(finds(entries, query, place, f));
    assert(places.contains(place));
}

/// In an index laid out as `shard_path` says, a search leads to the files
/// that a scan of every file would find: those whose names begin with the
/// query, where `-` and `_` count as one, and none for the empty query.
pub proof fn lemma_search_is_scan(files: Seq<Seq<Seq<u8>>>, query: Seq<u8>)
    requires
        well_formed(files),
    ensures
        candidates(entries_of(files), query) == scan(files, query),
{
    if query.len() == 0 {
        lemma_empty_query(entries_of(files));
        assert(query =~= Seq::<u8>::empty());
        assert(scan(files, query) =~= Set::<Seq<Seq<u8>>>::empty());
    } else {
        assert forall|p: Seq<Seq<u8>>|
            candidates(entries_of(files), query).contains(p) == scan(files, query).contains(
                p,
            ) by {
            if candidates(entries_of(files), query).contains(p) {
                lemma_candidate_is_file(files, query, p);
            }
            if scan(files, query).contains(p) {
                lemma_file_is_candidate(files, query, p);
            }
        }
        assert(candidates(entries_of(files), query) =~= scan(files, query));
    }
}

} // verus!
