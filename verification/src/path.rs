//! Strings of bytes and lists of them. A path inside the index is the list
//! of its segments, counted from the root of the index, and a segment is a
//! string of bytes.

use vstd::prelude::*;

verus! {

/// What a list of strings of bytes stands for: the segments of a path,
/// outermost first, or the pieces of a text.
pub open spec fn path_view(p: Seq<Vec<u8>>) -> Seq<Seq<u8>> {
    Seq::new(p.len(), |i: int| p[i]@)
}

/// What a list of paths stands for.
pub open spec fn paths_view(ps: Seq<Vec<Vec<u8>>>) -> Seq<Seq<Seq<u8>>> {
    Seq::new(ps.len(), |i: int| path_view(ps[i]@))
}

/// A copy of a string of bytes.
pub fn copy_name(name: &[u8]) -> (r: Vec<u8>)
    ensures
        r@ == name@,
{
    let mut r: Vec<u8> = Vec::new();
    let mut i: usize = 0;
    while i < name.len()
        invariant
            i <= name@.len(),
            r@ == name@.take(i as int),
        decreases name@.len() - i,
    {
        r.push(name[i]);
        assert(name@.take(i + 1) =~= name@.take(i as int).push(name@[i as int]));
        i += 1;
    }
    assert(name@.take(name@.len() as int) =~= name@);
    r
}

/// A copy of a path.
pub fn copy_path(path: &Vec<Vec<u8>>) -> (r: Vec<Vec<u8>>)
    ensures
        path_view(r@) == path_view(path@),
{
    let mut r: Vec<Vec<u8>> = Vec::new();
    let mut i: usize = 0;
    while i < path.len()
        invariant
            i <= path@.len(),
            r@.len() == i,
            forall|j: int| 0 <= j < i ==> r@[j]@ == path@[j]@,
        decreases path@.len() - i,
    {
        r.push(copy_name(path[i].as_slice()));
        i += 1;
    }
    assert(path_view(r@) =~= path_view(path@));
    r
}

/// The path of the entry `name` in the directory `base`.
pub fn child(base: &Vec<Vec<u8>>, name: &[u8]) -> (r: Vec<Vec<u8>>)
    ensures
        path_view(r@) == path_view(base@).push(name@),
{
    let mut r: Vec<Vec<u8>> = copy_path(base);
    let ghost before = r@;
    r.push(copy_name(name));
    assert(path_view(r@) =~= path_view(before).push(name@));
    r
}

/// Whether two strings of bytes are the same.
pub fn same_name(a: &[u8], b: &[u8]) -> (r: bool)
    ensures
        r == (a@ == b@),
{
    if a.len() != b.len() {
        return false;
    }
    let mut i: usize = 0;
    while i < a.len()
        invariant
            a@.len() == b@.len(),
            i <= a@.len(),
            forall|j: int| 0 <= j < i ==> a@[j] == b@[j],
        decreases a@.len() - i,
    {
        if a[i] != b[i] {
            return false;
        }
        i += 1;
    }
    assert(a@ =~= b@);
    true
}

/// Whether two paths are the same.
pub fn same_path(a: &Vec<Vec<u8>>, b: &Vec<Vec<u8>>) -> (r: bool)
    ensures
        r == (path_view(a@) == path_view(b@)),
{
    if a.len() != b.len() {
        assert(path_view(a@).len() != path_view(b@).len());
        return false;
    }
    let mut i: usize = 0;
    while i < a.len()
        invariant
            a@.len() == b@.len(),
            i <= a@.len(),
            forall|j: int| 0 <= j < i ==> a@[j]@ == b@[j]@,
        decreases a@.len() - i,
    {
        if !same_name(a[i].as_slice(), b[i].as_slice()) {
            assert(path_view(a@)[i as int] != path_view(b@)[i as int]);
            return false;
        }
        i += 1;
    }
    assert(path_view(a@) =~= path_view(b@));
    true
}

/// The pieces of a text between the bytes `sep` in it: one more than it has
/// of them.
pub open spec fn pieces(text: Seq<u8>, sep: u8) -> Seq<Seq<u8>>
    decreases text.len(),
{
    if text.len() == 0 {
        seq![Seq::empty()]
    } else if text.last() == sep {
        pieces(text.drop_last(), sep).push(Seq::empty())
    } else {
        let before = pieces(text.drop_last(), sep);
        before.drop_last().push(before.last().push(text.last()))
    }
}

/// The pieces of a text between the bytes `sep` in it.
pub fn split(text: &[u8], sep: u8) -> (r: Vec<Vec<u8>>)
    ensures
        path_view(r@) == pieces(text@, sep),
{
    let mut done: Vec<Vec<u8>> = Vec::new();
    let mut current: Vec<u8> = Vec::new();
    let mut i: usize = 0;
    assert(path_view(done@).push(current@) =~= pieces(text@.take(0), sep));
    while i < text.len()
        invariant
            i <= text@.len(),
            pieces(text@.take(i as int), sep) == path_view(done@).push(current@),
        decreases text@.len() - i,
    {
        let ghost before = path_view(done@);
        let ghost piece = current@;
        assert(text@.take(i + 1).drop_last() =~= text@.take(i as int));
        assert(before.push(piece).drop_last() =~= before);
        if text[i] == sep {
            done.push(current);
            current = Vec::new();
            assert(path_view(done@) =~= before.push(piece));
        } else {
            current.push(text[i]);
        }
        i += 1;
    }
    assert(text@.take(i as int) =~= text@);
    let ghost before = path_view(done@);
    done.push(current);
    assert(path_view(done@) =~= before.push(current@));
    done
}

/// What two lists hold together is what one of them holds.
pub proof fn lemma_add_contains<A>(a: Seq<A>, b: Seq<A>, x: A)
    ensures
        (a + b).contains(x) == (a.contains(x) || b.contains(x)),
{
    let c = a + b;
    if c.contains(x) {
        let i = choose|i: int| 0 <= i < c.len() && c[i] == x;
        if i < a.len() {
            assert(a[i] == x);
        } else {
            assert(b[i - a.len()] == x);
        }
    }
    if a.contains(x) {
        let i = choose|i: int| 0 <= i < a.len() && a[i] == x;
        assert(c[i] == x);
    }
    if b.contains(x) {
        let i = choose|i: int| 0 <= i < b.len() && b[i] == x;
        assert(c[a.len() + i] == x);
    }
}

/// What a list holds is its last element or held by the rest.
pub proof fn lemma_last_contains<A>(a: Seq<A>, x: A)
    requires
        a.len() > 0,
    ensures
        a.contains(x) == (a.drop_last().contains(x) || x == a.last()),
{
    assert(a =~= a.drop_last() + seq![a.last()]);
    lemma_add_contains(a.drop_last(), seq![a.last()], x);
    if seq![a.last()].contains(x) {
        let i = choose|i: int| 0 <= i < 1 && seq![a.last()][i] == x;
    }
    assert(seq![a.last()][0] == a.last());
}

} // verus!
