//! Comparison of package names in which `-` and `_` are interchangeable.

use std::cmp::Ordering;
use vstd::prelude::*;
use vstd::string::StringSliceAdditionalSpecFns;

verus! {

/// The two bytes that the index treats as one separator.
pub open spec fn is_separator(b: u8) -> bool {
    b == 0x2d || b == 0x5f
}

/// Two bytes match when they are equal or both are separators.
pub open spec fn byte_matches(a: u8, b: u8) -> bool {
    a == b || (is_separator(a) && is_separator(b))
}

/// Two names are equal up to separators: same length, and every pair of
/// bytes matches.
pub open spec fn fuzzy_eq(a: Seq<u8>, b: Seq<u8>) -> bool {
    &&& a.len() == b.len()
    &&& forall|i: int| 0 <= i < a.len() ==> byte_matches(#[trigger] a[i], b[i])
}

/// `a` begins with `prefix`, up to separators.
pub open spec fn fuzzy_starts_with(a: Seq<u8>, prefix: Seq<u8>) -> bool {
    &&& prefix.len() <= a.len()
    &&& fuzzy_eq(a.subrange(0, prefix.len() as int), prefix)
}

/// A byte with `_` replaced by `-`.
pub open spec fn fold_byte(b: u8) -> u8 {
    if b == 0x5f {
        0x2d
    } else {
        b
    }
}

/// The key by which names are ordered: the name with every `_` replaced by
/// `-`.
pub open spec fn key_of(name: Seq<u8>) -> Seq<u8> {
    Seq::new(name.len(), |i: int| fold_byte(name[i]))
}

/// Whether two bytes match, as `byte_matches` defines it.
pub fn byte_eq(a: u8, b: u8) -> (r: bool)
    ensures
        r == byte_matches(a, b),
{
    a == b || ((a == 0x2d || a == 0x5f) && (b == 0x2d || b == 0x5f))
}

/// Equality of two byte strings up to separators.
pub fn eq_bytes(a: &[u8], b: &[u8]) -> (r: bool)
    ensures
        r == fuzzy_eq(a@, b@),
{
    if a.len() != b.len() {
        return false;
    }
    let mut i: usize = 0;
    while i < a.len()
        invariant
            a@.len() == b@.len(),
            i <= a@.len(),
            forall|j: int| 0 <= j < i ==> byte_matches(#[trigger] a@[j], b@[j]),
        decreases a@.len() - i,
    {
        if !byte_eq(a[i], b[i]) {
            return false;
        }
        i += 1;
    }
    true
}

/// Whether `a` begins with `prefix`, up to separators.
pub fn starts_with_bytes(a: &[u8], prefix: &[u8]) -> (r: bool)
    ensures
        r == fuzzy_starts_with(a@, prefix@),
{
    if prefix.len() > a.len() {
        return false;
    }
    let mut i: usize = 0;
    while i < prefix.len()
        invariant
            prefix@.len() <= a@.len(),
            i <= prefix@.len(),
            forall|j: int| 0 <= j < i ==> byte_matches(#[trigger] a@[j], prefix@[j]),
        decreases prefix@.len() - i,
    {
        if !byte_eq(a[i], prefix[i]) {
            assert(a@.subrange(0, prefix@.len() as int)[i as int] == a@[i as int]);
            return false;
        }
        i += 1;
    }
    assert forall|j: int| 0 <= j < prefix@.len() implies byte_matches(
        #[trigger] a@.subrange(0, prefix@.len() as int)[j],
        prefix@[j],
    ) by {
        assert(byte_matches(a@[j], prefix@[j]));
    }
    true
}

/// Equality of two names up to separators, byte by byte.
pub fn eq(a: &str, b: &str) -> (r: bool)
    ensures
        r == fuzzy_eq(a.spec_bytes(), b.spec_bytes()),
{
    eq_bytes(a.as_bytes(), b.as_bytes())
}

/// Whether the name `a` begins with `b`, up to separators, byte by byte.
pub fn starts_with(a: &str, b: &str) -> (r: bool)
    ensures
        r == fuzzy_starts_with(a.spec_bytes(), b.spec_bytes()),
{
    starts_with_bytes(a.as_bytes(), b.as_bytes())
}

/// The lexicographic order of two strings of bytes from position `i` on:
/// negative, zero or positive as `a` comes before, with or after `b`. A
/// string that ends first comes first.
pub open spec fn lex_from(a: Seq<u8>, b: Seq<u8>, i: int) -> int
    decreases a.len() - i,
{
    if i < 0 {
        0
    } else if i >= a.len() && i >= b.len() {
        0
    } else if i >= a.len() {
        -1
    } else if i >= b.len() {
        1
    } else if a[i] < b[i] {
        -1
    } else if a[i] > b[i] {
        1
    } else {
        lex_from(a, b, i + 1)
    }
}

/// The order of two names: the lexicographic order of their sort keys.
pub open spec fn name_order(a: Seq<u8>, b: Seq<u8>) -> int {
    lex_from(key_of(a), key_of(b), 0)
}

/// `a` does not come after `b` in the order of names.
pub open spec fn name_le(a: Seq<u8>, b: Seq<u8>) -> bool {
    name_order(a, b) <= 0
}

/// A byte with `_` replaced by `-`.
pub fn fold(b: u8) -> (r: u8)
    ensures
        r == fold_byte(b),
{
    if b == 0x5f {
        0x2d
    } else {
        b
    }
}

/// The sort key of a name.
pub fn sort_key(name: &[u8]) -> (r: Vec<u8>)
    ensures
        r@ == key_of(name@),
{
    let mut r: Vec<u8> = Vec::new();
    let mut i: usize = 0;
    while i < name.len()
        invariant
            i <= name@.len(),
            r@.len() == i,
            forall|j: int| 0 <= j < i ==> r@[j] == fold_byte(name@[j]),
        decreases name@.len() - i,
    {
        r.push(fold(name[i]));
        i += 1;
    }
    assert(r@ =~= key_of(name@));
    r
}

/// The order of two names by their sort keys: -1, 0 or 1.
pub fn order_bytes(a: &[u8], b: &[u8]) -> (r: i8)
    ensures
        r == name_order(a@, b@),
{
    let mut i: usize = 0;
    while i < a.len() && i < b.len()
        invariant
            i <= a@.len(),
            i <= b@.len(),
            name_order(a@, b@) == lex_from(key_of(a@), key_of(b@), i as int),
        decreases a@.len() - i,
    {
        let x: u8 = fold(a[i]);
        let y: u8 = fold(b[i]);
        if x < y {
            return -1;
        }
        if x > y {
            return 1;
        }
        i += 1;
    }
    if i < b.len() {
        -1
    } else if i < a.len() {
        1
    } else {
        0
    }
}

/// The order in which two names are listed: that of their sort keys.
pub fn cmp(a: &str, b: &str) -> (r: Ordering)
    ensures
        (r == Ordering::Less) == (name_order(a.spec_bytes(), b.spec_bytes()) < 0),
        (r == Ordering::Equal) == (name_order(a.spec_bytes(), b.spec_bytes()) == 0),
        (r == Ordering::Greater) == (name_order(a.spec_bytes(), b.spec_bytes()) > 0),
{
    let o: i8 = order_bytes(a.as_bytes(), b.as_bytes());
    if o < 0 {
        Ordering::Less
    } else if o == 0 {
        Ordering::Equal
    } else {
        Ordering::Greater
    }
}

/// Two names are equal up to separators exactly when their sort keys are
/// the same.
pub proof fn lemma_eq_iff_same_key(a: Seq<u8>, b: Seq<u8>)
    ensures
        fuzzy_eq(a, b) == (key_of(a) == key_of(b)),
{
    if fuzzy_eq(a, b) {
        assert forall|i: int| 0 <= i < a.len() implies key_of(a)[i] == key_of(b)[i] by {
            assert(byte_matches(a[i], b[i]));
        }
        assert(key_of(a) =~= key_of(b));
    }
    if key_of(a) == key_of(b) {
        assert(key_of(a).len() == key_of(b).len());
        assert forall|i: int| 0 <= i < a.len() implies byte_matches(#[trigger] a[i], b[i]) by {
            assert(key_of(a)[i] == key_of(b)[i]);
        }
    }
}

/// Equality up to separators is reflexive, symmetric and transitive.
pub proof fn lemma_eq_equivalence(a: Seq<u8>, b: Seq<u8>, c: Seq<u8>)
    ensures
        fuzzy_eq(a, a),
        fuzzy_eq(a, b) == fuzzy_eq(b, a),
        fuzzy_eq(a, b) && fuzzy_eq(b, c) ==> fuzzy_eq(a, c),
{
    lemma_eq_iff_same_key(a, a);
    lemma_eq_iff_same_key(a, b);
    lemma_eq_iff_same_key(b, a);
    lemma_eq_iff_same_key(b, c);
    lemma_eq_iff_same_key(a, c);
}

proof fn lemma_lex_zero(a: Seq<u8>, b: Seq<u8>, i: int)
    requires
        0 <= i <= a.len(),
        i <= b.len(),
    ensures
        (lex_from(a, b, i) == 0) == (a.len() == b.len() && forall|j: int|
            i <= j < a.len() ==> a[j] == b[j]),
    decreases a.len() - i,
{
    if i < a.len() && i < b.len() {
        lemma_lex_zero(a, b, i + 1);
    }
}

/// Two names take the same place in the order exactly when they are equal
/// up to separators.
pub proof fn lemma_order_zero_iff_eq(a: Seq<u8>, b: Seq<u8>)
    ensures
        (name_order(a, b) == 0) == fuzzy_eq(a, b),
{
    lemma_lex_zero(key_of(a), key_of(b), 0);
    lemma_eq_iff_same_key(a, b);
    if name_order(a, b) == 0 {
        assert(key_of(a) =~= key_of(b));
    }
}

/// A name takes its own place in the order.
pub proof fn lemma_order_refl(a: Seq<u8>)
    ensures
        name_order(a, a) == 0,
{
    lemma_order_zero_iff_eq(a, a);
}

proof fn lemma_lex_flip(a: Seq<u8>, b: Seq<u8>, i: int)
    requires
        0 <= i,
    ensures
        lex_from(b, a, i) == -lex_from(a, b, i),
        -1 <= lex_from(a, b, i) <= 1,
    decreases a.len() - i,
{
    if i < a.len() && i < b.len() {
        lemma_lex_flip(a, b, i + 1);
    }
}

/// Swapping the two names reverses their order.
pub proof fn lemma_order_flip(a: Seq<u8>, b: Seq<u8>)
    ensures
        name_order(b, a) == -name_order(a, b),
        -1 <= name_order(a, b) <= 1,
{
    lemma_lex_flip(key_of(a), key_of(b), 0);
}

proof fn lemma_lex_trans(a: Seq<u8>, b: Seq<u8>, c: Seq<u8>, i: int)
    requires
        0 <= i,
        lex_from(a, b, i) <= 0,
        lex_from(b, c, i) <= 0,
    ensures
        lex_from(a, c, i) <= 0,
        lex_from(a, b, i) < 0 || lex_from(b, c, i) < 0 ==> lex_from(a, c, i) < 0,
    decreases a.len() - i,
{
    if i < a.len() && i < b.len() && i < c.len() {
        if a[i] == b[i] && b[i] == c[i] {
            lemma_lex_trans(a, b, c, i + 1);
        }
    }
}

/// The order of names is transitive, and strict where one of the two steps
/// is.
pub proof fn lemma_order_trans(a: Seq<u8>, b: Seq<u8>, c: Seq<u8>)
    requires
        name_le(a, b),
        name_le(b, c),
    ensures
        name_le(a, c),
        name_order(a, b) < 0 || name_order(b, c) < 0 ==> name_order(a, c) < 0,
{
    lemma_lex_trans(key_of(a), key_of(b), key_of(c), 0);
}

} // verus!
