//! Byte-wise lexicographic order on byte strings.

use core::cmp::Ordering;
use vstd::prelude::*;

verus! {

/// `a` and `b` agree before position `i`, and there `a` ends or holds the
/// smaller byte while `b` goes on.
pub open spec fn precedes_at(a: Seq<u8>, b: Seq<u8>, i: int) -> bool {
    &&& 0 <= i <= a.len()
    &&& i < b.len()
    &&& forall|j: int| 0 <= j < i ==> a[j] == b[j]
    &&& (i == a.len() || a[i] < b[i])
}

/// `a` comes strictly before `b` in byte-wise lexicographic order.
pub open spec fn lex_lt(a: Seq<u8>, b: Seq<u8>) -> bool {
    exists|i: int| precedes_at(a, b, i)
}

/// `a` comes before `b` or equals it.
pub open spec fn lex_le(a: Seq<u8>, b: Seq<u8>) -> bool {
    a == b || lex_lt(a, b)
}

/// How one byte string stands to another.
#[derive(Clone, Copy, Debug, PartialEq, Eq, Structural)]
pub enum Relation {
    Less,
    Equal,
    Greater,
}

/// The relation of `a` to `b` in byte-wise lexicographic order.
pub open spec fn relation(a: Seq<u8>, b: Seq<u8>) -> Relation {
    if lex_lt(a, b) {
        Relation::Less
    } else if a == b {
        Relation::Equal
    } else {
        Relation::Greater
    }
}

/// A string that agrees with `b` up to some position, and is greater there or
/// goes on where `b` ends, does not come before `b`.
pub proof fn lemma_not_before(a: Seq<u8>, b: Seq<u8>, i: int)
    requires
        0 <= i <= b.len(),
        i <= a.len(),
        forall|j: int| 0 <= j < i ==> a[j] == b[j],
        i == b.len() || (i < a.len() && a[i] > b[i]),
    ensures
        !lex_lt(a, b),
{
    assert forall|k: int| !precedes_at(a, b, k) by {
        if precedes_at(a, b, k) {
            if k > i {
                assert(a[i] == b[i]);
            }
        }
    }
}

/// No string comes before itself.
pub proof fn lemma_lex_lt_irreflexive(a: Seq<u8>)
    ensures
        !lex_lt(a, a),
{
    lemma_not_before(a, a, a.len() as int);
}

/// Of two strings at most one comes before the other, and then they differ.
pub proof fn lemma_lex_lt_asymmetric(a: Seq<u8>, b: Seq<u8>)
    requires
        lex_lt(a, b),
    ensures
        !lex_lt(b, a),
        a != b,
{
    let i = choose|i: int| precedes_at(a, b, i);
    lemma_not_before(b, a, i);
    lemma_lex_lt_irreflexive(a);
}

/// Of two byte strings one comes before the other, or they are equal.
pub proof fn lemma_lex_total(a: Seq<u8>, b: Seq<u8>)
    ensures
        lex_lt(a, b) || a == b || lex_lt(b, a),
{
    lemma_lex_total_from(a, b, 0);
}

proof fn lemma_lex_total_from(a: Seq<u8>, b: Seq<u8>, i: int)
    requires
        0 <= i <= a.len(),
        i <= b.len(),
        forall|j: int| 0 <= j < i ==> a[j] == b[j],
    ensures
        lex_lt(a, b) || a == b || lex_lt(b, a),
    decreases a.len() - i,
{
    if i == a.len() && i == b.len() {
        assert(a =~= b);
    } else if i == a.len() {
        assert(precedes_at(a, b, i));
    } else if i == b.len() {
        assert(precedes_at(b, a, i));
    } else if a[i] < b[i] {
        assert(precedes_at(a, b, i));
    } else if a[i] > b[i] {
        assert(precedes_at(b, a, i));
    } else {
        lemma_lex_total_from(a, b, i + 1);
    }
}

/// What comes before a string comes before all that the string comes before.
pub proof fn lemma_lex_lt_transitive(a: Seq<u8>, b: Seq<u8>, c: Seq<u8>)
    requires
        lex_lt(a, b),
        lex_lt(b, c),
    ensures
        lex_lt(a, c),
{
    let i = choose|i: int| precedes_at(a, b, i);
    let j = choose|j: int| precedes_at(b, c, j);
    if i <= j {
        assert(precedes_at(a, c, i));
    } else {
        assert(precedes_at(a, c, j));
    }
}

/// A common prefix does not change the order of what follows it.
pub proof fn lemma_lex_lt_common_prefix(p: Seq<u8>, a: Seq<u8>, b: Seq<u8>)
    ensures
        lex_lt(p + a, p + b) <==> lex_lt(a, b),
{
    let n = p.len() as int;
    if lex_lt(a, b) {
        let i = choose|i: int| precedes_at(a, b, i);
        assert(precedes_at(p + a, p + b, n + i)) by {
            assert forall|j: int| 0 <= j < n + i implies (p + a)[j] == (p + b)[j] by {
                if j >= n {
                    assert(a[j - n] == b[j - n]);
                }
            }
        }
    }
    if lex_lt(p + a, p + b) {
        let k = choose|k: int| precedes_at(p + a, p + b, k);
        if k < n {
            assert((p + a)[k] == (p + b)[k]);
        }
        assert(precedes_at(a, b, k - n)) by {
            assert forall|j: int| 0 <= j < k - n implies a[j] == b[j] by {
                assert((p + a)[j + n] == (p + b)[j + n]);
            }
            if k < (p + a).len() {
                assert((p + a)[k] == a[k - n]);
                assert((p + b)[k] == b[k - n]);
            }
        }
    }
}

/// Strings that open with parts of one length are ordered by those parts, and
/// by what follows where the parts are equal.
pub proof fn lemma_lex_lt_equal_length_heads(a: Seq<u8>, x: Seq<u8>, b: Seq<u8>, y: Seq<u8>)
    requires
        a.len() == b.len(),
    ensures
        lex_lt(a + x, b + y) <==> lex_lt(a, b) || (a == b && lex_lt(x, y)),
{
    let n = a.len() as int;
    if a == b {
        lemma_lex_lt_common_prefix(a, x, y);
        lemma_lex_lt_irreflexive(a);
    } else {
        lemma_lex_total(a, b);
        if lex_lt(a, b) {
            let i = choose|i: int| precedes_at(a, b, i);
            assert(precedes_at(a + x, b + y, i));
        } else {
            let i = choose|i: int| precedes_at(b, a, i);
            assert(precedes_at(b + y, a + x, i));
            lemma_lex_lt_asymmetric(b + y, a + x);
        }
    }
}

/// Compares two byte strings byte by byte.
pub fn compare_bytes(a: &[u8], b: &[u8]) -> (r: Relation)
    ensures
        r == relation(a@, b@),
{
    let mut i: usize = 0;
    while i < a.len() && i < b.len()
        invariant
            i <= a@.len(),
            i <= b@.len(),
            forall|j: int| 0 <= j < i ==> a@[j] == b@[j],
        decreases a@.len() - i,
    {
        if a[i] < b[i] {
            assert(precedes_at(a@, b@, i as int));
            return Relation::Less;
        }
        if a[i] > b[i] {
            proof {
                lemma_not_before(a@, b@, i as int);
            }
            return Relation::Greater;
        }
        i += 1;
    }
    if i < b.len() {
        assert(precedes_at(a@, b@, i as int));
        Relation::Less
    } else if i < a.len() {
        proof {
            lemma_not_before(a@, b@, i as int);
        }
        Relation::Greater
    } else {
        proof {
            assert(a@ =~= b@);
            lemma_lex_lt_irreflexive(a@);
        }
        Relation::Equal
    }
}

/// Whether two byte strings hold the same bytes.
pub fn bytes_equal(a: &[u8], b: &[u8]) -> (r: bool)
    ensures
        r == (a@ == b@),
{
    let rel = compare_bytes(a, b);
    proof {
        if lex_lt(a@, b@) {
            lemma_lex_lt_asymmetric(a@, b@);
        }
    }
    match rel {
        Relation::Equal => true,
        _ => false,
    }
}

/// The standard library's name for a relation.
pub open spec fn ordering_spec(r: Relation) -> Ordering {
    match r {
        Relation::Less => Ordering::Less,
        Relation::Equal => Ordering::Equal,
        Relation::Greater => Ordering::Greater,
    }
}

/// The standard library's `Ordering` for a relation.
pub fn ordering_of(r: Relation) -> (o: Ordering)
    ensures
        o == ordering_spec(r),
{
    match r {
        Relation::Less => Ordering::Less,
        Relation::Equal => Ordering::Equal,
        Relation::Greater => Ordering::Greater,
    }
}

} // verus!
