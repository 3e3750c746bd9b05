//! Lexicographic order on character sequences, the order of `String`'s
//! comparison (UTF-8 bytes compare as the code points they encode).

use vstd::prelude::*;

verus! {

/// Whether `a[i..]` comes before or equals `b[i..]`.
pub open spec fn le_from(a: Seq<char>, b: Seq<char>, i: int) -> bool
    decreases a.len() - i,
{
    if i < 0 || i >= a.len() {
        true
    } else if i >= b.len() {
        false
    } else if a[i] != b[i] {
        a[i] < b[i]
    } else {
        le_from(a, b, i + 1)
    }
}

/// Whether `a` comes before or equals `b` lexicographically.
pub open spec fn seq_le(a: Seq<char>, b: Seq<char>) -> bool {
    le_from(a, b, 0)
}

/// Whether `a` comes strictly before `b` lexicographically.
pub open spec fn seq_lt(a: Seq<char>, b: Seq<char>) -> bool {
    seq_le(a, b) && a != b
}

proof fn lemma_le_from_total(a: Seq<char>, b: Seq<char>, i: int)
    requires
        0 <= i,
    ensures
        le_from(a, b, i) || le_from(b, a, i),
    decreases a.len() - i,
{
    if i < a.len() && i < b.len() && a[i] == b[i] {
        lemma_le_from_total(a, b, i + 1);
    }
}

proof fn lemma_le_from_antisymmetric(a: Seq<char>, b: Seq<char>, i: int)
    requires
        0 <= i <= a.len(),
        i <= b.len(),
        forall|k: int| 0 <= k < i ==> a[k] == b[k],
        le_from(a, b, i),
        le_from(b, a, i),
    ensures
        a == b,
    decreases a.len() - i,
{
    if i == a.len() || i == b.len() {
        assert(a =~= b);
    } else {
        lemma_le_from_antisymmetric(a, b, i + 1);
    }
}

proof fn lemma_le_from_transitive(a: Seq<char>, b: Seq<char>, c: Seq<char>, i: int)
    requires
        0 <= i,
        le_from(a, b, i),
        le_from(b, c, i),
    ensures
        le_from(a, c, i),
    decreases a.len() - i,
{
    if i < a.len() && i < b.len() && i < c.len() && a[i] == b[i] && b[i] == c[i] {
        lemma_le_from_transitive(a, b, c, i + 1);
    }
}

/// `seq_le` is a total order.
pub proof fn lemma_seq_le_order(a: Seq<char>, b: Seq<char>, c: Seq<char>)
    ensures
        seq_le(a, a),
        seq_le(a, b) || seq_le(b, a),
        seq_le(a, b) && seq_le(b, a) ==> a == b,
        seq_le(a, b) && seq_le(b, c) ==> seq_le(a, c),
{
    lemma_le_from_refl(a, 0);
    lemma_le_from_total(a, b, 0);
    if seq_le(a, b) && seq_le(b, a) {
        lemma_le_from_antisymmetric(a, b, 0);
    }
    if seq_le(a, b) && seq_le(b, c) {
        lemma_le_from_transitive(a, b, c, 0);
    }
}

proof fn lemma_le_from_refl(a: Seq<char>, i: int)
    requires
        0 <= i,
    ensures
        le_from(a, a, i),
    decreases a.len() - i,
{
    if i < a.len() {
        lemma_le_from_refl(a, i + 1);
    }
}

/// Whether `a` comes before or equals `b` lexicographically.
pub fn str_le(a: &str, b: &str) -> (r: bool)
    ensures
        r == seq_le(a@, b@),
{
    let na = a.unicode_len();
    let nb = b.unicode_len();
    let mut i: usize = 0;
    while i < na
        invariant
            na == a@.len(),
            nb == b@.len(),
            i <= na,
            le_from(a@, b@, i as int) == le_from(a@, b@, 0),
        decreases na - i,
    {
        if i >= nb {
            return false;
        }
        let x = a.get_char(i);
        let y = b.get_char(i);
        if x != y {
            return x < y;
        }
        i = i + 1;
    }
    true
}

} // verus!
