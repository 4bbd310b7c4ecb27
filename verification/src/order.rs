//! Lexical order on names, as byte sequences: the order in which a sorted
//! scan emits siblings.

use vstd::prelude::*;

verus! {

/// Lexical order on byte sequences: the empty sequence comes first; else
/// the first bytes decide; equal first bytes defer to the tails.
pub open spec fn lex_le(a: Seq<u8>, b: Seq<u8>) -> bool
    decreases a.len(),
{
    if a.len() == 0 {
        true
    } else if b.len() == 0 {
        false
    } else if a[0] < b[0] {
        true
    } else if a[0] > b[0] {
        false
    } else {
        lex_le(a.skip(1), b.skip(1))
    }
}

/// The order is reflexive.
pub proof fn lemma_lex_le_refl(a: Seq<u8>)
    ensures
        lex_le(a, a),
    decreases a.len(),
{
    if a.len() > 0 {
        lemma_lex_le_refl(a.skip(1));
    }
}

/// The order is total: of two names one comes no later than the other.
pub proof fn lemma_lex_le_total(a: Seq<u8>, b: Seq<u8>)
    ensures
        lex_le(a, b) || lex_le(b, a),
    decreases a.len(),
{
    if a.len() > 0 && b.len() > 0 && a[0] == b[0] {
        lemma_lex_le_total(a.skip(1), b.skip(1));
    }
}

/// The order is transitive.
pub proof fn lemma_lex_le_trans(a: Seq<u8>, b: Seq<u8>, c: Seq<u8>)
    requires
        lex_le(a, b),
        lex_le(b, c),
    ensures
        lex_le(a, c),
    decreases a.len(),
{
    if a.len() > 0 && b.len() > 0 && c.len() > 0 && a[0] == b[0] && b[0] == c[0] {
        lemma_lex_le_trans(a.skip(1), b.skip(1), c.skip(1));
    }
}

/// Extending two names by one common prefix keeps their order, both ways.
pub proof fn lemma_lex_le_prepend(p: Seq<u8>, a: Seq<u8>, b: Seq<u8>)
    ensures
        lex_le(p + a, p + b) == lex_le(a, b),
    decreases p.len(),
{
    if p.len() == 0 {
        assert(p + a =~= a);
        assert(p + b =~= b);
    } else {
        assert((p + a)[0] == p[0]);
        assert((p + b)[0] == p[0]);
        assert((p + a).skip(1) =~= p.skip(1) + a);
        assert((p + b).skip(1) =~= p.skip(1) + b);
        lemma_lex_le_prepend(p.skip(1), a, b);
    }
}

/// Compares the suffixes of two names starting at `i` and `j`.
fn lex_le_at(a: &Vec<u8>, b: &Vec<u8>, i: usize, j: usize) -> (r: bool)
    requires
        i <= a.len(),
        j <= b.len(),
    ensures
        r == lex_le(a@.skip(i as int), b@.skip(j as int)),
    decreases a@.len() - i,
{
    proof {
        if i < a@.len() {
            assert(a@.skip(i as int)[0] == a@[i as int]);
            assert(a@.skip(i as int).skip(1) =~= a@.skip(i as int + 1));
        }
        if j < b@.len() {
            assert(b@.skip(j as int)[0] == b@[j as int]);
            assert(b@.skip(j as int).skip(1) =~= b@.skip(j as int + 1));
        }
    }
    if i == a.len() {
        true
    } else if j == b.len() {
        false
    } else if a[i] < b[j] {
        true
    } else if a[i] > b[j] {
        false
    } else {
        lex_le_at(a, b, i + 1, j + 1)
    }
}

/// Whether `a` comes no later than `b` in lexical byte order.
pub fn lex_le_bytes(a: &Vec<u8>, b: &Vec<u8>) -> (r: bool)
    ensures
        r == lex_le(a@, b@),
{
    proof {
        assert(a@.skip(0) =~= a@);
        assert(b@.skip(0) =~= b@);
    }
    lex_le_at(a, b, 0, 0)
}

} // verus!
