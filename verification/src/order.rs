//! The lexicographic order of sequences of integers.

use std::cmp::Ordering;
use vstd::prelude::*;

verus! {

/// The lexicographic order of two sequences: the first place where they differ
/// decides; a proper prefix comes before what it is a prefix of.
pub open spec fn lex_order(a: Seq<int>, b: Seq<int>) -> Ordering
    decreases a.len(),
{
    if a.len() == 0 {
        if b.len() == 0 {
            Ordering::Equal
        } else {
            Ordering::Less
        }
    } else if b.len() == 0 {
        Ordering::Greater
    } else if a[0] < b[0] {
        Ordering::Less
    } else if a[0] > b[0] {
        Ordering::Greater
    } else {
        lex_order(a.drop_first(), b.drop_first())
    }
}

/// The integers that a sequence of small integers holds.
pub open spec fn ints(s: Seq<i8>) -> Seq<int> {
    Seq::new(s.len(), |i: int| s[i] as int)
}

/// What is left of `ints(s)` from place `i` on.
pub open spec fn ints_from(s: Seq<i8>, i: usize) -> Seq<int> {
    ints(s).skip(i as int)
}

proof fn lemma_ints_from_step(s: Seq<i8>, i: usize)
    requires
        i < s.len() <= usize::MAX,
    ensures
        ints_from(s, i).len() > 0,
        ints_from(s, i)[0] == s[i as int],
        ints_from(s, i).drop_first() == ints_from(s, (i + 1) as usize),
        ints_from(s, 0) == ints(s),
{
}

proof fn lemma_ints_from_end(s: Seq<i8>, i: usize)
    requires
        i == s.len(),
    ensures
        ints_from(s, i).len() == 0,
        ints_from(s, 0) == ints(s),
{
}

/// Two sequences compare equal exactly when they are the same sequence.
pub proof fn lemma_lex_order_equal(a: Seq<int>, b: Seq<int>)
    ensures
        lex_order(a, b) == Ordering::Equal <==> a == b,
    decreases a.len(),
{
    if a.len() > 0 && b.len() > 0 {
        lemma_lex_order_equal(a.drop_first(), b.drop_first());
        if a[0] == b[0] && a.drop_first() == b.drop_first() {
            assert(a =~= seq![a[0]] + a.drop_first());
            assert(b =~= seq![b[0]] + b.drop_first());
        }
    } else if a.len() == 0 && b.len() == 0 {
        assert(a =~= b);
    }
}

/// Swapping the two sides swaps `Less` and `Greater`.
pub proof fn lemma_lex_order_flip(a: Seq<int>, b: Seq<int>)
    ensures
        lex_order(a, b) == Ordering::Less <==> lex_order(b, a) == Ordering::Greater,
        lex_order(a, b) == Ordering::Equal <==> lex_order(b, a) == Ordering::Equal,
    decreases a.len(),
{
    if a.len() > 0 && b.len() > 0 {
        lemma_lex_order_flip(a.drop_first(), b.drop_first());
    }
}

/// The order is transitive: what is not below `b`, which is not below `c`, is
/// not below `c`; and it is above `c` where one of the two steps is strict.
pub proof fn lemma_lex_order_transitive(a: Seq<int>, b: Seq<int>, c: Seq<int>)
    requires
        lex_order(a, b) != Ordering::Less,
        lex_order(b, c) != Ordering::Less,
    ensures
        lex_order(a, c) != Ordering::Less,
        lex_order(a, b) == Ordering::Greater || lex_order(b, c) == Ordering::Greater
            ==> lex_order(a, c) == Ordering::Greater,
    decreases a.len(),
{
    if a.len() > 0 && b.len() > 0 && c.len() > 0 {
        if a[0] == b[0] && b[0] == c[0] {
            lemma_lex_order_transitive(a.drop_first(), b.drop_first(), c.drop_first());
        }
    }
}

/// Compares two sequences lexicographically.
pub fn compare_keys(a: &Vec<i8>, b: &Vec<i8>) -> (o: Ordering)
    ensures
        o == lex_order(ints(a@), ints(b@)),
{
    let na: usize = a.len();
    let nb: usize = b.len();
    let mut i: usize = 0;
    proof {
        if a@.len() > 0 {
            lemma_ints_from_step(a@, 0);
        } else {
            lemma_ints_from_end(a@, 0);
        }
        if b@.len() > 0 {
            lemma_ints_from_step(b@, 0);
        } else {
            lemma_ints_from_end(b@, 0);
        }
    }
    while i < na && i < nb
        invariant
            na == a@.len(),
            nb == b@.len(),
            i <= na,
            i <= nb,
            lex_order(ints(a@), ints(b@)) == lex_order(ints_from(a@, i), ints_from(b@, i)),
        decreases a@.len() - i,
    {
        proof {
            lemma_ints_from_step(a@, i);
            lemma_ints_from_step(b@, i);
        }
        if a[i] < b[i] {
            return Ordering::Less;
        }
        if a[i] > b[i] {
            return Ordering::Greater;
        }
        i += 1;
    }
    proof {
        if i < a@.len() {
            lemma_ints_from_step(a@, i);
        } else {
            lemma_ints_from_end(a@, i);
        }
        if i < b@.len() {
            lemma_ints_from_step(b@, i);
        } else {
            lemma_ints_from_end(b@, i);
        }
    }
    if i < na {
        Ordering::Greater
    } else if i < nb {
        Ordering::Less
    } else {
        Ordering::Equal
    }
}

} // verus!
