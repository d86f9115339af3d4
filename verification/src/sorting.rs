//! Sorting cards by rank.

use vstd::prelude::*;
use crate::card::Card;

verus! {

/// `s` with `c` put behind the last card that is not stronger than `c`.
pub open spec fn insert_by_rank(s: Seq<Card>, c: Card) -> Seq<Card>
    decreases s.len(),
{
    if s.len() == 0 {
        seq![c]
    } else if s.last().rank.strength() <= c.rank.strength() {
        s.push(c)
    } else {
        insert_by_rank(s.drop_last(), c).push(s.last())
    }
}

/// The cards of `s` in ascending order of rank strength; cards of equal rank
/// keep the order they had in `s`.
pub open spec fn sort_by_rank(s: Seq<Card>) -> Seq<Card>
    decreases s.len(),
{
    if s.len() == 0 {
        s
    } else {
        insert_by_rank(sort_by_rank(s.drop_last()), s.last())
    }
}

/// Whether the rank strengths of `s` never go down.
pub open spec fn ascending(s: Seq<Card>) -> bool {
    forall|i: int, j: int|
        0 <= i < j < s.len() ==> s[i].rank.strength() <= s[j].rank.strength()
}

/// Inserting into an ascending sequence gives an ascending sequence that
/// holds one card more: the one inserted.
pub proof fn lemma_insert_by_rank(s: Seq<Card>, c: Card)
    requires
        ascending(s),
    ensures
        ascending(insert_by_rank(s, c)),
        insert_by_rank(s, c).len() == s.len() + 1,
        insert_by_rank(s, c).to_multiset() == s.to_multiset().insert(c),
    decreases s.len(),
{
    broadcast use vstd::seq_lib::group_to_multiset_ensures;

    if s.len() > 0 && s.last().rank.strength() > c.rank.strength() {
        let r = s.drop_last();
        let t = insert_by_rank(r, c);
        lemma_insert_by_rank(r, c);
        assert(s =~= r.push(s.last()));
        let out = t.push(s.last());
        assert forall|i: int, j: int| 0 <= i < j < out.len() implies out[i].rank.strength()
            <= out[j].rank.strength() by {
            if j == out.len() - 1 && t[i] != c {
                assert(t.to_multiset().count(t[i]) > 0);
                assert(r.to_multiset().count(t[i]) > 0);
                let k = choose|k: int| 0 <= k < r.len() && r[k] == t[i];
                assert(s[k] == t[i]);
            }
        }
    }
}

/// Sorting gives the same cards, each as often as before, in ascending order
/// of rank strength.
pub proof fn lemma_sort_by_rank(s: Seq<Card>)
    ensures
        ascending(sort_by_rank(s)),
        sort_by_rank(s).len() == s.len(),
        sort_by_rank(s).to_multiset() == s.to_multiset(),
    decreases s.len(),
{
    broadcast use vstd::seq_lib::group_to_multiset_ensures;

    if s.len() > 0 {
        let r = s.drop_last();
        lemma_sort_by_rank(r);
        lemma_insert_by_rank(sort_by_rank(r), s.last());
        assert(s =~= r.push(s.last()));
    }
}

/// Puts `c` into the ascending vector `v`, behind the cards of its own rank.
pub fn insert_card(v: &mut Vec<Card>, c: Card)
    ensures
        final(v)@ == insert_by_rank(old(v)@, c),
{
    let ghost s = v@;
    let mut pos: usize = v.len();
    assert(s.take(pos as int) =~= s);
    while pos > 0 && v[pos - 1].numeric_value() > c.numeric_value()
        invariant
            v@ == s,
            pos <= s.len(),
            insert_by_rank(s, c) == insert_by_rank(s.take(pos as int), c) + s.skip(pos as int),
        decreases pos,
    {
        proof {
            let p = s.take(pos as int);
            assert(p.drop_last() =~= s.take(pos - 1));
            assert(insert_by_rank(s.take(pos - 1), c).push(s[pos - 1]) + s.skip(pos as int)
                =~= insert_by_rank(s.take(pos - 1), c) + s.skip(pos - 1));
        }
        pos -= 1;
    }
    v.insert(pos, c);
}

/// Values whose items can be put in order.
pub trait SortedImpl: Sized {
    /// The same items, in ascending order.
    fn sorted(self) -> Self;
}

impl SortedImpl for Vec<Card> {
    /// Sorts cards by rank strength, weakest first. Cards of equal rank keep
    /// their order.
    fn sorted(self) -> (out: Vec<Card>)
        ensures
            out@ == sort_by_rank(self@),
            ascending(out@),
            out@.len() == self@.len(),
            out@.to_multiset() == self@.to_multiset(),
    {
        let n: usize = self.len();
        let mut out: Vec<Card> = Vec::new();
        let mut i: usize = 0;
        while i < n
            invariant
                n == self@.len(),
                i <= n,
                out@ == sort_by_rank(self@.take(i as int)),
            decreases n - i,
        {
            proof {
                let p = self@.take(i + 1);
                assert(p.drop_last() =~= self@.take(i as int));
            }
            insert_card(&mut out, self[i]);
            i += 1;
        }
        proof {
            assert(self@.take(n as int) =~= self@);
            lemma_sort_by_rank(self@);
        }
        out
    }
}

} // verus!
