//! Splitting text into whitespace-separated tokens.

use vstd::prelude::*;

verus! {

/// ASCII whitespace: space, tab, line feed, form feed and carriage return.
pub open spec fn is_space(c: char) -> bool {
    c == ' ' || c == '\t' || c == '\n' || c == '\x0C' || c == '\r'
}

/// The number of characters before the first whitespace character of `s`.
pub open spec fn word_len(s: Seq<char>) -> nat
    decreases s.len(),
{
    if s.len() == 0 || is_space(s[0]) {
        0
    } else {
        1 + word_len(s.drop_first())
    }
}

/// The maximal runs of non-whitespace characters of `s`, from left to right.
pub open spec fn tokens(s: Seq<char>) -> Seq<Seq<char>>
    decreases s.len(),
    via tokens_decreases
{
    if s.len() == 0 {
        Seq::<Seq<char>>::empty()
    } else if is_space(s[0]) {
        tokens(s.drop_first())
    } else {
        seq![s.take(word_len(s) as int)] + tokens(s.skip(word_len(s) as int))
    }
}

#[via_fn]
proof fn tokens_decreases(s: Seq<char>) {
    lemma_word_len_bounds(s);
}

/// A word is no longer than the text it starts, holds no whitespace, and ends
/// at a whitespace character or at the end of the text.
pub proof fn lemma_word_len_bounds(s: Seq<char>)
    ensures
        word_len(s) <= s.len(),
        s.len() > 0 && !is_space(s[0]) ==> word_len(s) >= 1,
        forall|k: int| 0 <= k < word_len(s) ==> !is_space(#[trigger] s[k]),
        word_len(s) < s.len() ==> is_space(s[word_len(s) as int]),
    decreases s.len(),
{
    if s.len() > 0 && !is_space(s[0]) {
        let r = s.drop_first();
        lemma_word_len_bounds(r);
        assert forall|k: int| 0 <= k < word_len(s) implies !is_space(#[trigger] s[k]) by {
            if k > 0 {
                assert(s[k] == r[k - 1]);
            }
        }
    }
}

/// A word: at least one character, none of them whitespace.
pub open spec fn is_word(t: Seq<char>) -> bool {
    t.len() > 0 && forall|k: int| 0 <= k < t.len() ==> !is_space(#[trigger] t[k])
}

/// Every token is a word.
pub proof fn lemma_tokens_are_words(s: Seq<char>)
    ensures
        forall|i: int| 0 <= i < tokens(s).len() ==> is_word(#[trigger] tokens(s)[i]),
    decreases s.len(),
{
    if s.len() == 0 {
    } else if is_space(s[0]) {
        lemma_tokens_are_words(s.drop_first());
        assert(tokens(s) == tokens(s.drop_first()));
    } else {
        let w = word_len(s) as int;
        lemma_word_len_bounds(s);
        lemma_tokens_are_words(s.skip(w));
        assert(tokens(s) == seq![s.take(w)] + tokens(s.skip(w)));
    }
}

/// Text without whitespace is one token; empty text holds none.
pub proof fn lemma_word_is_one_token(s: Seq<char>)
    requires
        forall|k: int| 0 <= k < s.len() ==> !is_space(#[trigger] s[k]),
    ensures
        tokens(s) =~= if s.len() == 0 {
            Seq::<Seq<char>>::empty()
        } else {
            seq![s]
        },
{
    if s.len() > 0 {
        lemma_word_len_bounds(s);
        let w = word_len(s) as int;
        assert(s.take(w) =~= s);
        assert(tokens(s.skip(w)) =~= Seq::<Seq<char>>::empty());
    }
}

/// Whether `c` is an ASCII whitespace character.
pub fn is_ascii_whitespace(c: char) -> (b: bool)
    ensures
        b == is_space(c),
{
    c == ' ' || c == '\t' || c == '\n' || c == '\x0C' || c == '\r'
}

/// The characters of `s`, in order.
pub fn chars_of(s: &str) -> (v: Vec<char>)
    ensures
        v@ == s@,
{
    let mut v: Vec<char> = Vec::new();
    for c in it: s.chars()
        invariant
            it.seq() == s@,
            v@ == s@.take(it.index() as int),
    {
        v.push(c);
    }
    v
}

/// The view of each token of `toks`.
pub open spec fn token_views(toks: Seq<Vec<char>>) -> Seq<Seq<char>> {
    Seq::new(toks.len(), |i: int| toks[i]@)
}

/// Splits `s` on ASCII whitespace: the result holds the maximal runs of
/// non-whitespace characters, from left to right.
pub fn split_ascii_whitespace(s: &Vec<char>) -> (toks: Vec<Vec<char>>)
    ensures
        token_views(toks@) == tokens(s@),
{
    let n: usize = s.len();
    let mut toks: Vec<Vec<char>> = Vec::new();
    let mut i: usize = 0;
    assert(s@.skip(0) =~= s@);
    while i < n
        invariant
            n == s@.len(),
            i <= n,
            tokens(s@) == token_views(toks@) + tokens(s@.skip(i as int)),
        decreases n - i,
    {
        let ghost rest = s@.skip(i as int);
        if is_ascii_whitespace(s[i]) {
            assert(rest.drop_first() =~= s@.skip(i + 1));
            i += 1;
        } else {
            let mut word: Vec<char> = Vec::new();
            let mut k: usize = i;
            while k < n && !is_ascii_whitespace(s[k])
                invariant
                    n == s@.len(),
                    i <= k <= n,
                    word@ == s@.subrange(i as int, k as int),
                    word_len(rest) == (k - i) + word_len(s@.skip(k as int)),
                    rest == s@.skip(i as int),
                decreases n - k,
            {
                proof {
                    let t = s@.skip(k as int);
                    assert(t.drop_first() =~= s@.skip(k + 1));
                }
                word.push(s[k]);
                k += 1;
            }
            proof {
                assert(rest.take((k - i) as int) =~= word@);
                assert(rest.skip((k - i) as int) =~= s@.skip(k as int));
            }
            toks.push(word);
            i = k;
        }
    }
    toks
}

} // verus!
