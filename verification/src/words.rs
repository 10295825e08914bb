//! Word counting.
//!
//! The word count of a single line is computed by the `words-count` crate;
//! the library names that count and sums it over the lines of a text.

use vstd::prelude::*;

verus! {

/// The number of words that `words_count::count` finds in the given text.
pub uninterp spec fn words_of(s: Seq<char>) -> nat;

/// The total word count of a sequence of lines.
pub open spec fn words_sum(ls: Seq<Seq<char>>) -> nat
    decreases ls.len(),
{
    if ls.len() == 0 {
        0
    } else {
        words_sum(ls.drop_last()) + words_of(ls.last())
    }
}

/// Relies on `words_count::count`: the word count is a function of the
/// text's characters alone (a non-CJK run between whitespace is a word, a
/// run of two or more dashes delimits words, and each CJK character is a
/// word of its own); empty text holds no word, and every word consumes at
/// least one character, so the count never exceeds the character count.
#[verifier::external_body]
pub(crate) fn words_in(line: &str) -> (r: usize)
    ensures
        r == words_of(line@),
        line@.len() == 0 ==> r == 0,
        r <= line@.len(),
{
    words_count::count(line).words
}

/// Adding one line to a sequence of lines adds that line's words.
pub proof fn lemma_words_sum_push(ls: Seq<Seq<char>>, l: Seq<char>)
    ensures
        words_sum(ls.push(l)) == words_sum(ls) + words_of(l),
{
    assert(ls.push(l).drop_last() =~= ls);
}

/// The word count of concatenated line sequences is the sum of the counts.
pub proof fn lemma_words_sum_concat(x: Seq<Seq<char>>, y: Seq<Seq<char>>)
    ensures
        words_sum(x + y) == words_sum(x) + words_sum(y),
    decreases y.len(),
{
    if y.len() == 0 {
        assert(x + y =~= x);
    } else {
        assert((x + y).drop_last() =~= x + y.drop_last());
        assert((x + y).last() == y.last());
        lemma_words_sum_concat(x, y.drop_last());
    }
}

} // verus!
