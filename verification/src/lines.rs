//! The decomposition of a text into lines.
//!
//! A line is a maximal run of characters ending with a line feed, or the
//! final unterminated remainder of the text.  The decomposition is defined
//! left to right, carrying the partial line read so far, which matches how
//! a counting pass walks the text.

use vstd::prelude::*;
use vstd::utf8::encode_utf8;

verus! {

/// The lines of `s`, given that the characters of `cur` (a partial line
/// already read, holding no line feed) precede it.
pub open spec fn split_rest(s: Seq<char>, cur: Seq<char>) -> Seq<Seq<char>>
    decreases s.len(),
{
    if s.len() == 0 {
        if cur.len() == 0 {
            Seq::empty()
        } else {
            seq![cur]
        }
    } else if s[0] == '\n' {
        seq![cur.push('\n')] + split_rest(s.drop_first(), Seq::empty())
    } else {
        split_rest(s.drop_first(), cur.push(s[0]))
    }
}

/// The sequence of lines of `s`: each line ends with a line feed, except
/// possibly the last, which is the unterminated remainder of the text.
pub open spec fn line_seq(s: Seq<char>) -> Seq<Seq<char>> {
    split_rest(s, Seq::empty())
}

/// The number of line-feed characters in `s`.
pub open spec fn nl_count(s: Seq<char>) -> nat
    decreases s.len(),
{
    if s.len() == 0 {
        0
    } else {
        nl_count(s.drop_first()) + if s[0] == '\n' { 1nat } else { 0nat }
    }
}

/// A text holding no line feed before its last character splits into the
/// one line `cur + s`, or into no line at all when both parts are empty.
pub proof fn lemma_split_single(s: Seq<char>, cur: Seq<char>)
    requires
        forall|i: int| 0 <= i < s.len() - 1 ==> s[i] != '\n',
    ensures
        split_rest(s, cur) == if cur.len() + s.len() == 0 {
            Seq::<Seq<char>>::empty()
        } else {
            seq![cur + s]
        },
    decreases s.len(),
{
    if s.len() == 0 {
        assert(cur + s =~= cur);
    } else if s[0] == '\n' {
        assert(s.len() == 1);
        assert(split_rest(s.drop_first(), Seq::empty()) =~= Seq::<Seq<char>>::empty());
        assert(cur.push('\n') =~= cur + s);
        assert(split_rest(s, cur) =~= seq![cur + s]);
    } else {
        lemma_split_single(s.drop_first(), cur.push(s[0]));
        assert(cur.push(s[0]) + s.drop_first() =~= cur + s);
    }
}

/// Splitting distributes over concatenation at a line boundary: when `a`
/// is empty or ends with a line feed, the lines of `a + b` are the lines
/// of `a` followed by the lines of `b`.
pub proof fn lemma_split_boundary(a: Seq<char>, b: Seq<char>, cur: Seq<char>)
    requires
        a.len() == 0 ==> cur.len() == 0,
        a.len() > 0 ==> a.last() == '\n',
    ensures
        split_rest(a + b, cur) == split_rest(a, cur) + split_rest(b, Seq::empty()),
    decreases a.len(),
{
    if a.len() == 0 {
        assert(a + b =~= b);
        assert(cur =~= Seq::<char>::empty());
        assert(split_rest(a, cur) + split_rest(b, Seq::empty()) =~= split_rest(b, Seq::empty()));
    } else {
        let rest = a.drop_first();
        assert((a + b)[0] == a[0]);
        assert((a + b).drop_first() =~= rest + b);
        if a[0] == '\n' {
            lemma_split_boundary(rest, b, Seq::empty());
            assert(split_rest(a + b, cur) =~= split_rest(a, cur) + split_rest(b, Seq::empty()));
        } else {
            assert(rest.len() > 0 && rest.last() == '\n');
            lemma_split_boundary(rest, b, cur.push(a[0]));
            assert(split_rest(a + b, cur) == split_rest(rest + b, cur.push(a[0])));
            assert(split_rest(a, cur) == split_rest(rest, cur.push(a[0])));
        }
    }
}

/// The number of lines is the number of line feeds, plus one for a final
/// unterminated remainder.
pub proof fn lemma_split_count(s: Seq<char>, cur: Seq<char>)
    requires
        forall|i: int| 0 <= i < cur.len() ==> cur[i] != '\n',
    ensures
        split_rest(s, cur).len() == nl_count(s) + if (cur + s).len() > 0 && (cur + s).last()
            != '\n' {
            1nat
        } else {
            0nat
        },
    decreases s.len(),
{
    if s.len() == 0 {
        assert(cur + s =~= cur);
    } else if s[0] == '\n' {
        lemma_split_count(s.drop_first(), Seq::empty());
        assert(Seq::<char>::empty() + s.drop_first() =~= s.drop_first());
        if s.len() == 1 {
            assert((cur + s).last() == '\n');
        } else {
            assert((cur + s).last() == s.drop_first().last());
        }
    } else {
        lemma_split_count(s.drop_first(), cur.push(s[0]));
        assert(cur.push(s[0]) + s.drop_first() =~= cur + s);
    }
}

/// The line count of a text: one line per line feed, plus one when the
/// text ends with unterminated content.
pub proof fn lemma_line_count(s: Seq<char>)
    ensures
        line_seq(s).len() == nl_count(s) + if s.len() > 0 && s.last() != '\n' {
            1nat
        } else {
            0nat
        },
{
    lemma_split_count(s, Seq::empty());
    assert(Seq::<char>::empty() + s =~= s);
}

/// UTF-8 encoding distributes over concatenation of character sequences.
pub proof fn lemma_encode_concat(a: Seq<char>, b: Seq<char>)
    ensures
        encode_utf8(a + b) == encode_utf8(a) + encode_utf8(b),
    decreases a.len(),
{
    if a.len() == 0 {
        assert(a + b =~= b);
        assert(encode_utf8(a) + encode_utf8(b) =~= encode_utf8(b));
    } else {
        assert((a + b)[0] == a[0]);
        assert((a + b).drop_first() =~= a.drop_first() + b);
        lemma_encode_concat(a.drop_first(), b);
        assert(encode_utf8(a + b) =~= encode_utf8(a) + encode_utf8(b));
    }
}

} // verus!
