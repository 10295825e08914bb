//! The per-stream counting engine.
//!
//! A text is counted line by line: each line contributes one to the line
//! count, its characters, its UTF-8 bytes (line feed included), and its
//! words.  [`spec_count`] is the mathematical statement of the record that
//! [`run_count`] computes.

use vstd::prelude::*;
use vstd::string::StrSliceExecFns;
use vstd::utf8::encode_utf8;

use crate::lines::lemma_encode_concat;
use crate::lines::lemma_split_boundary;
use crate::lines::lemma_split_single;
use crate::lines::line_seq;
use crate::words::lemma_words_sum_concat;
use crate::words::lemma_words_sum_push;
use crate::words::words_in;
use crate::words::words_of;
use crate::words::words_sum;

verus! {

broadcast use vstd::slice::group_slice_axioms;

/// The mathematical value of a count record: the four totals as naturals.
pub ghost struct CountsView {
    pub lines: nat,
    pub words: nat,
    pub chars: nat,
    pub bytes: nat,
}

/// The pointwise sum of two count records.
pub open spec fn combined(x: CountsView, y: CountsView) -> CountsView {
    CountsView {
        lines: x.lines + y.lines,
        words: x.words + y.words,
        chars: x.chars + y.chars,
        bytes: x.bytes + y.bytes,
    }
}

/// The counts of a text: its lines, the words of those lines, its
/// characters, and the bytes of its UTF-8 encoding.
pub open spec fn spec_count(s: Seq<char>) -> CountsView {
    CountsView {
        lines: line_seq(s).len(),
        words: words_sum(line_seq(s)),
        chars: s.len(),
        bytes: encode_utf8(s).len(),
    }
}

/// A count record for one input: lines, words, characters and bytes.
#[derive(Debug, Clone, Copy, PartialEq, Eq, Structural)]
pub struct FileInfo {
    pub num_lines: usize,
    pub num_words: usize,
    pub num_chars: usize,
    pub num_bytes: usize,
}

impl View for FileInfo {
    type V = CountsView;

    open spec fn view(&self) -> CountsView {
        CountsView {
            lines: self.num_lines as nat,
            words: self.num_words as nat,
            chars: self.num_chars as nat,
            bytes: self.num_bytes as nat,
        }
    }
}

impl DeepView for FileInfo {
    type V = CountsView;

    open spec fn deep_view(&self) -> CountsView {
        self.view()
    }
}

impl FileInfo {
    /// Pointwise addition of another record, used to accumulate the total.
    pub fn add(&mut self, info: FileInfo)
        requires
            old(self).num_lines + info.num_lines <= usize::MAX,
            old(self).num_words + info.num_words <= usize::MAX,
            old(self).num_chars + info.num_chars <= usize::MAX,
            old(self).num_bytes + info.num_bytes <= usize::MAX,
        ensures
            final(self)@ == combined(old(self)@, info@),
            final(self).num_lines == old(self).num_lines + info.num_lines,
            final(self).num_words == old(self).num_words + info.num_words,
            final(self).num_chars == old(self).num_chars + info.num_chars,
            final(self).num_bytes == old(self).num_bytes + info.num_bytes,
    {
        self.num_lines = self.num_lines + info.num_lines;
        self.num_words = self.num_words + info.num_words;
        self.num_chars = self.num_chars + info.num_chars;
        self.num_bytes = self.num_bytes + info.num_bytes;
    }

    /// Adds another record when every sum fits the machine's word size,
    /// and reports whether it did; on overflow the record is unchanged.
    pub fn try_add(&mut self, info: FileInfo) -> (ok: bool)
        ensures
            ok == (old(self).num_lines + info.num_lines <= usize::MAX && old(self).num_words
                + info.num_words <= usize::MAX && old(self).num_chars + info.num_chars
                <= usize::MAX && old(self).num_bytes + info.num_bytes <= usize::MAX),
            ok ==> final(self)@ == combined(old(self)@, info@),
            !ok ==> *final(self) == *old(self),
    {
        if self.num_lines <= usize::MAX - info.num_lines && self.num_words <= usize::MAX
            - info.num_words && self.num_chars <= usize::MAX - info.num_chars && self.num_bytes
            <= usize::MAX - info.num_bytes {
            self.add(info);
            true
        } else {
            false
        }
    }
}

/// Counting an empty text yields the all-zero record.
pub proof fn lemma_count_empty(s: Seq<char>)
    requires
        s.len() == 0,
    ensures
        spec_count(s).lines == 0,
        spec_count(s).words == 0,
        spec_count(s).chars == 0,
        spec_count(s).bytes == 0,
{
    assert(s =~= Seq::<char>::empty());
}

/// Counting is a function of the text alone: two records that both count
/// the same text are identical.
pub proof fn lemma_count_deterministic(s: Seq<char>, r1: FileInfo, r2: FileInfo)
    requires
        r1@ == spec_count(s),
        r2@ == spec_count(s),
    ensures
        r1 == r2,
{
}

/// Counting is additive: when `a` is a well-formed line sequence (empty or
/// ending with a line feed), the counts of `a + b` are the pointwise sums
/// of the counts of `a` and of `b`.
pub proof fn lemma_count_additive(a: Seq<char>, b: Seq<char>)
    requires
        a.len() > 0 ==> a.last() == '\n',
    ensures
        spec_count(a + b) == combined(spec_count(a), spec_count(b)),
{
    lemma_split_boundary(a, b, Seq::empty());
    lemma_words_sum_concat(line_seq(a), line_seq(b));
    lemma_encode_concat(a, b);
}

/// Extending a counted prefix by one line: the lines of `s[..end]` are the
/// lines of `s[..start]` with the chunk `s[start..end]` appended, and the
/// word and byte totals grow by that chunk's counts.
proof fn lemma_extend_prefix(s: Seq<char>, start: int, end: int)
    requires
        0 <= start < end <= s.len(),
        start == 0 || s[start - 1] == '\n',
        forall|j: int| start <= j < end - 1 ==> s[j] != '\n',
    ensures
        line_seq(s.subrange(0, end)) == line_seq(s.subrange(0, start)).push(
            s.subrange(start, end),
        ),
        words_sum(line_seq(s.subrange(0, end))) == words_sum(line_seq(s.subrange(0, start)))
            + words_of(s.subrange(start, end)),
        encode_utf8(s.subrange(0, end)).len() == encode_utf8(s.subrange(0, start)).len()
            + encode_utf8(s.subrange(start, end)).len(),
        encode_utf8(s.subrange(0, end)).len() <= encode_utf8(s).len(),
{
    let a = s.subrange(0, start);
    let chunk = s.subrange(start, end);
    assert(s.subrange(0, end) =~= a + chunk);
    lemma_split_boundary(a, chunk, Seq::empty());
    assert(forall|i: int| 0 <= i < chunk.len() - 1 ==> chunk[i] != '\n');
    lemma_split_single(chunk, Seq::empty());
    assert(Seq::<char>::empty() + chunk =~= chunk);
    assert(line_seq(a + chunk) =~= line_seq(a).push(chunk));
    lemma_words_sum_push(line_seq(a), chunk);
    lemma_encode_concat(a, chunk);
    assert(s =~= s.subrange(0, end) + s.subrange(end, s.len() as int));
    lemma_encode_concat(s.subrange(0, end), s.subrange(end, s.len() as int));
}

/// Adds one line's counts to a record in progress.
fn tally_line(info: &mut FileInfo, line: &str)
    requires
        old(info).num_lines + 1 <= usize::MAX,
        old(info).num_words + line@.len() <= usize::MAX,
        old(info).num_chars + line@.len() <= usize::MAX,
        old(info).num_bytes + encode_utf8(line@).len() <= usize::MAX,
    ensures
        final(info).num_lines == old(info).num_lines + 1,
        final(info).num_words == old(info).num_words + words_of(line@),
        final(info).num_chars == old(info).num_chars + line@.len(),
        final(info).num_bytes == old(info).num_bytes + encode_utf8(line@).len(),
        final(info).num_words <= old(info).num_words + line@.len(),
{
    info.num_lines = info.num_lines + 1;
    info.num_words = info.num_words + words_in(line);
    info.num_chars = info.num_chars + line.unicode_len();
    info.num_bytes = info.num_bytes + line.len();
}

/// Counts the lines, words, characters and bytes of a text, reading it
/// line by line: a line ends at a line feed, and a final unterminated
/// remainder still counts as a line.
pub fn run_count(text: &str) -> (r: FileInfo)
    ensures
        r@ == spec_count(text@),
{
    let b = text.as_bytes();
    proof {
        assert(vstd::slice::spec_slice_len(b) == b@.len());
    }
    let n = text.unicode_len();
    let mut info = FileInfo { num_lines: 0, num_words: 0, num_chars: 0, num_bytes: 0 };
    let mut start: usize = 0;
    let mut i: usize = 0;
    while i < n
        invariant
            n == text@.len(),
            encode_utf8(text@).len() <= usize::MAX,
            start <= i <= n,
            start == 0 || text@[start - 1] == '\n',
            forall|j: int| start <= j < i ==> text@[j] != '\n',
            info.num_lines == line_seq(text@.subrange(0, start as int)).len(),
            info.num_words == words_sum(line_seq(text@.subrange(0, start as int))),
            info.num_chars == start,
            info.num_bytes == encode_utf8(text@.subrange(0, start as int)).len(),
            info.num_words <= start,
            info.num_lines <= start,
        decreases n - i,
    {
        let c = text.get_char(i);
        if c == '\n' {
            let line = text.substring_char(start, i + 1);
            proof {
                lemma_extend_prefix(text@, start as int, i + 1);
            }
            tally_line(&mut info, line);
            start = i + 1;
        }
        i = i + 1;
    }
    if start < n {
        let line = text.substring_char(start, n);
        proof {
            lemma_extend_prefix(text@, start as int, n as int);
        }
        tally_line(&mut info, line);
    }
    proof {
        assert(text@.subrange(0, text@.len() as int) =~= text@);
    }
    info
}

} // verus!
