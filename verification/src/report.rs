//! The report formatter.
//!
//! The report is a column-aligned table: one row per successful input with
//! one numeric cell per enabled metric (in the fixed order lines, words,
//! characters, bytes) followed by the input's display name, and a final
//! `total` row when more than one input was requested.  Every numeric cell
//! is left-padded with spaces to the width of the widest cell of the
//! table, floored at a fixed minimum of 7.  Failed inputs produce one
//! unpadded diagnostic line each on the error channel instead.

use vstd::prelude::*;
use vstd::string::StrSliceExecFns;
use vstd::string::StringExecFns;

use crate::config::Cli;
use crate::counts::combined;
use crate::counts::CountsView;
use crate::counts::FileInfo;

verus! {

/// The outcome of one input: a count record with its display name, or the
/// message of the failure that prevented counting.
#[derive(Debug)]
pub enum InputResult {
    Success(FileInfo, String),
    Failure(String),
}

/// The mathematical value of an input outcome.
#[verifier::ext_equal]
pub ghost enum ResultView {
    Success { counts: CountsView, name: Seq<char> },
    Failure { message: Seq<char> },
}

impl View for InputResult {
    type V = ResultView;

    open spec fn view(&self) -> ResultView {
        match self {
            InputResult::Success(info, name) => ResultView::Success {
                counts: info@,
                name: name@,
            },
            InputResult::Failure(message) => ResultView::Failure { message: message@ },
        }
    }
}

impl DeepView for InputResult {
    type V = ResultView;

    open spec fn deep_view(&self) -> ResultView {
        self.view()
    }
}

/// The running total after one more outcome: a success adds its counts
/// pointwise, a failure contributes nothing.
pub open spec fn total_contrib(t: CountsView, r: ResultView) -> CountsView {
    match r {
        ResultView::Success { counts, .. } => combined(t, counts),
        ResultView::Failure { .. } => t,
    }
}

/// The total record: the pointwise sum of every successful record, in
/// input order.
pub open spec fn spec_total(rs: Seq<ResultView>) -> CountsView
    decreases rs.len(),
{
    if rs.len() == 0 {
        CountsView { lines: 0, words: 0, chars: 0, bytes: 0 }
    } else {
        total_contrib(spec_total(rs.drop_last()), rs.last())
    }
}

/// The decimal digit character for `d`.
pub open spec fn digit_char(d: nat) -> char {
    if d == 0 {
        '0'
    } else if d == 1 {
        '1'
    } else if d == 2 {
        '2'
    } else if d == 3 {
        '3'
    } else if d == 4 {
        '4'
    } else if d == 5 {
        '5'
    } else if d == 6 {
        '6'
    } else if d == 7 {
        '7'
    } else if d == 8 {
        '8'
    } else {
        '9'
    }
}

/// The decimal rendering of `n`, most significant digit first.
pub open spec fn dec_str(n: nat) -> Seq<char>
    decreases n,
{
    if n < 10 {
        seq![digit_char(n)]
    } else {
        dec_str(n / 10).push(digit_char(n % 10))
    }
}

/// `k` space characters.
pub open spec fn spaces(k: nat) -> Seq<char>
    decreases k,
{
    if k == 0 {
        Seq::empty()
    } else {
        spaces((k - 1) as nat).push(' ')
    }
}

/// One numeric cell: `v` rendered in decimal, left-padded with spaces to
/// the column width `w`.
pub open spec fn cell_text(v: nat, w: nat) -> Seq<char> {
    if dec_str(v).len() < w {
        spaces((w - dec_str(v).len()) as nat) + dec_str(v)
    } else {
        dec_str(v)
    }
}

/// The numeric cells of one row: one per enabled metric, in the fixed
/// order lines, words, characters, bytes.
pub open spec fn num_cells_text(v: CountsView, c: Cli, w: nat) -> Seq<char> {
    (if c.lines {
        cell_text(v.lines, w)
    } else {
        Seq::<char>::empty()
    }) + (if c.words {
        cell_text(v.words, w)
    } else {
        Seq::<char>::empty()
    }) + (if c.chars {
        cell_text(v.chars, w)
    } else {
        Seq::<char>::empty()
    }) + (if c.bytes {
        cell_text(v.bytes, w)
    } else {
        Seq::<char>::empty()
    })
}

/// A success row: the numeric cells, then a space and the display name
/// when the name is not empty, then a line feed.
pub open spec fn success_row_text(v: CountsView, name: Seq<char>, c: Cli, w: nat) -> Seq<char> {
    num_cells_text(v, c, w) + (if name.len() > 0 {
        seq![' '] + name
    } else {
        Seq::<char>::empty()
    }) + seq!['\n']
}

/// The label of the total row.
pub open spec fn total_label() -> Seq<char> {
    seq!['t', 'o', 't', 'a', 'l']
}

/// The larger of two naturals.
pub open spec fn nmax(a: nat, b: nat) -> nat {
    if a >= b {
        a
    } else {
        b
    }
}

/// The widest decimal rendering among the enabled metrics of one record.
pub open spec fn row_width(v: CountsView, c: Cli) -> nat {
    nmax(
        nmax(
            if c.lines {
                dec_str(v.lines).len()
            } else {
                0nat
            },
            if c.words {
                dec_str(v.words).len()
            } else {
                0nat
            },
        ),
        nmax(
            if c.chars {
                dec_str(v.chars).len()
            } else {
                0nat
            },
            if c.bytes {
                dec_str(v.bytes).len()
            } else {
                0nat
            },
        ),
    )
}

/// The widest cell of one outcome: failures render no numeric cell.
pub open spec fn width_contrib(r: ResultView, c: Cli) -> nat {
    match r {
        ResultView::Success { counts, .. } => row_width(counts, c),
        ResultView::Failure { .. } => 0nat,
    }
}

/// The widest numeric cell across all success rows.
pub open spec fn rows_width(rs: Seq<ResultView>, c: Cli) -> nat
    decreases rs.len(),
{
    if rs.len() == 0 {
        0
    } else {
        nmax(rows_width(rs.drop_last(), c), width_contrib(rs.last(), c))
    }
}

/// The column width of the report: the widest numeric cell across all
/// success rows and the total row, floored at the fixed minimum of 7.
pub open spec fn report_width(rs: Seq<ResultView>, c: Cli) -> nat {
    nmax(7, nmax(rows_width(rs, c), row_width(spec_total(rs), c)))
}

/// The output rows of one outcome: a success renders one row, a failure
/// renders none.
pub open spec fn row_contrib(r: ResultView, c: Cli, w: nat) -> Seq<Seq<char>> {
    match r {
        ResultView::Success { counts, name } => seq![success_row_text(counts, name, c, w)],
        ResultView::Failure { .. } => Seq::<Seq<char>>::empty(),
    }
}

/// The rows of the output channel: one per success, in input order.
pub open spec fn stdout_rows(rs: Seq<ResultView>, c: Cli, w: nat) -> Seq<Seq<char>>
    decreases rs.len(),
{
    if rs.len() == 0 {
        Seq::empty()
    } else {
        stdout_rows(rs.drop_last(), c, w) + row_contrib(rs.last(), c, w)
    }
}

/// The concatenation of a sequence of rows.
pub open spec fn join_rows(rows: Seq<Seq<char>>) -> Seq<char>
    decreases rows.len(),
{
    if rows.len() == 0 {
        Seq::empty()
    } else {
        join_rows(rows.drop_last()) + rows.last()
    }
}

/// The total row of the report.
pub open spec fn total_row_text(rs: Seq<ResultView>, c: Cli, w: nat) -> Seq<char> {
    success_row_text(spec_total(rs), total_label(), c, w)
}

/// The whole output text: the success rows in input order, then the total
/// row when more than one input was requested.  Requested is what counts:
/// a failed input has no row of its own, but it still makes the total row
/// appear.
pub open spec fn stdout_text(rs: Seq<ResultView>, c: Cli) -> Seq<char> {
    join_rows(stdout_rows(rs, c, report_width(rs, c))) + (if rs.len() > 1 {
        total_row_text(rs, c, report_width(rs, c))
    } else {
        Seq::<char>::empty()
    })
}

/// The diagnostic line of one outcome: a failure renders its message, a
/// success renders nothing on the error channel.
pub open spec fn err_contrib(r: ResultView) -> Seq<char> {
    match r {
        ResultView::Failure { message } => message + seq!['\n'],
        ResultView::Success { .. } => Seq::<char>::empty(),
    }
}

/// The whole error-channel text: one line per failure, in input order.
pub open spec fn stderr_text(rs: Seq<ResultView>) -> Seq<char>
    decreases rs.len(),
{
    if rs.len() == 0 {
        Seq::empty()
    } else {
        stderr_text(rs.drop_last()) + err_contrib(rs.last())
    }
}

/// Extending the outcomes by one step: how each fold over the outcomes
/// grows when the prefix under consideration grows by one element.
proof fn lemma_fold_step(rs: Seq<ResultView>, c: Cli, w: nat, i: int)
    requires
        0 <= i < rs.len(),
    ensures
        spec_total(rs.subrange(0, i + 1)) == total_contrib(spec_total(rs.subrange(0, i)), rs[i]),
        rows_width(rs.subrange(0, i + 1), c) == nmax(
            rows_width(rs.subrange(0, i), c),
            width_contrib(rs[i], c),
        ),
        stdout_rows(rs.subrange(0, i + 1), c, w) == stdout_rows(rs.subrange(0, i), c, w)
            + row_contrib(rs[i], c, w),
        stderr_text(rs.subrange(0, i + 1)) == stderr_text(rs.subrange(0, i)) + err_contrib(rs[i]),
{
    assert(rs.subrange(0, i + 1).drop_last() =~= rs.subrange(0, i));
    assert(rs.subrange(0, i + 1).last() == rs[i]);
}

/// Extending the prefix under consideration by one outcome adds that
/// outcome's contribution to the running total.
pub(crate) proof fn lemma_total_step(rs: Seq<ResultView>, i: int)
    requires
        0 <= i < rs.len(),
    ensures
        spec_total(rs.subrange(0, i + 1)) == total_contrib(spec_total(rs.subrange(0, i)), rs[i]),
{
    assert(rs.subrange(0, i + 1).drop_last() =~= rs.subrange(0, i));
    assert(rs.subrange(0, i + 1).last() == rs[i]);
}

/// Every prefix of the outcomes has a total no larger than the whole.
pub(crate) proof fn lemma_total_prefix_le(rs: Seq<ResultView>, i: int)
    requires
        0 <= i <= rs.len(),
    ensures
        spec_total(rs.subrange(0, i)).lines <= spec_total(rs).lines,
        spec_total(rs.subrange(0, i)).words <= spec_total(rs).words,
        spec_total(rs.subrange(0, i)).chars <= spec_total(rs).chars,
        spec_total(rs.subrange(0, i)).bytes <= spec_total(rs).bytes,
    decreases rs.len() - i,
{
    if i == rs.len() {
        assert(rs.subrange(0, i) =~= rs);
    } else {
        lemma_total_step(rs, i);
        lemma_total_prefix_le(rs, i + 1);
    }
}

/// Appending one row to a joined text appends its characters.
proof fn lemma_join_push(rows: Seq<Seq<char>>, r: Seq<char>)
    ensures
        join_rows(rows.push(r)) == join_rows(rows) + r,
{
    assert(rows.push(r).drop_last() =~= rows);
}

/// Failures contribute nothing to the total: inserting a failure anywhere
/// among the outcomes leaves the total unchanged.
pub proof fn lemma_total_ignores_failures(a: Seq<ResultView>, m: Seq<char>, b: Seq<ResultView>)
    ensures
        spec_total(a + seq![ResultView::Failure { message: m }] + b) == spec_total(a + b),
    decreases b.len(),
{
    let f = ResultView::Failure { message: m };
    if b.len() == 0 {
        assert(a + b =~= a);
        assert((a + seq![f] + b) =~= a + seq![f]);
        assert((a + seq![f]).drop_last() =~= a);
        assert((a + seq![f]).last() == f);
    } else {
        assert((a + seq![f] + b).drop_last() =~= a + seq![f] + b.drop_last());
        assert((a + b).drop_last() =~= a + b.drop_last());
        assert((a + seq![f] + b).last() == b.last());
        assert((a + b).last() == b.last());
        lemma_total_ignores_failures(a, m, b.drop_last());
    }
}

/// The rows follow the input order: the rows for `rs.push(r)` are the rows
/// for `rs`, with the row for `r` (if it renders one) appended.
pub proof fn lemma_rows_follow_input_order(rs: Seq<ResultView>, r: ResultView, c: Cli, w: nat)
    ensures
        stdout_rows(rs.push(r), c, w) == stdout_rows(rs, c, w) + row_contrib(r, c, w),
{
    assert(rs.push(r).drop_last() =~= rs);
    assert(rs.push(r).last() == r);
}

/// When more than one input was requested, the output text is the success
/// rows followed by the total row: the total row stands last.
pub proof fn lemma_total_row_last(rs: Seq<ResultView>, c: Cli)
    requires
        rs.len() > 1,
    ensures
        stdout_text(rs, c) == join_rows(stdout_rows(rs, c, report_width(rs, c)))
            + total_row_text(rs, c, report_width(rs, c)),
{
}

/// The decimal digit for `d` as a one-character string.
fn digit_string(d: usize) -> (s: String)
    requires
        d < 10,
    ensures
        s@ == seq![digit_char(d as nat)],
{
    let s = if d == 0 {
        String::from_str("0")
    } else if d == 1 {
        String::from_str("1")
    } else if d == 2 {
        String::from_str("2")
    } else if d == 3 {
        String::from_str("3")
    } else if d == 4 {
        String::from_str("4")
    } else if d == 5 {
        String::from_str("5")
    } else if d == 6 {
        String::from_str("6")
    } else if d == 7 {
        String::from_str("7")
    } else if d == 8 {
        String::from_str("8")
    } else {
        String::from_str("9")
    };
    proof {
        reveal_strlit("0");
        reveal_strlit("1");
        reveal_strlit("2");
        reveal_strlit("3");
        reveal_strlit("4");
        reveal_strlit("5");
        reveal_strlit("6");
        reveal_strlit("7");
        reveal_strlit("8");
        reveal_strlit("9");
        assert(s@ =~= seq![digit_char(d as nat)]);
    }
    s
}

/// Renders `v` in decimal.
fn dec_string(v: usize) -> (s: String)
    ensures
        s@ == dec_str(v as nat),
    decreases v,
{
    if v < 10 {
        digit_string(v)
    } else {
        let mut s = dec_string(v / 10);
        let d = digit_string(v % 10);
        s.append(d.as_str());
        proof {
            assert(s@ =~= dec_str(v as nat));
        }
        s
    }
}

/// The width of `v`'s decimal rendering.
fn dec_len(v: usize) -> (l: usize)
    ensures
        l == dec_str(v as nat).len(),
{
    let s = dec_string(v);
    s.as_str().unicode_len()
}

/// Appends `k` spaces.
fn push_spaces(out: &mut String, k: usize)
    ensures
        final(out)@ == old(out)@ + spaces(k as nat),
{
    let ghost out0 = out@;
    let mut j: usize = 0;
    proof {
        assert(out0 + spaces(0) =~= out0);
    }
    while j < k
        invariant
            j <= k,
            out@ == out0 + spaces(j as nat),
        decreases k - j,
    {
        out.append(" ");
        proof {
            reveal_strlit(" ");
            assert(out@ =~= out0 + spaces((j + 1) as nat));
        }
        j = j + 1;
    }
}

/// Appends one numeric cell: `v` in decimal, left-padded to width `w`.
fn push_padded(out: &mut String, v: usize, w: usize)
    ensures
        final(out)@ == old(out)@ + cell_text(v as nat, w as nat),
{
    let ghost out0 = out@;
    let s = dec_string(v);
    let l = s.as_str().unicode_len();
    if l < w {
        push_spaces(out, w - l);
    }
    out.append(s.as_str());
    proof {
        assert(out@ =~= out0 + cell_text(v as nat, w as nat));
    }
}

/// Appends the numeric cells of one record, in the fixed metric order.
#[verifier::rlimit(30)]
fn push_cells(out: &mut String, info: &FileInfo, cli: &Cli, w: usize)
    ensures
        final(out)@ == old(out)@ + num_cells_text(info@, *cli, w as nat),
{
    let ghost out0 = out@;
    if cli.lines {
        push_padded(out, info.num_lines, w);
    }
    let ghost out1 = out@;
    proof {
        assert(out1 =~= out0 + (if cli.lines {
            cell_text(info@.lines, w as nat)
        } else {
            Seq::<char>::empty()
        }));
    }
    if cli.words {
        push_padded(out, info.num_words, w);
    }
    let ghost out2 = out@;
    proof {
        assert(out2 =~= out1 + (if cli.words {
            cell_text(info@.words, w as nat)
        } else {
            Seq::<char>::empty()
        }));
    }
    if cli.chars {
        push_padded(out, info.num_chars, w);
    }
    let ghost out3 = out@;
    proof {
        assert(out3 =~= out2 + (if cli.chars {
            cell_text(info@.chars, w as nat)
        } else {
            Seq::<char>::empty()
        }));
    }
    if cli.bytes {
        push_padded(out, info.num_bytes, w);
    }
    proof {
        assert(out@ =~= out3 + (if cli.bytes {
            cell_text(info@.bytes, w as nat)
        } else {
            Seq::<char>::empty()
        }));
        assert(out@ =~= out0 + num_cells_text(info@, *cli, w as nat));
    }
}

/// Appends one success row: the cells, the display name when it is not
/// empty, and a line feed.
fn push_row(out: &mut String, info: &FileInfo, name: &str, cli: &Cli, w: usize)
    ensures
        final(out)@ == old(out)@ + success_row_text(info@, name@, *cli, w as nat),
{
    let ghost out0 = out@;
    push_cells(out, info, cli, w);
    if !name.is_empty() {
        out.append(" ");
        out.append(name);
    }
    out.append("\n");
    proof {
        reveal_strlit(" ");
        reveal_strlit("\n");
        assert(out@ =~= out0 + success_row_text(info@, name@, *cli, w as nat));
    }
}

/// The widest numeric cell of one record among the enabled metrics.
fn row_max(info: &FileInfo, cli: &Cli) -> (m: usize)
    ensures
        m == row_width(info@, *cli),
{
    let mut m: usize = 0;
    if cli.lines {
        let l = dec_len(info.num_lines);
        if l > m {
            m = l;
        }
    }
    if cli.words {
        let l = dec_len(info.num_words);
        if l > m {
            m = l;
        }
    }
    if cli.chars {
        let l = dec_len(info.num_chars);
        if l > m {
            m = l;
        }
    }
    if cli.bytes {
        let l = dec_len(info.num_bytes);
        if l > m {
            m = l;
        }
    }
    m
}

/// Renders the report.  The first returned text is the output channel: one
/// aligned row per success in input order, then a total row when more than
/// one input was requested.  The second is the error channel: one line per
/// failure, in input order.
pub fn display(results: &Vec<InputResult>, cli: &Cli) -> (texts: (String, String))
    requires
        cli.some_metric(),
        spec_total(results.deep_view()).lines <= usize::MAX,
        spec_total(results.deep_view()).words <= usize::MAX,
        spec_total(results.deep_view()).chars <= usize::MAX,
        spec_total(results.deep_view()).bytes <= usize::MAX,
    ensures
        texts.0@ == stdout_text(results.deep_view(), *cli),
        texts.1@ == stderr_text(results.deep_view()),
{
    let ghost dv = results.deep_view();
    let (total, width) = total_and_width(results, cli);
    let (mut out, err) = render_rows(results, cli, width);
    if results.len() > 1 {
        let ghost row0 = out@;
        push_cells(&mut out, &total, cli, width);
        out.append(" total\n");
        proof {
            reveal_strlit(" total\n");
            assert(out@ =~= row0 + total_row_text(dv, *cli, width as nat));
        }
    } else {
        proof {
            assert(out@ + Seq::<char>::empty() =~= out@);
        }
    }
    proof {
        assert(out@ =~= stdout_text(dv, *cli));
    }
    (out, err)
}

/// Accumulates the total record and computes the column width of the
/// report.
fn total_and_width(results: &Vec<InputResult>, cli: &Cli) -> (r: (FileInfo, usize))
    requires
        spec_total(results.deep_view()).lines <= usize::MAX,
        spec_total(results.deep_view()).words <= usize::MAX,
        spec_total(results.deep_view()).chars <= usize::MAX,
        spec_total(results.deep_view()).bytes <= usize::MAX,
    ensures
        r.0@ == spec_total(results.deep_view()),
        r.1 == report_width(results.deep_view(), *cli),
{
    let ghost dv = results.deep_view();
    let mut total = FileInfo { num_lines: 0, num_words: 0, num_chars: 0, num_bytes: 0 };
    let mut maxw: usize = 0;
    let mut i: usize = 0;
    proof {
        assert(dv.subrange(0, 0) =~= Seq::<ResultView>::empty());
    }
    while i < results.len()
        invariant
            dv == results.deep_view(),
            i <= dv.len(),
            spec_total(dv).lines <= usize::MAX,
            spec_total(dv).words <= usize::MAX,
            spec_total(dv).chars <= usize::MAX,
            spec_total(dv).bytes <= usize::MAX,
            total@ == spec_total(dv.subrange(0, i as int)),
            maxw == rows_width(dv.subrange(0, i as int), *cli),
        decreases dv.len() - i,
    {
        proof {
            lemma_fold_step(dv, *cli, 0, i as int);
            lemma_total_prefix_le(dv, i as int + 1);
        }
        match &results[i] {
            InputResult::Success(info, _) => {
                let m = row_max(info, cli);
                if m > maxw {
                    maxw = m;
                }
                total.add(*info);
            },
            InputResult::Failure(_) => {},
        }
        i = i + 1;
    }
    proof {
        assert(dv.subrange(0, dv.len() as int) =~= dv);
    }
    let tmax = row_max(&total, cli);
    let mut width: usize = 7;
    if maxw > width {
        width = maxw;
    }
    if tmax > width {
        width = tmax;
    }
    (total, width)
}

/// Renders the per-input rows: the success rows joined on the output text,
/// the failure lines joined on the error text.
fn render_rows(results: &Vec<InputResult>, cli: &Cli, width: usize) -> (texts: (String, String))
    ensures
        texts.0@ == join_rows(stdout_rows(results.deep_view(), *cli, width as nat)),
        texts.1@ == stderr_text(results.deep_view()),
{
    let ghost dv = results.deep_view();
    let mut out = String::new();
    let mut err = String::new();
    let mut i: usize = 0;
    proof {
        assert(dv.subrange(0, 0) =~= Seq::<ResultView>::empty());
    }
    while i < results.len()
        invariant
            dv == results.deep_view(),
            i <= dv.len(),
            out@ == join_rows(stdout_rows(dv.subrange(0, i as int), *cli, width as nat)),
            err@ == stderr_text(dv.subrange(0, i as int)),
        decreases dv.len() - i,
    {
        proof {
            lemma_fold_step(dv, *cli, width as nat, i as int);
        }
        match &results[i] {
            InputResult::Success(info, name) => {
                let ghost rows0 = stdout_rows(dv.subrange(0, i as int), *cli, width as nat);
                push_row(&mut out, info, name.as_str(), cli, width);
                proof {
                    lemma_join_push(rows0, success_row_text(info@, name@, *cli, width as nat));
                    assert(rows0.push(success_row_text(info@, name@, *cli, width as nat))
                        =~= stdout_rows(dv.subrange(0, i as int + 1), *cli, width as nat));
                    assert(err@ =~= stderr_text(dv.subrange(0, i as int + 1)));
                }
            },
            InputResult::Failure(message) => {
                err.append(message.as_str());
                err.append("\n");
                proof {
                    reveal_strlit("\n");
                    assert(err@ =~= stderr_text(dv.subrange(0, i as int + 1)));
                    assert(stdout_rows(dv.subrange(0, i as int + 1), *cli, width as nat)
                        =~= stdout_rows(dv.subrange(0, i as int), *cli, width as nat));
                }
            },
        }
        i = i + 1;
    }
    proof {
        assert(dv.subrange(0, dv.len() as int) =~= dv);
    }
    (out, err)
}

} // verus!
