//! The result aggregator.
//!
//! The aggregator walks the requested inputs in order, turns what reading
//! each of them produced into a tagged outcome — a counted record with its
//! display name, or a failure message — and hands the outcomes to the
//! report formatter.  A failure never aborts the run: it is isolated in
//! its own outcome and the remaining inputs are still processed.

use vstd::prelude::*;
use vstd::string::StringExecFns;

use crate::config::Cli;
use crate::counts::run_count;
use crate::counts::spec_count;
use crate::counts::combined;
use crate::counts::FileInfo;
use crate::report::display;
use crate::report::lemma_total_prefix_le;
use crate::report::lemma_total_step;
use crate::report::spec_total;
use crate::report::stderr_text;
use crate::report::stdout_text;
use crate::report::InputResult;
use crate::report::ResultView;

verus! {

/// The outcome of one input: readable content is counted, and the display
/// name is the input's name, except the standard-input sentinel `-`, which
/// shows as an empty name; a failed input keeps the cause of its failure,
/// prefixed with the input's name.
pub open spec fn spec_result(file: Seq<char>, outcome: Result<String, String>) -> ResultView {
    match outcome {
        Ok(text) => ResultView::Success {
            counts: spec_count(text@),
            name: if file == seq!['-'] {
                Seq::<char>::empty()
            } else {
                file
            },
        },
        Err(cause) => ResultView::Failure { message: file + seq![':', ' '] + cause@ },
    }
}

/// The outcomes of all inputs, in input order.
pub open spec fn spec_results(files: Seq<String>, contents: Seq<Result<String, String>>) -> Seq<
    ResultView,
> {
    Seq::new(files.len(), |i: int| spec_result(files[i]@, contents[i]))
}

/// Counts every requested input and renders the report.
///
/// `contents` holds what reading each input produced, one entry per name
/// in `cli.files`, in the same order: the decoded text of the input, or
/// the cause of the failure that prevented reading it.  Returns the
/// output-channel text (one aligned row per counted input, and a total row
/// when more than one input was requested) and the error-channel text (one
/// line per failed input).
pub fn run(cli: Cli, contents: Vec<Result<String, String>>) -> (texts: (String, String))
    requires
        cli.some_metric(),
        contents@.len() == cli.files@.len(),
        spec_total(spec_results(cli.files@, contents@)).lines <= usize::MAX,
        spec_total(spec_results(cli.files@, contents@)).words <= usize::MAX,
        spec_total(spec_results(cli.files@, contents@)).chars <= usize::MAX,
        spec_total(spec_results(cli.files@, contents@)).bytes <= usize::MAX,
    ensures
        texts.0@ == stdout_text(spec_results(cli.files@, contents@), cli),
        texts.1@ == stderr_text(spec_results(cli.files@, contents@)),
{
    let results = gather(&cli.files, &contents);
    display(&results, &cli)
}

/// Counts every requested input and renders the report, first checking
/// that the four grand totals fit the machine's word size: the result is
/// `None` exactly when one of them does not (the only inputs on which
/// [`run`] cannot be called).
pub fn try_run(cli: Cli, contents: Vec<Result<String, String>>) -> (r: Option<(String, String)>)
    requires
        cli.some_metric(),
        contents@.len() == cli.files@.len(),
    ensures
        r is Some <==> (spec_total(spec_results(cli.files@, contents@)).lines <= usize::MAX
            && spec_total(spec_results(cli.files@, contents@)).words <= usize::MAX && spec_total(
            spec_results(cli.files@, contents@),
        ).chars <= usize::MAX && spec_total(spec_results(cli.files@, contents@)).bytes
            <= usize::MAX),
        r matches Some(texts) ==> texts.0@ == stdout_text(spec_results(cli.files@, contents@), cli)
            && texts.1@ == stderr_text(spec_results(cli.files@, contents@)),
{
    let ghost rs = spec_results(cli.files@, contents@);
    let results = gather(&cli.files, &contents);
    let mut total = FileInfo { num_lines: 0, num_words: 0, num_chars: 0, num_bytes: 0 };
    let mut i: usize = 0;
    proof {
        assert(rs.subrange(0, 0) =~= Seq::<ResultView>::empty());
    }
    while i < results.len()
        invariant
            rs == spec_results(cli.files@, contents@),
            results.deep_view() == rs,
            i <= rs.len(),
            total@ == spec_total(rs.subrange(0, i as int)),
        decreases rs.len() - i,
    {
        proof {
            lemma_total_step(rs, i as int);
        }
        match &results[i] {
            InputResult::Success(info, name) => {
                let ok = total.try_add(*info);
                if !ok {
                    proof {
                        assert(results.deep_view()[i as int] == results@[i as int].deep_view());
                        assert(rs[i as int] == ResultView::Success {
                            counts: info@,
                            name: name@,
                        });
                        assert(spec_total(rs.subrange(0, i as int + 1)) == combined(
                            spec_total(rs.subrange(0, i as int)),
                            info@,
                        ));
                        lemma_total_prefix_le(rs, i as int + 1);
                    }
                    return None;
                }
            },
            InputResult::Failure(_) => {},
        }
        i = i + 1;
    }
    proof {
        assert(rs.subrange(0, rs.len() as int) =~= rs);
    }
    Some(display(&results, &cli))
}

/// Builds the outcome of every input, in input order: readable content is
/// counted, a failed input becomes a failure message prefixed with its
/// name.
fn gather(files: &Vec<String>, contents: &Vec<Result<String, String>>) -> (results: Vec<
    InputResult,
>)
    requires
        contents@.len() == files@.len(),
    ensures
        results.deep_view() == spec_results(files@, contents@),
{
    let ghost rs = spec_results(files@, contents@);
    let mut results: Vec<InputResult> = Vec::new();
    let mut i: usize = 0;
    proof {
        assert(results.deep_view() =~= rs.subrange(0, 0));
    }
    while i < contents.len()
        invariant
            rs == spec_results(files@, contents@),
            contents@.len() == files@.len(),
            i <= contents@.len(),
            results.deep_view() == rs.subrange(0, i as int),
        decreases contents@.len() - i,
    {
        let ghost results0 = results.deep_view();
        let ghost v0 = results@;
        let filename = &files[i];
        let res = match &contents[i] {
            Ok(text) => {
                let info = run_count(text.as_str());
                let dash = String::from_str("-");
                let name = if *filename == dash {
                    String::new()
                } else {
                    filename.clone()
                };
                proof {
                    reveal_strlit("-");
                    assert(dash@ =~= seq!['-']);
                }
                InputResult::Success(info, name)
            },
            Err(cause) => {
                let mut msg = filename.clone();
                msg.append(": ");
                msg.append(cause.as_str());
                proof {
                    reveal_strlit(": ");
                    assert(msg@ =~= filename@ + seq![':', ' '] + cause@);
                }
                InputResult::Failure(msg)
            },
        };
        proof {
            assert(res@ =~= rs[i as int]);
        }
        results.push(res);
        proof {
            assert(results0.len() == v0.len());
            assert(results0.len() == i as int);
            let dvn = results.deep_view();
            assert(dvn.len() == i as int + 1);
            assert forall|j: int| 0 <= j <= i as int implies dvn[j] == rs[j] by {
                assert(dvn[j] == results@[j].deep_view());
                if j < i as int {
                    assert(results@[j] == v0[j]);
                    assert(results0[j] == v0[j].deep_view());
                    assert(results0[j] == rs.subrange(0, i as int)[j]);
                } else {
                    assert(results@[j] == res);
                }
            }
            assert(results.deep_view() =~= rs.subrange(0, i as int + 1));
        }
        i = i + 1;
    }
    proof {
        assert(rs.subrange(0, rs.len() as int) =~= rs);
        assert(results.deep_view() == rs);
    }
    results
}

} // verus!
