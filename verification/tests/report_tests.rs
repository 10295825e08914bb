use wcr::display;
use wcr::run;
use wcr::Cli;
use wcr::FileInfo;
use wcr::InputResult;

fn default_cli(files: Vec<&str>) -> Cli {
    let mut cli = Cli {
        files: files.into_iter().map(|f| f.to_owned()).collect(),
        bytes: false,
        chars: false,
        lines: false,
        words: false,
    };
    cli.apply_defaults();
    cli
}

#[test]
fn single_stdin_row_has_no_label() {
    let cli = default_cli(vec!["-"]);
    let text = "I don't want the world. I just want your half.\r\n";
    let (out, err) = run(cli, vec![Ok(text.to_owned())]);
    assert_eq!(out, "      1     10     48\n");
    assert_eq!(err, "");
}

#[test]
fn one_failure_one_success_keeps_both_channels() {
    let cli = default_cli(vec!["a.txt", "missing"]);
    let contents = vec![
        Ok("x y\n".to_owned()),
        Err("No such file or directory (os error 2)".to_owned()),
    ];
    let (out, err) = run(cli, contents);
    // Two inputs were requested, so the total row is shown even though only
    // one produced a data row.
    assert_eq!(out, "      1      2      4 a.txt\n      1      2      4 total\n");
    assert_eq!(err, "missing: No such file or directory (os error 2)\n");
}

#[test]
fn lines_only_still_pads_to_minimum_width() {
    let mut cli = default_cli(vec!["f"]);
    cli.lines = true;
    cli.words = false;
    cli.chars = false;
    cli.bytes = false;
    let (out, err) = run(cli, vec![Ok("a\nb\nc\n".to_owned())]);
    assert_eq!(out, "      3 f\n");
    assert_eq!(err, "");
}

#[test]
fn rows_keep_input_order_and_total_is_last() {
    let cli = default_cli(vec!["b", "a"]);
    let contents = vec![Ok("two words\n".to_owned()), Ok("one\n".to_owned())];
    let (out, err) = run(cli, contents);
    let expected = "      1      2     10 b\n      1      1      4 a\n      2      3     14 total\n";
    assert_eq!(out, expected);
    assert_eq!(err, "");
}

#[test]
fn stdin_row_in_multi_input_report_ends_without_trailing_space() {
    let cli = default_cli(vec!["-", "f"]);
    let (out, err) = run(cli, vec![Ok("a\n".to_owned()), Ok("b\n".to_owned())]);
    let expected =
        "      1      1      2\n      1      1      2 f\n      2      2      4 total\n";
    assert_eq!(out, expected);
    assert_eq!(err, "");
}

#[test]
fn single_failed_input_prints_no_table() {
    let cli = default_cli(vec!["nope"]);
    let (out, err) = run(cli, vec![Err("gone".to_owned())]);
    assert_eq!(out, "");
    assert_eq!(err, "nope: gone\n");
}

#[test]
fn chars_metric_counts_characters_not_bytes() {
    let mut cli = default_cli(vec!["f"]);
    cli.lines = false;
    cli.words = false;
    cli.chars = true;
    cli.bytes = false;
    let (out, _) = run(cli, vec![Ok("h\u{e9}llo\n".to_owned())]);
    assert_eq!(out, "      6 f\n");
}

#[test]
fn wide_counts_stretch_every_column() {
    let mut cli = default_cli(vec![]);
    cli.lines = true;
    cli.words = false;
    cli.chars = false;
    cli.bytes = false;
    let results = vec![
        InputResult::Success(
            FileInfo { num_lines: 12345678, num_words: 0, num_chars: 0, num_bytes: 0 },
            "big".to_owned(),
        ),
        InputResult::Success(
            FileInfo { num_lines: 3, num_words: 0, num_chars: 0, num_bytes: 0 },
            "small".to_owned(),
        ),
    ];
    let (out, err) = display(&results, &cli);
    assert_eq!(out, "12345678 big\n       3 small\n12345681 total\n");
    assert_eq!(err, "");
}

#[test]
fn failures_do_not_reach_the_total() {
    let cli = default_cli(vec!["x", "bad", "y"]);
    let contents = vec![
        Ok("a\n".to_owned()),
        Err("denied".to_owned()),
        Ok("b c\n".to_owned()),
    ];
    let (out, err) = run(cli, contents);
    let expected = "      1      1      2 x\n      1      2      4 y\n      2      3      6 total\n";
    assert_eq!(out, expected);
    assert_eq!(err, "bad: denied\n");
}

#[test]
fn try_run_agrees_with_run_on_ordinary_inputs() {
    let contents = || vec![Ok("a b\n".to_owned()), Err("gone".to_owned())];
    let checked = wcr::try_run(default_cli(vec!["f", "g"]), contents())
        .expect("small totals must be accepted");
    let plain = wcr::run(default_cli(vec!["f", "g"]), contents());
    assert_eq!(checked, plain);
}

#[test]
fn try_add_reports_overflow_and_keeps_the_record() {
    let mut total = FileInfo { num_lines: usize::MAX, num_words: 0, num_chars: 0, num_bytes: 0 };
    let ok = total.try_add(FileInfo { num_lines: 1, num_words: 2, num_chars: 3, num_bytes: 4 });
    assert!(!ok);
    assert_eq!(total.num_lines, usize::MAX);
    assert_eq!(total.num_words, 0);
}

#[test]
fn no_requested_metric_defaults_to_lines_words_bytes() {
    let cli = default_cli(vec!["-"]);
    assert!(cli.lines && cli.words && cli.bytes);
    assert!(!cli.chars);
}

#[test]
fn requested_metrics_are_kept_as_given() {
    let mut cli = Cli {
        files: vec!["-".to_owned()],
        bytes: false,
        chars: true,
        lines: false,
        words: false,
    };
    cli.apply_defaults();
    assert!(cli.chars);
    assert!(!cli.lines && !cli.words && !cli.bytes);
}
