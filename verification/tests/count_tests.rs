use wcr::run_count;
use wcr::FileInfo;

#[test]
fn test_count() {
    let text = "I don't want the world. I just want your half.\r\n";
    let info = run_count(text);
    let expected = FileInfo { num_lines: 1, num_words: 10, num_chars: 48, num_bytes: 48 };
    assert_eq!(info, expected);
}

#[test]
fn empty_stream_counts_zero() {
    let info = run_count("");
    let expected = FileInfo { num_lines: 0, num_words: 0, num_chars: 0, num_bytes: 0 };
    assert_eq!(info, expected);
}

#[test]
fn counting_twice_gives_identical_records() {
    let text = "some words here\nand a second line\n";
    let first = run_count(text);
    let second = run_count(&text.to_owned());
    assert_eq!(first, second);
}

#[test]
fn counts_are_additive_at_line_boundaries() {
    let a = "one two\n";
    let b = "three four\nfive";
    let mut sum = run_count(a);
    sum.add(run_count(b));
    let whole = run_count(&(a.to_owned() + b));
    assert_eq!(sum, whole);
}

#[test]
fn line_count_is_line_feeds_plus_unterminated_remainder() {
    assert_eq!(run_count("a\nb").num_lines, 2);
    assert_eq!(run_count("a\n").num_lines, 1);
    assert_eq!(run_count("\n\n").num_lines, 2);
    assert_eq!(run_count("no terminator").num_lines, 1);
}

#[test]
fn words_are_whitespace_delimited() {
    let info = run_count("  hello   world \n");
    assert_eq!(info.num_words, 2);
    assert_eq!(run_count("one\ntwo three\n").num_words, 3);
}

#[test]
fn multibyte_characters_count_once_each() {
    let info = run_count("h\u{e9}llo\n");
    assert_eq!(info.num_chars, 6);
    assert_eq!(info.num_bytes, 7);
    assert_eq!(info.num_lines, 1);
    assert_eq!(info.num_words, 1);
}

#[test]
fn add_sums_pointwise() {
    let mut total = FileInfo { num_lines: 1, num_words: 2, num_chars: 3, num_bytes: 4 };
    total.add(FileInfo { num_lines: 10, num_words: 20, num_chars: 30, num_bytes: 40 });
    let expected = FileInfo { num_lines: 11, num_words: 22, num_chars: 33, num_bytes: 44 };
    assert_eq!(total, expected);
}
