use greppable_wordlist::{GrepError, GreppableWordlist};

fn wordlist(contents: &str) -> GreppableWordlist {
    GreppableWordlist::new_from_bytes(contents.as_bytes().to_vec())
}

#[test]
fn it_works() {
    // Three words, then a blank final line.
    let mut wl = wordlist("clue\nanswer\ncoin\n\n");
    let result = wl.grep(r"co.n").unwrap();
    assert_eq!(result, vec!["coin\n"]);

    wl.rewind();
    let result2 = wl.grep(r"c...").unwrap();
    assert_eq!(result2, vec!["clue\n", "coin\n"]);
}

#[test]
fn preserves_file_order() {
    let mut wl = wordlist("beta\nalpha\ngamma\nalpine\n");
    let result = wl.grep(r"al").unwrap();
    assert_eq!(result, vec!["alpha\n", "alpine\n"]);
}

#[test]
fn second_scan_without_rewind_sees_nothing() {
    let mut wl = wordlist("clue\nanswer\ncoin\n");
    let first = wl.grep(r"co.n").unwrap();
    assert_eq!(first, vec!["coin\n"]);
    // The first scan consumed the whole file; the second starts at its end.
    let second = wl.grep(r"c...").unwrap();
    assert_eq!(second, Vec::<String>::new());
}

#[test]
fn scans_partition_the_file() {
    let mut wl = wordlist("clue\nanswer\ncoin\n");
    let mut first = wl.grep(r"c...").unwrap();
    let second = wl.grep(r"c...").unwrap();
    wl.rewind();
    let full = wl.grep(r"c...").unwrap();
    first.extend(second);
    assert_eq!(first, full);
}

#[test]
fn rescan_after_rewind_is_identical() {
    let mut wl = wordlist("clue\nanswer\ncoin\n");
    let first = wl.grep(r"n").unwrap();
    wl.rewind();
    let second = wl.grep(r"n").unwrap();
    assert_eq!(first, second);
}

#[test]
fn no_match_yields_empty_not_error() {
    let mut wl = wordlist("clue\nanswer\ncoin\n");
    let result = wl.grep(r"zzz").unwrap();
    assert_eq!(result, Vec::<String>::new());
    assert_eq!(wl.position(), "clue\nanswer\ncoin\n".len());
}

#[test]
fn malformed_pattern_fails_without_scanning() {
    let mut wl = wordlist("clue\nanswer\ncoin\n");
    assert_eq!(wl.grep(r"co(n").unwrap_err(), GrepError::InvalidPattern);
    // The read position is untouched: a later search still sees everything.
    assert_eq!(wl.position(), 0);
    let result = wl.grep(r"co.n").unwrap();
    assert_eq!(result, vec!["coin\n"]);
}

#[test]
fn last_line_without_terminator_is_scanned() {
    let mut wl = wordlist("clue\ncoin");
    let result = wl.grep(r"co.n").unwrap();
    assert_eq!(result, vec!["coin"]);
}

#[test]
fn empty_file_yields_empty_result() {
    let mut wl = wordlist("");
    let result = wl.grep(r"c...").unwrap();
    assert_eq!(result, Vec::<String>::new());
    let all = wl.grep(r".*").unwrap();
    assert_eq!(all, Vec::<String>::new());
}

#[test]
fn matched_line_with_invalid_utf8_is_an_encoding_error() {
    let mut wl = GreppableWordlist::new_from_bytes(vec![0xff, 0xfe, b'\n', b'o', b'k', b'\n']);
    // The empty pattern matches every line, including the non-UTF-8 one.
    assert_eq!(wl.grep(r"").unwrap_err(), GrepError::EncodingError);
}

#[test]
fn unmatched_invalid_utf8_line_is_no_error() {
    let mut wl = GreppableWordlist::new_from_bytes(vec![0xff, 0xfe, b'\n', b'o', b'k', b'\n']);
    let result = wl.grep(r"ok").unwrap();
    assert_eq!(result, vec!["ok\n"]);
}

#[test]
fn anchors_apply_to_the_line_content() {
    // The matcher sees the line without its terminator, so `$` can anchor
    // the end of a line even when the line ends in a newline byte.
    let mut wl = wordlist("coins\ncoin\n");
    let result = wl.grep(r"coin$").unwrap();
    assert_eq!(result, vec!["coin\n"]);
}

#[test]
fn result_keeps_exact_bytes_and_terminators() {
    let mut wl = wordlist("a\n\nab");
    let result = wl.grep(r".*").unwrap();
    assert_eq!(result, vec!["a\n", "\n", "ab"]);
}
