use logan::filter::{filter_lines, get_matches, put_matches, select_lines, ReadError};
use logan::lines::split_lines;
use logan::pattern::{parse_regex, Pattern};

fn pattern(expr: &str) -> Pattern {
    match parse_regex(expr) {
        Ok(p) => p,
        Err(e) => panic!("pattern {:?} did not compile: {:?}", expr, e),
    }
}

fn run(expr: &str, input: &[u8]) -> Vec<u8> {
    match filter_lines(&pattern(expr), input) {
        Ok(out) => out,
        Err(e) => panic!("filter failed: {:?}", e),
    }
}

#[test]
fn digits_keep_matching_lines_in_order() {
    let p = pattern(r"[0-9]+");
    let got = get_matches(&p, b"abc123\nxyz\na1b2\n").unwrap();
    assert_eq!(got, vec!["abc123".to_string(), "a1b2".to_string()]);
    assert_eq!(run(r"[0-9]+", b"abc123\nxyz\na1b2\n"), b"abc123\na1b2\n".to_vec());
}

#[test]
fn no_match_gives_no_bytes() {
    assert_eq!(run("zzz", b"alpha\nbeta\ngamma\n"), Vec::<u8>::new());
}

#[test]
fn empty_input_gives_empty_output() {
    assert_eq!(run(".*", b""), Vec::<u8>::new());
    assert_eq!(get_matches(&pattern("x"), b"").unwrap(), Vec::<String>::new());
}

#[test]
fn all_lines_matching_adds_final_newline() {
    assert_eq!(run("", b"one\ntwo"), b"one\ntwo\n".to_vec());
    assert_eq!(run("", b"one\ntwo\n"), b"one\ntwo\n".to_vec());
    assert_eq!(run("", b"\n\nx\n"), b"\n\nx\n".to_vec());
}

#[test]
fn carriage_return_before_newline_is_dropped() {
    assert_eq!(run("", b"a1\r\nb2\r\nc3\r"), b"a1\nb2\nc3\r\n".to_vec());
    assert_eq!(run("", b"a\r\r\n"), b"a\r\n".to_vec());
}

#[test]
fn matching_is_not_anchored() {
    let p = pattern("b+");
    assert!(p.is_match("aabbcc"));
    assert!(!p.is_match("aacc"));
    assert_eq!(run("^b", b"ab\nba\n"), b"ba\n".to_vec());
}

#[test]
fn repeated_lines_are_all_kept() {
    assert_eq!(run("err", b"err 1\nok\nerr 1\nerr 1\n"), b"err 1\nerr 1\nerr 1\n".to_vec());
}

#[test]
fn running_twice_gives_identical_output() {
    let input = b"GET /a 200\nGET /b 404\nPOST /c 500\n";
    let first = run(r" [45]\d\d$", input);
    let second = run(r" [45]\d\d$", input);
    assert_eq!(first, second);
    assert_eq!(first, b"GET /b 404\nPOST /c 500\n".to_vec());
}

#[test]
fn invalid_utf8_line_is_reported() {
    let p = pattern("a");
    let input: &[u8] = b"abc\nx\xff\xfey\nabc\n";
    assert_eq!(get_matches(&p, input), Err(ReadError::InvalidUtf8 { line: 1 }));
    assert_eq!(filter_lines(&p, input), Err(ReadError::InvalidUtf8 { line: 1 }));
}

#[test]
fn unicode_lines_round_trip() {
    assert_eq!(run("é", "café\ntea\nnaïve é\n".as_bytes()), "café\nnaïve é\n".as_bytes().to_vec());
}

#[test]
fn split_lines_follows_line_rules() {
    let got = split_lines(b"a\r\n\nb\rc\nlast");
    assert_eq!(got, vec![b"a".to_vec(), b"".to_vec(), b"b\rc".to_vec(), b"last".to_vec()]);
    assert_eq!(split_lines(b"x\n"), vec![b"x".to_vec()]);
    assert_eq!(split_lines(b""), Vec::<Vec<u8>>::new());
}

#[test]
fn select_lines_follows_verdicts() {
    let texts = vec!["a".to_string(), "b".to_string(), "c".to_string()];
    let got = select_lines(&texts, &vec![true, false, true]);
    assert_eq!(got, vec!["a".to_string(), "c".to_string()]);
    assert_eq!(select_lines(&texts, &vec![false, false, false]), Vec::<String>::new());
}

#[test]
fn put_matches_appends_one_newline_each() {
    let lines = vec!["x".to_string(), "".to_string(), "ü".to_string()];
    assert_eq!(put_matches(&lines), b"x\n\n\xc3\xbc\n".to_vec());
    assert_eq!(put_matches(&Vec::new()), Vec::<u8>::new());
}

#[test]
fn filtering_the_output_again_changes_nothing() {
    let input = b"warn: disk\ninfo: ok\nwarn: cpu\n\nwarn";
    let once = run("warn", input);
    assert_eq!(once, b"warn: disk\nwarn: cpu\nwarn\n".to_vec());
    assert_eq!(run("warn", &once), once);
}

#[test]
fn output_lines_are_an_ordered_selection() {
    let input = b"3\n1\n2\nx\n1\n";
    assert_eq!(run("[12]", input), b"1\n2\n1\n".to_vec());
}
