use logan::options::ProgramOptions;
use logan::pattern::parse_regex;
use logan::stream::{istream_from_path, ostream_from_path, Stream};

fn is_standard(s: &Stream) -> bool {
    matches!(s, Stream::Standard)
}

fn file_path(s: &Stream) -> Option<String> {
    match s {
        Stream::File(p) => Some(p.clone()),
        Stream::Standard => None,
    }
}

#[test]
fn standard_input_tokens_agree() {
    assert!(is_standard(&istream_from_path("")));
    assert!(is_standard(&istream_from_path("-")));
    assert!(is_standard(&istream_from_path("/dev/stdin")));
    assert_eq!(file_path(&istream_from_path("logs/app.log")), Some("logs/app.log".to_string()));
    assert_eq!(file_path(&istream_from_path("/dev/stdout")), Some("/dev/stdout".to_string()));
}

#[test]
fn standard_output_tokens_agree() {
    assert!(is_standard(&ostream_from_path("")));
    assert!(is_standard(&ostream_from_path("-")));
    assert!(is_standard(&ostream_from_path("/dev/stdout")));
    assert_eq!(file_path(&ostream_from_path("out/new/x.txt")), Some("out/new/x.txt".to_string()));
    assert_eq!(file_path(&ostream_from_path("--")), Some("--".to_string()));
}

#[test]
fn malformed_pattern_is_rejected() {
    assert!(parse_regex("foo(bar").is_err());
    assert!(parse_regex("[").is_err());
    assert!(parse_regex(r"\d+").is_ok());
}

#[test]
fn options_compile_pattern_and_resolve_streams() {
    let o = ProgramOptions::from_tokens(r"\d", "-", "out.txt").unwrap();
    assert!(o.pattern.is_match("a1"));
    assert!(is_standard(&o.input));
    assert_eq!(file_path(&o.output), Some("out.txt".to_string()));
}

#[test]
fn options_fail_on_malformed_pattern() {
    assert!(ProgramOptions::from_tokens("(", "in.log", "out/dir/x.txt").is_err());
}
