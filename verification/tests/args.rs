use composer_completion::args::recover_current_arg;

fn rec(line: Option<&str>, point: Option<&str>) -> Option<String> {
    recover_current_arg(line.map(str::to_owned), point.map(str::to_owned))
}

#[test]
fn recover_basic() {
    assert_eq!(rec(Some("mytool requ"), Some("11")), Some("requ".to_owned()));
}

#[test]
fn recover_mid_line() {
    assert_eq!(rec(Some("mytool require foo"), Some("14")), Some("require".to_owned()));
}

#[test]
fn recover_truncates_inside_token() {
    assert_eq!(rec(Some("mytool require"), Some("9")), Some("re".to_owned()));
}

#[test]
fn recover_offset_beyond_length_takes_whole_line() {
    assert_eq!(rec(Some("mytool requ"), Some("999")), Some("requ".to_owned()));
}

#[test]
fn recover_none_when_line_absent() {
    assert_eq!(rec(None, Some("3")), None);
}

#[test]
fn recover_none_when_point_absent() {
    assert_eq!(rec(Some("mytool"), None), None);
}

#[test]
fn recover_none_on_unparsable_offset() {
    assert_eq!(rec(Some("mytool"), Some("abc")), None);
    assert_eq!(rec(Some("mytool"), Some("-1")), None);
    assert_eq!(rec(Some("mytool"), Some("")), None);
    assert_eq!(rec(Some("mytool"), Some("4x")), None);
    assert_eq!(rec(Some("mytool"), Some(" 4")), None);
    assert_eq!(rec(Some("mytool"), Some("99999999999999999999999999")), None);
}

#[test]
fn recover_accepts_leading_plus_in_offset() {
    assert_eq!(rec(Some("mytool requ"), Some("+4")), Some("myto".to_owned()));
}

#[test]
fn recover_none_on_zero_offset() {
    assert_eq!(rec(Some("mytool"), Some("0")), None);
}

#[test]
fn recover_none_on_whitespace_only_prefix() {
    assert_eq!(rec(Some("   x"), Some("3")), None);
}

#[test]
fn recover_trailing_whitespace_keeps_previous_token() {
    assert_eq!(rec(Some("a  b"), Some("3")), Some("a".to_owned()));
}

#[test]
fn recover_splits_on_tabs_and_newlines() {
    assert_eq!(rec(Some("one\ttwo\nthree"), Some("13")), Some("three".to_owned()));
}

#[test]
fn recover_counts_characters_not_bytes() {
    assert_eq!(rec(Some("héllo wörld"), Some("8")), Some("wö".to_owned()));
}
