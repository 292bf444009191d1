use minesweeper::numerals::parse_usize;

#[test]
fn plain_numerals_parse() {
    assert_eq!(parse_usize("0"), Some(0));
    assert_eq!(parse_usize("7"), Some(7));
    assert_eq!(parse_usize("12"), Some(12));
    assert_eq!(parse_usize("007"), Some(7));
    assert_eq!(parse_usize("10000"), Some(10000));
}

#[test]
fn a_leading_plus_sign_is_allowed() {
    assert_eq!(parse_usize("+5"), Some(5));
    assert_eq!(parse_usize("+"), None);
    assert_eq!(parse_usize("++5"), None);
}

#[test]
fn stray_characters_are_refused() {
    assert_eq!(parse_usize(""), None);
    assert_eq!(parse_usize("abc"), None);
    assert_eq!(parse_usize("1x"), None);
    assert_eq!(parse_usize("x1"), None);
    assert_eq!(parse_usize("-3"), None);
    assert_eq!(parse_usize("1 2"), None);
    assert_eq!(parse_usize("³"), None);
}

#[test]
fn the_usize_limit_is_respected() {
    let max = usize::MAX;
    assert_eq!(parse_usize(&max.to_string()), Some(max));
    // One past the largest value: same digits with the last one bumped
    // would wrap, so build the successor textually.
    let too_big = format!("{}0", max);
    assert_eq!(parse_usize(&too_big), None);
}
