use jwhttp::text::{chars_of, find_char, find_run, is_space_char, split, trimmed, Sep};

#[test]
fn split_keeps_empty_pieces() {
    let v = chars_of("a&&b&");
    assert_eq!(
        split(&v, Sep::At('&')),
        vec!["a".to_string(), "".to_string(), "b".to_string(), "".to_string()]
    );
    assert_eq!(split(&chars_of(""), Sep::At('&')), vec!["".to_string()]);
}

#[test]
fn split_on_space_kinds() {
    let v = chars_of("a\u{3000}b\tc");
    assert_eq!(split(&v, Sep::Space), vec!["a".to_string(), "b".to_string(), "c".to_string()]);
}

#[test]
fn trim_matches_std() {
    for s in ["  x y \t", "", "   ", "\u{a0}z\u{2003}", "no"] {
        let v = chars_of(s);
        assert_eq!(trimmed(&v, 0, v.len()), s.trim());
    }
}

#[test]
fn whitespace_matches_std() {
    for c in ['\t', '\n', ' ', '\u{85}', '\u{a0}', '\u{1680}', '\u{2000}', '\u{200a}', '\u{200b}',
        '\u{2028}', '\u{3000}', 'a', '\u{feff}'] {
        assert_eq!(is_space_char(c), c.is_whitespace());
    }
}

#[test]
fn find_char_and_run() {
    let v = chars_of("ab:c:d");
    assert_eq!(find_char(&v, ':'), 2);
    assert_eq!(find_char(&v, '?'), 6);
    assert!(find_run(&chars_of("x keep-alive, y"), &chars_of("keep-alive")));
    assert!(!find_run(&chars_of("keep-aliv"), &chars_of("keep-alive")));
    assert!(find_run(&chars_of("abc"), &chars_of("")));
}
