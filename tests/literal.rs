use radicle::literal::{is_num, parse_bool, parse_char};

#[test]
fn test_is_num() {
    assert!(is_num("9"));
    assert!(is_num("0"));
    assert!(is_num("458915"));
    assert!(is_num("0000009999"));
}

#[test]
fn is_num_rejects_other_text() {
    assert!(!is_num(""));
    assert!(!is_num("-3"));
    assert!(!is_num("12a"));
    assert!(!is_num("3.14159"));
}

#[test]
fn parse_bool_reads_hash_literals() {
    assert_eq!(parse_bool("#t"), Some(true));
    assert_eq!(parse_bool("#f"), Some(false));
    assert_eq!(parse_bool("t"), None);
    assert_eq!(parse_bool("#true"), None);
}

#[test]
fn parse_char_reads_quoted_character() {
    assert_eq!(parse_char("'z'"), Some('z'));
    assert_eq!(parse_char("'zz'"), None);
    assert_eq!(parse_char("z"), None);
    assert_eq!(parse_char("''"), None);
}
