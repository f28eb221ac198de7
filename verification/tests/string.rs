use sindra::rules::string::{
    convert_string, match_str_ext, two_digit_escape, unicode_escape, StringCapture, StringRules,
};

#[test]
fn test_string() {
    fn assert_string(input: &str, expected: &str) {
        let mat = match_str_ext(input, 0);
        assert!(mat.is_some());
        let mat = mat.unwrap();
        assert_eq!(mat.0, input.len());
        let converted = convert_string(mat.1);
        assert!(converted.is_ok());
        assert_eq!(converted.unwrap(), expected);
    }
    assert_string(r#""foo""#, "foo");
    assert_string(r#""\x41\x2D\x5A""#, "A-Z");
    assert_string(r#""\u{263A}\u{2639}""#, "☺☹");
    assert_string(r#""☺☹""#, "☺☹");
}

fn capture(body: &str) -> StringCapture {
    StringCapture { body: Some(body.to_string()) }
}

#[test]
fn single_character_escapes() {
    let rules = StringRules::new().unwrap();
    assert_eq!(rules.escape("\\n"), Ok("\n".to_string()));
    assert_eq!(rules.escape("\\r"), Ok("\r".to_string()));
    assert_eq!(rules.escape("\\t"), Ok("\t".to_string()));
    assert_eq!(rules.escape("\\\\"), Ok("\\".to_string()));
    assert_eq!(rules.escape("\\0"), Ok("\0".to_string()));
    assert_eq!(rules.escape("\\'"), Ok("'".to_string()));
    assert_eq!(rules.escape("\\\""), Ok("\"".to_string()));
}

#[test]
fn escape_failures() {
    let rules = StringRules::new().unwrap();
    assert_eq!(rules.escape(""), Err("invalid empty escape"));
    assert_eq!(rules.escape("\\"), Err("invalid empty escape"));
    assert_eq!(rules.escape("\\q"), Err("unknown escape sequence"));
    assert_eq!(rules.escape("ab"), Err("unknown escape sequence"));
    assert_eq!(rules.escape("é"), Err("unknown escape sequence"));
    assert_eq!(rules.escape("\\é"), Err("unknown escape sequence"));
    assert_eq!(rules.escape("\\u"), Err("improperly formatted unicode character code"));
    assert_eq!(rules.escape("\\u{}"), Err("improperly formatted unicode character code"));
    assert_eq!(rules.escape("\\u{110000}"), Err("no character found for unicode value"));
    assert_eq!(rules.escape("\\u{D800}"), Err("no character found for unicode value"));
    assert_eq!(rules.escape("\\x4"), Err("two-digit character code expected"));
    assert_eq!(rules.escape("\\x414"), Err("two-digit character code expected"));
    assert_eq!(rules.escape("\\xzz"), Err("invalid two-digit escape"));
    assert_eq!(rules.escape("\\x80"), Err("invalid two-digit escape"));
}

#[test]
fn escape_through_the_patterns() {
    let rules = StringRules::new().unwrap();
    assert_eq!(rules.escape("\\x41"), Ok("A".to_string()));
    assert_eq!(rules.escape("\\x7f"), Ok("\u{7f}".to_string()));
    assert_eq!(rules.escape("\\u{263A}"), Ok("☺".to_string()));
    assert_eq!(rules.escape("\\u{41}"), Ok("A".to_string()));
    assert_eq!(rules.escape("\\u{10FFFF}"), Ok("\u{10FFFF}".to_string()));
}

#[test]
fn two_digit_escapes() {
    assert_eq!(two_digit_escape("41"), Ok("A".to_string()));
    assert_eq!(two_digit_escape("2D"), Ok("-".to_string()));
    assert_eq!(two_digit_escape("5a"), Ok("Z".to_string()));
    assert_eq!(two_digit_escape("00"), Ok("\0".to_string()));
    assert_eq!(two_digit_escape("7F"), Ok("\u{7f}".to_string()));
    assert_eq!(two_digit_escape("+a"), Ok("\n".to_string()));
    assert_eq!(two_digit_escape("80"), Err("invalid two-digit escape"));
    assert_eq!(two_digit_escape("ff"), Err("invalid two-digit escape"));
    assert_eq!(two_digit_escape("g0"), Err("invalid two-digit escape"));
    assert_eq!(two_digit_escape("-1"), Err("invalid two-digit escape"));
    assert_eq!(two_digit_escape("é"), Err("invalid two-digit escape"));
    assert_eq!(two_digit_escape(""), Err("two-digit character code expected"));
    assert_eq!(two_digit_escape("4"), Err("two-digit character code expected"));
    assert_eq!(two_digit_escape("414"), Err("two-digit character code expected"));
}

#[test]
fn unicode_escapes() {
    assert_eq!(unicode_escape("263A"), Ok("☺".to_string()));
    assert_eq!(unicode_escape("2639"), Ok("☹".to_string()));
    assert_eq!(unicode_escape("0"), Ok("\0".to_string()));
    assert_eq!(unicode_escape("d7ff"), Ok("\u{d7ff}".to_string()));
    assert_eq!(unicode_escape("E000"), Ok("\u{e000}".to_string()));
    assert_eq!(unicode_escape("10ffff"), Ok("\u{10ffff}".to_string()));
    assert_eq!(unicode_escape("+41"), Ok("A".to_string()));
    assert_eq!(unicode_escape("D800"), Err("no character found for unicode value"));
    assert_eq!(unicode_escape("dfff"), Err("no character found for unicode value"));
    assert_eq!(unicode_escape("110000"), Err("no character found for unicode value"));
    assert_eq!(unicode_escape("FFFFFFFF"), Err("no character found for unicode value"));
    assert_eq!(unicode_escape("100000000"), Err("invalid unicode escape"));
    assert_eq!(unicode_escape(""), Err("invalid unicode escape"));
    assert_eq!(unicode_escape("+"), Err("invalid unicode escape"));
    assert_eq!(unicode_escape("12 "), Err("invalid unicode escape"));
    assert_eq!(unicode_escape("xyz"), Err("invalid unicode escape"));
}

#[test]
fn convert_replaces_each_escape() {
    assert_eq!(convert_string(capture("")), Ok("".to_string()));
    assert_eq!(convert_string(capture("plain")), Ok("plain".to_string()));
    assert_eq!(convert_string(capture("a\\nb")), Ok("a\nb".to_string()));
    assert_eq!(convert_string(capture("\\t\\t")), Ok("\t\t".to_string()));
    assert_eq!(convert_string(capture("é\\x41é\\u{263A}é")), Ok("éAé☺é".to_string()));
    assert_eq!(convert_string(capture("say \\\"hi\\\"")), Ok("say \"hi\"".to_string()));
    assert_eq!(convert_string(capture("\\\\n")), Ok("\\n".to_string()));
}

#[test]
fn convert_failures() {
    assert_eq!(convert_string(StringCapture { body: None }), Err("failed to parse string"));
    assert_eq!(convert_string(capture("a\\x80b")), Err("invalid two-digit escape"));
    assert_eq!(
        convert_string(capture("\\u{D800}\\x80")),
        Err("no character found for unicode value")
    );
    assert_eq!(convert_string(capture("\\x80\\u{D800}")), Err("invalid two-digit escape"));
}

#[test]
fn convert_leaves_what_is_no_escape() {
    assert_eq!(convert_string(capture("\\q")), Ok("\\q".to_string()));
    assert_eq!(convert_string(capture("\\x4")), Ok("\\x4".to_string()));
    assert_eq!(convert_string(capture("\\u{}")), Ok("\\u{}".to_string()));
}

#[test]
fn splice_at_given_spans() {
    let rules = StringRules::new().unwrap();
    assert_eq!(rules.splice_escapes("a\\nb", &vec![(1, 3)]), Ok("a\nb".to_string()));
    assert_eq!(rules.splice_escapes("a\\nb", &vec![]), Ok("a\\nb".to_string()));
    assert_eq!(rules.splice_escapes("ab", &vec![(0, 2)]), Err("unknown escape sequence"));
    assert_eq!(rules.splice_escapes("ab", &vec![(1, 1)]), Err("invalid empty escape"));
    assert_eq!(
        rules.splice_escapes("\\r\\n", &vec![(0, 2), (2, 4)]),
        Ok("\r\n".to_string())
    );
}

#[test]
fn match_gives_end_and_body() {
    let (end, found) = match_str_ext(r#""foo" rest"#, 0).unwrap();
    assert_eq!(end, 5);
    assert_eq!(found.body, Some("foo".to_string()));
    let (end, found) = match_str_ext(r#"x = "a\"b";"#, 4).unwrap();
    assert_eq!(end, 10);
    assert_eq!(found.body, Some(r#"a\"b"#.to_string()));
    let (end, found) = match_str_ext(r#"é"é""#, 2).unwrap();
    assert_eq!(end, 6);
    assert_eq!(found.body, Some("é".to_string()));
    let (end, found) = match_str_ext(r#""""#, 0).unwrap();
    assert_eq!(end, 2);
    assert_eq!(found.body, Some("".to_string()));
}

#[test]
fn match_is_anchored() {
    assert!(match_str_ext(r#" "foo""#, 0).is_none());
    assert!(match_str_ext(r#"foo"#, 0).is_none());
    assert!(match_str_ext(r#""foo"#, 0).is_none());
    assert!(match_str_ext(r#""a\qb""#, 0).is_none());
    assert!(match_str_ext(r#""foo""#, 5).is_none());
    assert!(match_str_ext("", 0).is_none());
}

#[test]
fn rules_can_be_reused() {
    let rules = StringRules::new().unwrap();
    let (end, found) = rules.match_str_ext(r#""a\tb" tail"#, 0).unwrap();
    assert_eq!(end, 6);
    assert_eq!(rules.convert_string(found), Ok("a\tb".to_string()));
    let (end, found) = rules.match_str_ext(r#""\u{41}""#, 0).unwrap();
    assert_eq!(end, 8);
    assert_eq!(rules.convert_string(found), Ok("A".to_string()));
}
