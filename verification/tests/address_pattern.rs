use phorcys::address::Address;
use phorcys::address_pattern::{
    method_char, METHOD_CHARS, pattern_any_char, pattern_any_string, pattern_literal, pattern_select_char,
    pattern_select_string, AddressPattern, Expression,
};
use phorcys::error::Error;
use regex::Regex;

#[test]
fn test_literal() {
    assert_eq!(
        pattern_literal("abcabc"),
        Some((Expression::Literal("abcabc".into()), "".into()))
    );
    assert_eq!(
        pattern_literal("abc-_abc"),
        Some((Expression::Literal("abc-_abc".into()), "".into()))
    );
}

#[test]
fn test_literals() {
    assert_eq!(
        pattern_select_string("{abc}"),
        Some((Expression::Literals(vec!["abc".into()]), "".into()))
    );
    assert_eq!(
        pattern_select_string("{abc,def}"),
        Some((Expression::Literals(vec!["abc".into(), "def".into()]), "".into()))
    );
}

#[test]
fn test_select_char() {
    assert_eq!(
        pattern_select_char("[ABC]"),
        Some((
            Expression::Chars(false, vec![('A', 'A'), ('B', 'B'), ('C', 'C')]),
            "".into()
        ))
    );
    assert_eq!(
        pattern_select_char("[aA-Cabc-]"),
        Some((
            Expression::Chars(
                false,
                vec![
                    ('a', 'a'),
                    ('A', 'C'),
                    ('a', 'a'),
                    ('b', 'b'),
                    ('c', 'c'),
                    ('-', '-')
                ],
            ),
            "".into()
        ))
    );
    assert_eq!(
        pattern_select_char("[!A-X]"),
        Some((Expression::Chars(true, vec![('A', 'X')]), "".into()))
    );
    assert_eq!(
        pattern_select_char("[!A-Xa-z-]"),
        Some((
            Expression::Chars(true, vec![('A', 'X'), ('a', 'z'), ('-', '-')]),
            "".into()
        ))
    );
}

#[test]
fn test_any_char() {
    assert_eq!(pattern_any_char("?"), Some((Expression::AnyChar, "".into())));
}

#[test]
fn test_any_string() {
    assert_eq!(pattern_any_string("*"), Some((Expression::AnyString, "".into())));
}

#[test]
fn test_parse() {
    let parsed = AddressPattern::parse("/a").expect("Should be success");
    assert_eq!(parsed[0], vec![Expression::Literal("a".into())]);

    let parsed = AddressPattern::parse("/foo/*").expect("Should be success");
    assert_eq!(parsed[0], vec![Expression::Literal("foo".into())]);
    assert_eq!(parsed[1], vec![Expression::AnyString]);

    let parsed =
        AddressPattern::parse("/foo*/com[A-Za-z]{ine,ination}??").expect("Should be success");
    assert_eq!(
        parsed[0],
        vec![Expression::Literal("foo".into()), Expression::AnyString]
    );
    assert_eq!(
        parsed[1],
        vec![
            Expression::Literal("com".into()),
            Expression::Chars(false, vec![('A', 'Z'), ('a', 'z')]),
            Expression::Literals(vec!["ine".into(), "ination".into()]),
            Expression::AnyChar,
            Expression::AnyChar,
        ]
    );
}

#[test]
fn test_regex_compilation() {
    let parsed = AddressPattern::compile_to_regex("/aaaa").expect("Should be success");
    let expected = Regex::new(r#"^/aaaa$"#).expect("Should be success");
    assert_eq!(parsed.to_string(), expected.to_string());

    let parsed = AddressPattern::compile_to_regex("/foo*/com[A-Za-z]{ine,ination}??")
        .expect("Should be success");
    let expected =
        Regex::new(r#"^/foo(?:.*)/com[A-Za-z](?:ine|ination)..$"#).expect("Should be success");
    assert_eq!(parsed.to_string(), expected.to_string());
}

#[test]
fn method_characters_are_printable_and_not_reserved() {
    let allowed =
        r#"!"$%&'()+-.0123456789:;<=>@ABCDEFGHIJKLMNOPQRSTUVWXYZ\^_`abcdefghijklmnopqrstuvwxyz|~"#;
    assert_eq!(METHOD_CHARS, allowed);
    for code in 0u32..=0x100 {
        let c = char::from_u32(code).expect("a character");
        assert_eq!(method_char(c), METHOD_CHARS.contains(c), "{:?}", c);
    }
    assert!(!method_char('\u{3042}'));
}

#[test]
fn element_parsers_hand_back_what_follows() {
    assert_eq!(
        pattern_literal("abc*def"),
        Some((Expression::Literal("abc".into()), "*def".into()))
    );
    assert_eq!(pattern_any_char("?x"), Some((Expression::AnyChar, "x".into())));
    assert_eq!(pattern_any_string("**"), Some((Expression::AnyString, "*".into())));
    assert_eq!(
        pattern_select_char("[a-c]/x"),
        Some((Expression::Chars(false, vec![('a', 'c')]), "/x".into()))
    );
    assert_eq!(
        pattern_select_string("{a,b}c"),
        Some((Expression::Literals(vec!["a".into(), "b".into()]), "c".into()))
    );
}

#[test]
fn element_parsers_refuse_what_is_not_theirs() {
    assert_eq!(pattern_literal(""), None);
    assert_eq!(pattern_literal("*abc"), None);
    assert_eq!(pattern_literal(" abc"), None);
    assert_eq!(pattern_any_char(""), None);
    assert_eq!(pattern_any_char("*"), None);
    assert_eq!(pattern_any_string("?"), None);
    assert_eq!(pattern_select_char("abc"), None);
    assert_eq!(pattern_select_char("[abc"), None);
    assert_eq!(pattern_select_char("[]"), None);
    assert_eq!(pattern_select_char("[!]"), None);
    assert_eq!(pattern_select_char("[a b]"), None);
    assert_eq!(pattern_select_string("{}"), None);
    assert_eq!(pattern_select_string("{a,}"), None);
    assert_eq!(pattern_select_string("{,a}"), None);
    assert_eq!(pattern_select_string("{a,b"), None);
    assert_eq!(pattern_select_string("{a b}"), None);
}

#[test]
fn ranges_are_preferred_to_single_characters() {
    assert_eq!(
        pattern_select_char("[a-c-e]"),
        Some((Expression::Chars(false, vec![('a', 'c'), ('-', '-'), ('e', 'e')]), "".into()))
    );
    assert_eq!(
        pattern_select_char("[--a]"),
        Some((Expression::Chars(false, vec![('-', 'a')]), "".into()))
    );
    assert_eq!(
        pattern_select_char("[!!]"),
        Some((Expression::Chars(true, vec![('!', '!')]), "".into()))
    );
    assert_eq!(
        pattern_select_char("[a!]"),
        Some((Expression::Chars(false, vec![('a', 'a'), ('!', '!')]), "".into()))
    );
}

fn refused(pattern: &str) {
    assert!(
        matches!(AddressPattern::parse(pattern), Err(Error::InvalidPattern(_))),
        "{:?}",
        pattern
    );
    assert!(matches!(AddressPattern::to_regex_string(pattern), Err(Error::InvalidPattern(_))));
    assert!(matches!(AddressPattern::compile_to_regex(pattern), Err(Error::InvalidPattern(_))));
}

#[test]
fn what_is_no_pattern_is_refused() {
    refused("");
    refused("foo");
    refused("/");
    refused("/foo/");
    refused("//foo");
    refused("/foo//bar");
    refused("/foo bar");
    refused("/foo#");
    refused("/foo,bar");
    refused("/foo[");
    refused("/foo]");
    refused("/foo[]");
    refused("/foo{");
    refused("/foo}");
    refused("/foo{}");
    refused("/foo{a,}");
    refused("/caf\u{e9}");
    refused("/foo\u{0}");
}

#[test]
fn the_reason_of_a_refusal_is_in_the_message() {
    let error = AddressPattern::parse("foo").expect_err("refused");
    assert!(error.message().starts_with("Invalid address pattern: "));
    match error {
        Error::InvalidPattern(reason) => assert!(!reason.is_empty()),
        other => panic!("{:?}", other),
    }
}

#[test]
fn the_expression_is_anchored_and_escaped() {
    let text = |pattern: &str| AddressPattern::to_regex_string(pattern).expect("a pattern");
    assert_eq!(text("/aaaa"), "^/aaaa$");
    assert_eq!(text("/foo*/com[A-Za-z]{ine,ination}??"), "^/foo(?:.*)/com[A-Za-z](?:ine|ination)..$");
    assert_eq!(text("/a.b"), r"^/a\.b$");
    assert_eq!(text("/a-b_c"), r"^/a\-b_c$");
    assert_eq!(text("/a+(b)|c$^~&\\"), r"^/a\+\(b\)\|c\$\^\~\&\\$");
    assert_eq!(text("/{a.b,c+d}"), r"^/(?:a\.b|c\+d)$");
    assert_eq!(text("/{only}"), "^/(?:only)$");
    assert_eq!(text("/[!a-c]"), "^/[^a-c]$");
    assert_eq!(text("/[.a-]"), r"^/[\.a\-]$");
    assert_eq!(text("/[+-.]"), r"^/[\+-\.]$");
    assert_eq!(text("/?/*"), "^/./(?:.*)$");
    assert_eq!(text("/a/b/c"), "^/a/b/c$");
}

#[test]
fn a_compiled_pattern_keeps_its_expression() {
    for pattern in ["/aaaa", "/foo*/com[A-Za-z]{ine,ination}??", "/a.b/[!x-z]?"] {
        let compiled = AddressPattern::compile_to_regex(pattern).expect("compiles");
        let text = AddressPattern::to_regex_string(pattern).expect("a pattern");
        assert_eq!(AddressPattern::expression(&compiled), text);
        assert_eq!(compiled.as_str(), text);
    }
}

fn matches(pattern: &str, address: &str) -> bool {
    let compiled = AddressPattern::compile_to_regex(pattern).expect("compiles");
    AddressPattern::matches(&compiled, &Address::new(address).expect("an address"))
}

#[test]
fn patterns_match_as_their_elements_say() {
    assert!(matches("/foo", "/foo"));
    assert!(!matches("/foo", "/foo/bar"));
    assert!(!matches("/foo", "/fo"));
    assert!(!matches("/foo", "/xfoo"));
    assert!(matches("/foo?", "/foo1"));
    assert!(!matches("/foo?", "/foo"));
    assert!(!matches("/foo?", "/foo12"));
    assert!(matches("/foo*", "/foo"));
    assert!(matches("/foo*", "/foobar"));
    assert!(matches("/*/bar", "/anything/bar"));
    assert!(matches("/[a-c]x", "/bx"));
    assert!(!matches("/[a-c]x", "/dx"));
    assert!(matches("/[!a-c]x", "/dx"));
    assert!(!matches("/[!a-c]x", "/ax"));
    assert!(matches("/{ine,ination}", "/ination"));
    assert!(matches("/{ine,ination}", "/ine"));
    assert!(!matches("/{ine,ination}", "/in"));
    assert!(matches("/a.b", "/a.b"));
    assert!(!matches("/a.b", "/axb"));
    assert!(matches("/foo*/com[A-Za-z]{ine,ination}??", "/foobar/combination42"));
    assert!(!matches("/foo*/com[A-Za-z]{ine,ination}??", "/foobar/combination4"));
}

#[test]
fn matching_does_not_depend_on_the_compilation() {
    let addresses = ["/foo", "/foo/bar", "/foobar/combine12", "/fo", "/foo1/comXination__"];
    for pattern in ["/foo", "/foo*", "/foo*/com[A-Za-z]{ine,ination}??", "/*/*"] {
        let first = AddressPattern::compile_to_regex(pattern).expect("compiles");
        let second = AddressPattern::compile_to_regex(pattern).expect("compiles");
        for text in addresses {
            let address = Address::new(text).expect("an address");
            let once = AddressPattern::matches(&first, &address);
            assert_eq!(once, AddressPattern::matches(&first, &address));
            assert_eq!(once, AddressPattern::matches(&second, &address));
        }
    }
}

#[test]
fn expressions_are_pushed_one_after_the_other() {
    let mut text = String::from("^");
    Expression::Literal("a*b".into()).push_regex_part(&mut text);
    Expression::AnyChar.push_regex_part(&mut text);
    Expression::AnyString.push_regex_part(&mut text);
    Expression::Literals(vec!["x".into(), "y-z".into(), "w".into()]).push_regex_part(&mut text);
    Expression::Chars(true, vec![('0', '9'), ('_', '_')]).push_regex_part(&mut text);
    Expression::Chars(false, vec![('^', '^')]).push_regex_part(&mut text);
    assert_eq!(text, r"^a\*b.(?:.*)(?:x|y\-z|w)[^0-9_][\^]");
}

#[test]
fn a_refusal_names_what_was_missed_and_where() {
    let reason = |pattern: &str| match AddressPattern::parse(pattern) {
        Err(Error::InvalidPattern(reason)) => reason,
        other => panic!("{:?}", other),
    };
    assert_eq!(reason(""), "expected `/` at 0");
    assert_eq!(reason("foo"), "expected `/` at 0");
    assert_eq!(reason("/"), "expected an element at 1");
    assert_eq!(reason("/foo/"), "expected an element at 5");
    assert_eq!(reason("/foo bar"), "expected `/` at 4");
    assert_eq!(reason("/0123456789/ab[c"), "expected `/` at 14");
    let long = format!("/{}#", "a".repeat(120));
    assert_eq!(reason(&long), "expected `/` at 121");
}

#[test]
fn a_pattern_whose_expression_is_refused_does_not_compile() {
    // A range that runs backwards is a pattern of the grammar, and no
    // regular expression.
    assert!(AddressPattern::parse("/[z-a]").is_ok());
    assert_eq!(AddressPattern::to_regex_string("/[z-a]").expect("a pattern"), "^/[z-a]$");
    match AddressPattern::compile_to_regex("/[z-a]") {
        Err(Error::InvalidPattern(reason)) => assert!(!reason.is_empty()),
        other => panic!("{:?}", other),
    }
    assert!(AddressPattern::compile_to_regex("/[a-z]").is_ok());
}
