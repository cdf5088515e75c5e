//! Line classification tests.

use ec4rs::linereader::{parse_line, Line};
use ec4rs::ParseError;

fn test_lines(lines: &[(&str, Line)]) {
    for (line, expected) in lines {
        assert_eq!(parse_line(line).unwrap(), *expected);
    }
}

fn pair(k: &str, v: &str) -> Line {
    Line::Pair(k.to_string(), v.to_string())
}

fn section(s: &str) -> Line {
    Line::Section(s.to_string())
}

#[test]
fn valid_props() {
    test_lines(&[
        ("foo=bar", pair("foo", "bar")),
        ("Foo=Bar", pair("Foo", "Bar")),
        ("foo = bar", pair("foo", "bar")),
        ("  foo   =   bar  ", pair("foo", "bar")),
        ("foo=bar=baz", pair("foo", "bar=baz")),
        ("  foo =  bar = baz  ", pair("foo", "bar = baz")),
        ("foo = bar #baz", pair("foo", "bar #baz")),
        ("foo = [bar]", pair("foo", "[bar]")),
    ]);
}

#[test]
fn valid_sections() {
    test_lines(&[
        ("[foo]", section("foo")),
        ("[[foo]]", section("[foo]")),
        ("[ foo ]", section(" foo ")),
        ("[][]]", section("][]")),
        ("[Foo]", section("Foo")),
        (" [foo] ", section("foo")),
        ("[a=b]", section("a=b")),
        ("[#foo]", section("#foo")),
        ("[foo] #comment", section("foo")),
        ("[foo] ;comment", section("foo")),
    ]);
}

#[test]
fn valid_nothing() {
    test_lines(&[
        ("\t", Line::Nothing),
        ("\r", Line::Nothing),
        ("", Line::Nothing),
        ("   ", Line::Nothing),
        (";comment", Line::Nothing),
        ("#comment", Line::Nothing),
        ("  # comment", Line::Nothing),
        ("# [section]", Line::Nothing),
        ("# foo=bar", Line::Nothing),
    ]);
}

#[test]
fn invalid() {
    let lines = ["[]", "[close", "open]", "][", "nonproperty", "=", "  = nokey", "noval = "];
    for line in lines {
        assert!(matches!(parse_line(line).unwrap_err(), ParseError::InvalidLine));
    }
}
