//! Whole-file parser tests.

use ec4rs::ConfigParser;

fn validate(text: &str, should_be_root: bool, expected: &[&[(&str, &str)]]) {
    let mut parser = ConfigParser::new(text).expect("should have created the parser");
    assert_eq!(parser.is_root, should_be_root);
    for section_expected in expected {
        let section = parser.next().unwrap().unwrap();
        let pairs = section.props().iter();
        assert_eq!(
            pairs.len(),
            section_expected.len(),
            "unexpected number of pairs"
        );
        for i in 0..section_expected.len() {
            let (key, value) = section_expected[i];
            assert_eq!(pairs[i].0.as_str(), key, "unexpected key");
            assert_eq!(pairs[i].1.as_str(), value, "unexpected value");
        }
    }
    assert!(parser.next().is_none());
}

#[test]
fn empty() {
    validate("", false, &[]);
}

#[test]
fn prelude() {
    validate("root = true\nroot = false", false, &[]);
    validate("root = true", true, &[]);
    validate("Root = True", true, &[]);
    validate("# hello world", false, &[]);
}

#[test]
fn prelude_unknown() {
    validate("foo = bar", false, &[]);
    validate("foo = bar\nroot = true", true, &[]);
}

#[test]
fn sections_empty() {
    validate("[foo]", false, &[&[]]);
    validate("[foo]\n[bar]", false, &[&[], &[]]);
}

#[test]
fn sections() {
    validate(
        "[foo]\nbk=bv\nak=av",
        false,
        &[&[("bk", "bv"), ("ak", "av")]],
    );
    validate(
        "[foo]\nbk=bv\n[bar]\nak=av",
        false,
        &[&[("bk", "bv")], &[("ak", "av")]],
    );
    validate(
        "[foo]\nk=a\n[bar]\nk=b",
        false,
        &[&[("k", "a")], &[("k", "b")]],
    );
}

#[test]
fn trailing_newline() {
    validate("[foo]\nbar=baz\n", false, &[&[("bar", "baz")]]);
    validate("[foo]\nbar=baz\n\n", false, &[&[("bar", "baz")]]);
}

#[test]
fn section_with_comment_after_it() {
    validate("[/*] # ignore this comment\nk=v", false, &[&[("k", "v")]]);
}

#[test]
fn duplicate_key() {
    validate("[*]\nfoo=bar\nfoo=baz", false, &[&[("foo", "baz")]]);
}
