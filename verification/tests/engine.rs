//! Tests of the engine's edges: unset filtering, fallbacks, sections and
//! the lowercasing of keys and values.

use ec4rs::properties::rawvalue::RawValue as BorrowedRawValue;
use ec4rs::property::{IndentSize, IndentStyle, LanguageTag, TabWidth};
use ec4rs::rawvalue::RawValue;
use ec4rs::string::SharedString;
use ec4rs::{ConfigParser, EcParser, EcReader, Glob, Properties, Section};

#[test]
fn raw_value_unset() {
    let v = RawValue::new("UnSeT");
    assert_eq!(v.into_result(), Err(true));
    assert_eq!(v.filter_unset().into_result(), Err(false));
    let w = RawValue::new("set");
    assert_eq!(w.into_result(), Ok("set"));
    assert_eq!(w.into_str(), "set");
    let unset = RawValue::unset();
    assert_eq!(unset.into_str(), "unset");
    assert!(unset.into_option().is_none());
}

#[test]
fn raw_value_lowercase() {
    let v = RawValue::new("CRLF");
    assert_eq!(v.to_lowercase().into_str(), "crlf");
}

#[test]
fn shared_string_lowercase() {
    let s = SharedString::new_static("MiXeD");
    assert_eq!(s.into_lowercase().as_str(), "mixed");
    let t = SharedString::new_static("plain");
    assert_eq!(t.into_lowercase().as_str(), "plain");
}

#[test]
fn section_lowercases_keys() {
    let mut section = Section::new("*.rs");
    section.insert("Indent_Style", SharedString::new_static("tab"));
    let pairs = section.props().iter();
    assert_eq!(pairs.len(), 1);
    assert_eq!(pairs[0].0.as_str(), "indent_style");
    assert!(section.applies_to("/src/lib.rs"));
    assert!(!section.applies_to("/src/lib.c"));
}

#[test]
fn fallbacks_from_style() {
    let mut props = Properties::new();
    props.insert_raw_for_key("indent_style", SharedString::new_static("tab"));
    props.use_fallbacks();
    assert_eq!(props.get::<IndentSize>(), Ok(IndentSize::UseTabWidth));
}

#[test]
fn fallbacks_size_to_width() {
    let mut props = Properties::new();
    props.insert_raw_for_key("indent_size", SharedString::new_static("4"));
    props.use_fallbacks();
    assert_eq!(props.get::<TabWidth>(), Ok(TabWidth::Value(4)));
}

#[test]
fn fallbacks_width_to_size() {
    let mut props = Properties::new();
    props.insert_raw_for_key("tab_width", SharedString::new_static("8"));
    props.use_fallbacks();
    assert_eq!(props.get::<IndentSize>(), Ok(IndentSize::Value(8)));
}

#[test]
fn fallbacks_tab_size_takes_width() {
    let mut props = Properties::new();
    props.insert_raw_for_key("indent_size", SharedString::new_static("tab"));
    props.insert_raw_for_key("tab_width", SharedString::new_static("3"));
    props.use_fallbacks();
    assert_eq!(props.get::<IndentSize>(), Ok(IndentSize::Value(3)));
}

#[test]
fn get_filters_unset() {
    let mut props = Properties::new();
    props.insert_raw_for_key("indent_style", SharedString::new_static("unset"));
    assert_eq!(props.get::<IndentStyle>(), Err(None));
}

#[test]
fn numrange_extremes() {
    // Large bounds still parse and match.
    let g = Glob::new("{111111111111111111..999999999999999999}");
    assert!(g.matches("/555555555555555555"));
    assert!(!g.matches("/99"));
    // A bound too large to represent is no numeric range at all: the
    // braces open an alternation instead.
    let g2 = Glob::new("{1..99999999999999999999}");
    assert!(!g2.matches("/5"));
    // A single zero is a valid run, as is a run of zeros alone; a zero
    // prefixed to a nonzero numeral is not.
    let g3 = Glob::new("{-1..1}");
    assert!(g3.matches("/0"));
    assert!(g3.matches("/00"));
    assert!(!g3.matches("/01"));
    // A zero inside the run ends the scanned digits early: the run never
    // reaches across a digit that would give a shorter run a leading
    // zero.
    let g4 = Glob::new("{800..900}");
    assert!(!g4.matches("/807"));
}

#[test]
fn empty_pattern() {
    let g = Glob::new("");
    assert!(g.matches("/anything"));
    assert!(g.matches("/a/b/c"));
}

#[test]
fn preamble_byte_order_mark() {
    let parser = ConfigParser::new("\u{FEFF}root = true\n[x]\n").expect("parse");
    assert!(parser.is_root);
}

#[test]
fn older_parser_names() {
    let mut p = EcParser::new("root=true\n[a]\nk=v\n").expect("parse");
    assert!(p.is_root);
    assert!(p.has_more());
    let s = p.read_section().expect("section");
    let pairs = s.props().iter();
    assert_eq!(pairs[0].0.as_str(), "k");
    let mut r = EcReader::new("[b]\n").expect("parse");
    assert!(!r.is_root);
    let s2 = r.read_section().expect("section");
    assert!(s2.applies_to("/b"));
}

#[test]
fn language_tag_shapes() {
    let t = LanguageTag::try_from("DE-at").expect("tag");
    assert_eq!(t.text(), "de-AT");
    assert_eq!(t.primary_language(), "de");
    assert_eq!(t.region().as_deref(), Some("AT"));
    assert!(LanguageTag::try_from("deu").is_err());
    assert!(LanguageTag::try_from("d1").is_err());
    let plain = LanguageTag::try_from("fr").expect("tag");
    assert!(plain.region().is_none());
}

#[test]
fn borrowed_raw_value() {
    let v = BorrowedRawValue::Unknown("TAB");
    assert!(matches!(v.filter_unset(), BorrowedRawValue::Unknown(_)));
    assert!(matches!(
        BorrowedRawValue::Unknown("Unset").filter_unset(),
        BorrowedRawValue::UnsetExplicit
    ));
    assert_eq!(v.parse::<IndentStyle, true>(), Ok(IndentStyle::Tabs));
    assert_eq!(v.parse::<IndentStyle, false>(), Ok(IndentStyle::Tabs));
    assert_eq!(BorrowedRawValue::Unset.value(), None);
    assert_eq!(BorrowedRawValue::UnsetExplicit.value(), Some("unset"));
}
