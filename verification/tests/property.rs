//! Property type tests.

use ec4rs::property::{
    standard_keys, Charset, EndOfLine, FinalNewline, IndentSize, IndentStyle, MaxLineLen,
    SpellingLanguage, TabWidth, TrimTrailingWs,
};
use ec4rs::string::{SharedString, ToSharedString};
use ec4rs::{PropertyKey, PropertyValue};

fn contained(key: &str) {
    let keys = standard_keys();
    let mut found = false;
    for k in keys {
        if k == key {
            found = true;
        }
    }
    assert!(found, "standard keys are missing {}", key);
}

#[test]
fn standard_keys_matches() {
    contained(IndentStyle::key());
    contained(IndentSize::key());
    contained(TabWidth::key());
    contained(EndOfLine::key());
    contained(Charset::key());
    contained(TrimTrailingWs::key());
    contained(FinalNewline::key());
    contained(SpellingLanguage::key());
    // Not max_line_length.
    let keys = standard_keys();
    for k in keys {
        assert_ne!(k, MaxLineLen::key());
    }
}

#[test]
fn spelling_language() {
    let testcase_en = SharedString::new_static("en");
    let parsed = match SpellingLanguage::from_shared_string(&testcase_en) {
        Ok(SpellingLanguage::Value(v)) => v,
        e => {
            let v = e.expect("parsing should succeed");
            panic!("unexpected value {v:?}");
        },
    };
    assert_eq!(parsed.primary_language(), testcase_en.as_str());
    let testcase_en_us = SharedString::new_static("en-US");
    let parsed = match SpellingLanguage::from_shared_string(&testcase_en_us) {
        Ok(SpellingLanguage::Value(v)) => v,
        e => {
            let v = e.expect("parsing should succeed");
            panic!("unexpected value {v:?}");
        },
    };
    assert_eq!(parsed.text(), testcase_en_us.as_str());
}

#[test]
fn parse_common_values() {
    let tab = SharedString::new_static("TAB");
    assert_eq!(IndentStyle::from_shared_string(&tab), Ok(IndentStyle::Tabs));
    let spaces = SharedString::new_static("space");
    assert_eq!(IndentStyle::from_shared_string(&spaces), Ok(IndentStyle::Spaces));
    let four = SharedString::new_static("4");
    assert_eq!(IndentSize::from_shared_string(&four), Ok(IndentSize::Value(4)));
    let crlf = SharedString::new_static("CrLf");
    assert_eq!(EndOfLine::from_shared_string(&crlf), Ok(EndOfLine::CrLf));
    let bogus = SharedString::new_static("bogus");
    assert!(EndOfLine::from_shared_string(&bogus).is_err());
    assert!(IndentSize::from_shared_string(&bogus).is_err());
}

#[test]
fn write_out_values() {
    assert_eq!(IndentSize::Value(12).to_shared_string().as_str(), "12");
    assert_eq!(TabWidth::Value(0).to_shared_string().as_str(), "0");
    assert_eq!(IndentStyle::Tabs.to_shared_string().as_str(), "tab");
    assert_eq!(TrimTrailingWs::Value(true).to_shared_string().as_str(), "true");
}
