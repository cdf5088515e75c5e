//! Property map tests.

use ec4rs::string::SharedString;
use ec4rs::{Properties, PropertiesSource};

static BASIC_KEYS: [&str; 4] = ["2", "3", "0", "1"];
static ALT_VALUES: [&str; 4] = ["a", "b", "c", "d"];

fn zip_self() -> Vec<(SharedString, SharedString)> {
    let mut v = Vec::new();
    for s in BASIC_KEYS {
        v.push((SharedString::new_static(s), SharedString::new_static(s)));
    }
    v
}

fn zip_alts() -> Vec<(&'static str, &'static str)> {
    let mut v = Vec::new();
    for i in 0..BASIC_KEYS.len() {
        v.push((BASIC_KEYS[i], ALT_VALUES[i]));
    }
    v
}

fn test_basic_keys(props: &Properties) {
    for s in BASIC_KEYS {
        // Test mapping correctness using lookups.
        assert_eq!(
            props.get_raw_for_key(s).cloned(),
            Some(SharedString::new_static(s))
        );
    }
    // Ensure that the keys are returned in order.
    let pairs = props.iter();
    assert_eq!(pairs.len(), BASIC_KEYS.len());
    for i in 0..BASIC_KEYS.len() {
        assert_eq!(pairs[i].0.as_str(), BASIC_KEYS[i]);
    }
}

#[test]
fn from_iter() {
    let mut props = Properties::new();
    props.extend(zip_self());
    test_basic_keys(&props);
}

#[test]
fn insert() {
    let mut props = Properties::new();
    for s in BASIC_KEYS {
        props.insert_raw_for_key(s, SharedString::new_static(s));
    }
    test_basic_keys(&props);
}

#[test]
fn insert_replacing() {
    let mut props = Properties::new();
    for (k, v) in zip_alts() {
        props.insert_raw_for_key(k, SharedString::new_static(v));
    }
    for (k, v) in zip_alts() {
        let old = props.get_raw_for_key(k).expect("missing pair");
        assert_eq!(old.as_str(), v);
        props.insert_raw_for_key(k, SharedString::new_static(k));
    }
    test_basic_keys(&props);
}

#[test]
fn try_insert() {
    let mut props = Properties::new();
    for s in BASIC_KEYS {
        assert!(props.try_insert_raw_for_key(s, SharedString::new_static(s)).is_ok());
    }
    test_basic_keys(&props);
}

#[test]
fn try_insert_replacing() {
    let mut props = Properties::new();
    props.extend(zip_self());
    for (k, v) in zip_alts() {
        assert_eq!(
            props
                .try_insert_raw_for_key(k, SharedString::new_static(k))
                .expect_err("try_insert wrongly returns Ok for same value")
                .as_str(),
            k
        );
        assert_eq!(
            props
                .try_insert_raw_for_key(k, SharedString::new_static(v))
                .expect_err("try_insert wrongly returns Ok for update")
                .as_str(),
            k
        );
    }
}

#[test]
fn apply_empty_to() {
    let mut props = Properties::new();
    props.insert_raw_for_key("foo", SharedString::new_static("a"));
    props.insert_raw_for_key("bar", SharedString::new_static("b"));
    let mut empty_pairs = Properties::new();
    empty_pairs.insert_raw_for_key("bar", SharedString::empty());
    empty_pairs.insert_raw_for_key("baz", SharedString::empty());
    assert_eq!(empty_pairs.len(), 2);
    empty_pairs
        .apply_to(&mut props, "")
        .expect("applying properties should be infallible");
    assert_eq!(props.len(), 3);
    assert_eq!(props.get_raw_for_key("bar"), Some(&SharedString::empty()));
}
