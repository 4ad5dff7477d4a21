use std::cmp::Ordering;

use habitat_core::error::Error;
use habitat_core::version::{order_parts, order_texts, split_captured, split_version, version_sort};

fn strings(parts: &[&str]) -> Vec<String> {
    parts.iter().map(|p| p.to_string()).collect()
}

#[test]
fn version_sort_orders_versions() {
    assert_eq!(Ordering::Greater, version_sort("1.0.0", "1.0.0-alpha1").unwrap());
    assert_eq!(Ordering::Equal, version_sort("1.2", "1.2.0").unwrap());
    assert_eq!(Ordering::Greater, version_sort("1.10", "1.9").unwrap());
    assert_eq!(Ordering::Greater, version_sort("2.0.0-beta", "2.0.0-alpha").unwrap());
}

#[test]
fn version_sort_compares_numbers_first() {
    assert_eq!(Ordering::Equal, version_sort("1.0.0", "1.0.0").unwrap());
    assert_eq!(Ordering::Equal, version_sort("1", "1.0.0.0").unwrap());
    assert_eq!(Ordering::Equal, version_sort("01.002", "1.2").unwrap());
    assert_eq!(Ordering::Less, version_sort("1.0.0", "1.0.1").unwrap());
    assert_eq!(Ordering::Less, version_sort("1.0.0", "1.0.0.1").unwrap());
    assert_eq!(Ordering::Greater, version_sort("2.0.0", "1.99.99").unwrap());
    assert_eq!(Ordering::Less, version_sort("1.9.0-zzz", "1.10.0-aaa").unwrap());
    assert_eq!(Ordering::Less, version_sort("2.1.1", "2.1.10").unwrap());
    assert_eq!(
        Ordering::Less,
        version_sort("18446744073709551614", "18446744073709551615").unwrap()
    );
}

#[test]
fn version_sort_compares_extensions_last() {
    assert_eq!(Ordering::Less, version_sort("1.0.0-alpha1", "1.0.0").unwrap());
    assert_eq!(Ordering::Less, version_sort("1.0.0-alpha1", "1.0.0-alpha2").unwrap());
    assert_eq!(Ordering::Equal, version_sort("1.0.0-alpha1", "1.0.0-alpha1").unwrap());
    assert_eq!(Ordering::Less, version_sort("1.0.0-alpha", "1.0.0-alpha1").unwrap());
    assert_eq!(Ordering::Less, version_sort("1.0.0-beta1", "1.0.0-beta10").unwrap());
    // The `-` before an extension does not count.
    assert_eq!(Ordering::Equal, version_sort("1.0.0-rc", "1.0.0rc").unwrap());
    assert_eq!(Ordering::Less, version_sort("1.0.0-a", "1.0.0b").unwrap());
}

#[test]
fn version_sort_refuses_what_has_no_numbers() {
    match version_sort("master", "1.0.0") {
        Err(Error::InvalidPackageIdent(ref val)) => assert_eq!(val, "master"),
        other => panic!("expected a refusal of the first version, got {:?}", other),
    }
    match version_sort("1.0.0", "v1.0.0") {
        Err(Error::InvalidPackageIdent(ref val)) => assert_eq!(val, "v1.0.0"),
        other => panic!("expected a refusal of the second version, got {:?}", other),
    }
    match version_sort("", "1.0.0") {
        Err(Error::InvalidPackageIdent(ref val)) => assert_eq!(val, ""),
        other => panic!("expected a refusal of the empty version, got {:?}", other),
    }
}

#[test]
fn version_sort_refuses_what_is_no_number() {
    match version_sort("1..0", "1.0.0") {
        Err(Error::ParseIntError(ref val)) => assert_eq!(val, ""),
        other => panic!("expected a bad number, got {:?}", other),
    }
    match version_sort("1.0", "1.18446744073709551616") {
        Err(Error::ParseIntError(ref val)) => assert_eq!(val, "18446744073709551616"),
        other => panic!("expected a number that does not fit, got {:?}", other),
    }
    // The numbers differ before the bad one is met.
    assert_eq!(Ordering::Less, version_sort("1..0", "2.0.0").unwrap());
}

#[test]
fn split_version_takes_numbers_and_extension_apart() {
    assert_eq!((strings(&["1", "0", "0"]), None), split_version("1.0.0").unwrap());
    assert_eq!(
        (strings(&["1", "0", "0"]), Some("alpha1".to_string())),
        split_version("1.0.0-alpha1").unwrap()
    );
    assert_eq!(
        (strings(&["1", "0"]), Some("rc1".to_string())),
        split_version("1.0rc1").unwrap()
    );
    assert_eq!((strings(&["1", "0"]), Some("".to_string())), split_version("1.0-").unwrap());
    assert_eq!((strings(&["1", "0"]), Some("-x".to_string())), split_version("1.0--x").unwrap());
    assert_eq!((strings(&["1", ""]), None), split_version("1.").unwrap());
    assert_eq!((strings(&["", "5"]), None), split_version(".5").unwrap());
    assert!(matches!(split_version("x1.0"), Err(Error::InvalidPackageIdent(_))));
}

#[test]
fn split_captured_works_on_what_was_found() {
    let found = Some(vec![
        Some("2.0.1-rc".to_string()),
        Some("2.0.1".to_string()),
        Some("-rc".to_string()),
    ]);
    assert_eq!(
        (strings(&["2", "0", "1"]), Some("rc".to_string())),
        split_captured("2.0.1-rc", &found).unwrap()
    );

    let found = Some(vec![Some("7".to_string()), Some("7".to_string()), None]);
    assert_eq!((strings(&["7"]), None), split_captured("7", &found).unwrap());

    match split_captured("master", &None) {
        Err(Error::InvalidPackageIdent(ref val)) => assert_eq!(val, "master"),
        other => panic!("nothing was found, got {:?}", other),
    }
    match split_captured("odd", &Some(vec![Some("odd".to_string()), None, None])) {
        Err(Error::InvalidPackageIdent(ref val)) => assert_eq!(val, "odd"),
        other => panic!("no numbers were found, got {:?}", other),
    }
    match split_captured("odd", &Some(vec![Some("odd".to_string())])) {
        Err(Error::InvalidPackageIdent(ref val)) => assert_eq!(val, "odd"),
        other => panic!("no numbers were found, got {:?}", other),
    }
}

#[test]
fn order_parts_works_on_versions_taken_apart() {
    let none: Option<String> = None;
    let alpha = Some("alpha".to_string());
    let beta = Some("beta".to_string());

    assert_eq!(
        Ordering::Greater,
        order_parts(&strings(&["1", "10"]), &none, &strings(&["1", "9"]), &none).unwrap()
    );
    assert_eq!(
        Ordering::Equal,
        order_parts(&strings(&["1", "2"]), &none, &strings(&["1", "2", "0"]), &none).unwrap()
    );
    assert_eq!(
        Ordering::Equal,
        order_parts(&strings(&[]), &none, &strings(&["0", "0"]), &none).unwrap()
    );
    assert_eq!(
        Ordering::Less,
        order_parts(&strings(&["1"]), &alpha, &strings(&["1"]), &none).unwrap()
    );
    assert_eq!(
        Ordering::Greater,
        order_parts(&strings(&["1"]), &none, &strings(&["1"]), &alpha).unwrap()
    );
    assert_eq!(
        Ordering::Less,
        order_parts(&strings(&["1"]), &alpha, &strings(&["1"]), &beta).unwrap()
    );
    assert_eq!(
        Ordering::Greater,
        order_parts(&strings(&["2"]), &alpha, &strings(&["1"]), &none).unwrap()
    );
    match order_parts(&strings(&["1", "x"]), &none, &strings(&["1", "y"]), &none) {
        Err(Error::ParseIntError(ref val)) => assert_eq!(val, "x"),
        other => panic!("expected the first bad number, got {:?}", other),
    }
    match order_parts(&strings(&["1", "2"]), &none, &strings(&["1", "+2"]), &none) {
        Err(Error::ParseIntError(ref val)) => assert_eq!(val, "+2"),
        other => panic!("expected the second bad number, got {:?}", other),
    }
}

#[test]
fn order_texts_is_the_order_of_the_dictionary() {
    assert_eq!(Ordering::Equal, order_texts("", ""));
    assert_eq!(Ordering::Less, order_texts("", "a"));
    assert_eq!(Ordering::Greater, order_texts("a", ""));
    assert_eq!(Ordering::Less, order_texts("alpha", "beta"));
    assert_eq!(Ordering::Less, order_texts("alpha", "alpha1"));
    assert_eq!(Ordering::Less, order_texts("10", "9"));
    assert_eq!(Ordering::Less, order_texts("Z", "a"));
    assert_eq!(Ordering::Less, order_texts("z", "é"));
    assert_eq!(Ordering::Greater, order_texts("20180810140105", "20180704142702"));
    for (a, b) in [("abc", "abd"), ("", "x"), ("é", "e"), ("same", "same")] {
        assert_eq!(a.cmp(b), order_texts(a, b));
        assert_eq!(b.cmp(a), order_texts(b, a));
    }
}
