use std::cmp::Ordering;

use habitat_core::error::Error;
use habitat_core::ident::{
    is_valid_origin_name, Ident, Identifiable, Name, NameIdent, Origin, Release, ReleaseIdent,
    Version, VersionIdent,
};
use habitat_core::target::PackageTarget;

fn release(s: &str) -> ReleaseIdent {
    ReleaseIdent::from_str(s).unwrap()
}

fn version(s: &str) -> VersionIdent {
    VersionIdent::from_str(s).unwrap()
}

fn name(s: &str) -> NameIdent {
    NameIdent::from_str(s).unwrap()
}

#[test]
fn terribad_default() {
    Ident::terribad_default();
}

#[test]
fn terribad_default_is_the_empty_name_ident() {
    let ident = Ident::terribad_default();

    assert_eq!("", ident.origin().as_str());
    assert_eq!("", ident.name().as_str());
    assert!(ident.version().is_none());
    assert_eq!("/", ident.to_string());
    assert!(Ident::from_str(&ident.to_string()).is_err());
}

// Releases

#[test]
fn new() {
    let origin = Origin::new("chromeo").unwrap();
    let name = Name::new("room-service").unwrap();
    let version = Version::new("1.0.1").unwrap();
    let release = Release::new("20180810134905").unwrap();

    let ident = ReleaseIdent::new(
        origin.clone(),
        name.clone(),
        version.clone(),
        release.clone(),
    );

    assert_eq!(&origin, ident.origin());
    assert_eq!(&name, ident.name());
    assert_eq!(&version, ident.version());
    assert_eq!(&release, ident.release());
}

#[test]
fn from_raw_parts() {
    let ident = ReleaseIdent::from_raw_parts(
        "neal-morse-band",
        "long-day",
        "9.0.9",
        "20180810140105",
    )
    .unwrap();

    assert_eq!(&Origin::new("neal-morse-band").unwrap(), ident.origin());
    assert_eq!(&Name::new("long-day").unwrap(), ident.name());
    assert_eq!(&Version::new("9.0.9").unwrap(), ident.version());
    assert_eq!(&Release::new("20180810140105").unwrap(), ident.release());
}

#[test]
fn from_raw_parts_mixed_params() {
    let ident = ReleaseIdent::from_raw_parts(
        // a `&str`
        "neal-morse-band",
        // an owned `String`
        &String::from("long-day"),
        // a text that was cut out of a longer one
        &"v9.0.9"[1..],
        // a text that was put together
        &format!("{}{}", "2018", "0810140105"),
    )
    .unwrap();

    assert_eq!(&Origin::new("neal-morse-band").unwrap(), ident.origin());
    assert_eq!(&Name::new("long-day").unwrap(), ident.name());
    assert_eq!(&Version::new("9.0.9").unwrap(), ident.version());
    assert_eq!(&Release::new("20180810140105").unwrap(), ident.release());
}

#[test]
fn iter() {
    let ident = release("neal-morse-band/slave-to-your-mind/2.0.1/20180810145506");
    let mut iter = ident.iter();

    assert_eq!(Some("neal-morse-band"), iter.next());
    assert_eq!(Some("slave-to-your-mind"), iter.next());
    assert_eq!(Some("2.0.1"), iter.next());
    assert_eq!(Some("20180810145506"), iter.next());
}

#[test]
fn to_string() {
    let ident = release("neal-morse-band/long-day/9.0.9/20180810140105");

    assert_eq!(
        String::from("neal-morse-band/long-day/9.0.9/20180810140105"),
        ident.to_string()
    );
}

#[test]
fn from_str() {
    let ident =
        ReleaseIdent::from_str("neal-morse-band/makes-no-sense/3.2.1/20180810140105").unwrap();

    assert_eq!(&Origin::new("neal-morse-band").unwrap(), ident.origin());
    assert_eq!(&Name::new("makes-no-sense").unwrap(), ident.name());
    assert_eq!(&Version::new("3.2.1").unwrap(), ident.version());
    assert_eq!(&Release::new("20180810140105").unwrap(), ident.release());
}

#[test]
fn from_str_missing_release_part() {
    let s = "neal-morse-band/makes-no-sense/3.2.1";

    match ReleaseIdent::from_str(s) {
        Err(Error::InvalidReleaseIdent(ref val)) => assert_eq!(val, s),
        Err(e) => panic!("ReleaseIdent::from_str failed with wrong error type: {:?}", e),
        Ok(_) => panic!("ReleaseIdent::from_str should fail to parse: {}", s),
    }
}

#[test]
fn from_str_missing_version_part() {
    let s = "neal-morse-band/makes-no-sense";

    match ReleaseIdent::from_str(s) {
        Err(Error::InvalidReleaseIdent(ref val)) => assert_eq!(val, s),
        Err(e) => panic!("ReleaseIdent::from_str failed with wrong error type: {:?}", e),
        Ok(_) => panic!("ReleaseIdent::from_str should fail to parse: {}", s),
    }
}

#[test]
fn from_str_to_string_round_trip() {
    let expected = String::from("neal-morse-band/makes-no-sense/3.2.1/20180810140105");

    assert_eq!(
        expected,
        ReleaseIdent::from_str(&expected).unwrap().to_string()
    );
}

#[test]
fn into_ident() {
    let ident = release("neal_morse_band/slave-to-your-mind/2.0.1/20180810145506");

    assert_eq!(Ident::Release(ident.clone()), ident.into());
}

#[test]
fn archive_name() {
    let ident = release("neal_morse_band/slave-to-your-mind/2.0.1/20180810145506");
    let active = PackageTarget::X86_64Linux;
    let expected = format!(
        "neal_morse_band-slave-to-your-mind-2.0.1-20180810145506-{}.hart",
        active.as_str()
    );

    assert_eq!(expected, ident.archive_name(&active));
    assert_eq!(
        "neal_morse_band-slave-to-your-mind-2.0.1-20180810145506-x86_64-linux.hart",
        ident.archive_name(&active)
    );
}

#[test]
fn archive_name_with_target() {
    let ident = release("neal_morse_band/slave-to-your-mind/2.0.1/20180810145506");
    let expected = format!(
        "neal_morse_band-slave-to-your-mind-2.0.1-20180810145506-{}.hart",
        PackageTarget::X86_64Darwin.as_str()
    );

    assert_eq!(
        expected,
        ident.archive_name_with_target(&PackageTarget::X86_64Darwin),
    );
}

// Versions

#[test]
fn ident_new() {
    let origin = Origin::new("chromeo").unwrap();
    let name = Name::new("room-service").unwrap();
    let version = Version::new("1.0.1").unwrap();

    let ident = VersionIdent::new(origin.clone(), name.clone(), version.clone());

    assert_eq!(&origin, ident.origin());
    assert_eq!(&name, ident.name());
    assert_eq!(&version, ident.version());
}

#[test]
fn ident_from_raw_parts() {
    let ident = VersionIdent::from_raw_parts("neal-morse-band", "long-day", "9.0.9").unwrap();

    assert_eq!(&Origin::new("neal-morse-band").unwrap(), ident.origin());
    assert_eq!(&Name::new("long-day").unwrap(), ident.name());
    assert_eq!(&Version::new("9.0.9").unwrap(), ident.version());
}

#[test]
fn ident_from_raw_parts_mixed_params() {
    let ident = VersionIdent::from_raw_parts(
        "neal-morse-band",
        &String::from("long-day"),
        &"v9.0.9"[1..],
    )
    .unwrap();

    assert_eq!(&Origin::new("neal-morse-band").unwrap(), ident.origin());
    assert_eq!(&Name::new("long-day").unwrap(), ident.name());
    assert_eq!(&Version::new("9.0.9").unwrap(), ident.version());
}

#[test]
fn ident_iter() {
    let ident = version("neal-morse-band/slave-to-your-mind/2.0.1");
    let mut iter = ident.iter();

    assert_eq!(Some("neal-morse-band"), iter.next());
    assert_eq!(Some("slave-to-your-mind"), iter.next());
    assert_eq!(Some("2.0.1"), iter.next());
}

#[test]
fn ident_to_string() {
    let ident = version("neal-morse-band/long-day/9.0.9");

    assert_eq!(
        String::from("neal-morse-band/long-day/9.0.9"),
        ident.to_string()
    );
}

#[test]
fn ident_from_str() {
    let ident = VersionIdent::from_str("neal-morse-band/makes-no-sense/3.2.1").unwrap();

    assert_eq!(&Origin::new("neal-morse-band").unwrap(), ident.origin());
    assert_eq!(&Name::new("makes-no-sense").unwrap(), ident.name());
    assert_eq!(&Version::new("3.2.1").unwrap(), ident.version());
}

#[test]
fn ident_from_str_including_release_part() {
    let s = "neal-morse-band/makes-no-sense/3.2.1/20180810151301";

    match VersionIdent::from_str(s) {
        Err(Error::InvalidVersionIdent(ref val)) => assert_eq!(val, s),
        Err(e) => panic!("VersionIdent::from_str failed with wrong error type: {:?}", e),
        Ok(_) => panic!("VersionIdent::from_str should fail to parse: {}", s),
    }
}

#[test]
fn ident_from_str_missing_version_part() {
    let s = "neal-morse-band/makes-no-sense";

    match VersionIdent::from_str(s) {
        Err(Error::InvalidVersionIdent(ref val)) => assert_eq!(val, s),
        Err(e) => panic!("VersionIdent::from_str failed with wrong error type: {:?}", e),
        Ok(_) => panic!("VersionIdent::from_str should fail to parse: {}", s),
    }
}

#[test]
fn ident_from_str_to_string_round_trip() {
    let expected = String::from("neal-morse-band/makes-no-sense/3.2.1");

    assert_eq!(
        expected,
        VersionIdent::from_str(&expected).unwrap().to_string()
    );
}

#[test]
fn ident_into_ident() {
    let ident = version("neal_morse_band/slave-to-your-mind/2.0.1");

    assert_eq!(Ident::Version(ident.clone()), ident.into());
}

// Names

#[test]
fn name_ident_new() {
    let origin = Origin::new("chromeo").unwrap();
    let name = Name::new("room-service").unwrap();

    let ident = NameIdent::new(origin.clone(), name.clone());

    assert_eq!(&origin, ident.origin());
    assert_eq!(&name, ident.name());
}

#[test]
fn name_ident_from_raw_parts() {
    let ident = NameIdent::from_raw_parts("neal-morse-band", "long-day").unwrap();

    assert_eq!(&Origin::new("neal-morse-band").unwrap(), ident.origin());
    assert_eq!(&Name::new("long-day").unwrap(), ident.name());
}

#[test]
fn name_ident_from_raw_parts_mixed_params() {
    let ident = NameIdent::from_raw_parts("neal-morse-band", &String::from("long-day")).unwrap();

    assert_eq!(&Origin::new("neal-morse-band").unwrap(), ident.origin());
    assert_eq!(&Name::new("long-day").unwrap(), ident.name());
}

#[test]
fn name_ident_iter() {
    let ident = name("neal-morse-band/slave-to-your-mind");
    let mut iter = ident.iter();

    assert_eq!(Some("neal-morse-band"), iter.next());
    assert_eq!(Some("slave-to-your-mind"), iter.next());
}

#[test]
fn name_ident_to_string() {
    let ident = name("neal-morse-band/long-day");

    assert_eq!(String::from("neal-morse-band/long-day"), ident.to_string());
}

#[test]
fn name_ident_from_str() {
    let ident = NameIdent::from_str("neal-morse-band/makes-no-sense").unwrap();

    assert_eq!(&Origin::new("neal-morse-band").unwrap(), ident.origin());
    assert_eq!(&Name::new("makes-no-sense").unwrap(), ident.name());
}

#[test]
fn name_ident_from_str_including_release_part() {
    let s = "neal-morse-band/makes-no-sense/3.2.1/20180810151301";

    match NameIdent::from_str(s) {
        Err(Error::InvalidNameIdent(ref val)) => assert_eq!(val, s),
        Err(e) => panic!("NameIdent::from_str failed with wrong error type: {:?}", e),
        Ok(_) => panic!("NameIdent::from_str should fail to parse: {}", s),
    }
}

#[test]
fn from_str_including_version_part() {
    let s = "neal-morse-band/makes-no-sense/3.2.1";

    match NameIdent::from_str(s) {
        Err(Error::InvalidNameIdent(ref val)) => assert_eq!(val, s),
        Err(e) => panic!("NameIdent::from_str failed with wrong error type: {:?}", e),
        Ok(_) => panic!("NameIdent::from_str should fail to parse: {}", s),
    }
}

#[test]
fn name_ident_from_str_to_string_round_trip() {
    let expected = String::from("neal-morse-band/makes-no-sense");

    assert_eq!(
        expected,
        NameIdent::from_str(&expected).unwrap().to_string()
    );
}

#[test]
fn name_ident_into_ident() {
    let ident = name("neal_morse_band/slave-to-your-mind");

    assert_eq!(Ident::Name(ident.clone()), ident.into());
}

// Identifiers of any kind

#[test]
fn new_for_release() {
    let ident = Ident::new(
        "neal-morse-band",
        "long-day",
        Some("9.0.9"),
        Some("20180810140105"),
    )
    .unwrap();

    assert_eq!(
        Ident::Release(
            ReleaseIdent::from_str("neal-morse-band/long-day/9.0.9/20180810140105").unwrap()
        ),
        ident
    );
}

#[test]
fn new_for_version() {
    let ident = Ident::new("neal-morse-band", "long-day", Some("9.0.9"), None::<&str>).unwrap();

    assert_eq!(
        Ident::Version(VersionIdent::from_str("neal-morse-band/long-day/9.0.9").unwrap()),
        ident
    );
}

#[test]
fn new_for_name() {
    let ident = Ident::new("neal-morse-band", "long-day", None::<&str>, None::<&str>).unwrap();

    assert_eq!(
        Ident::Name(NameIdent::from_str("neal-morse-band/long-day").unwrap()),
        ident
    );
}

#[test]
fn new_for_invalid() {
    let invalid = "neal-morse-band/long-day//20180810161823";

    match Ident::new(
        "neal-morse-band",
        "long-day",
        None::<&str>,
        Some("20180810161823"),
    ) {
        Err(Error::InvalidPackageIdent(ref val)) => assert_eq!(val, invalid),
        Err(e) => panic!("Ident::new failed with wrong error type: {:?}", e),
        Ok(_) => panic!("Ident::new should fail to parse: {}", invalid),
    }
}

#[test]
fn ident_from_str_takes_two_three_or_four_parts() {
    assert!(matches!(Ident::from_str("a/b"), Ok(Ident::Name(_))));
    assert!(matches!(Ident::from_str("a/b/1.0"), Ok(Ident::Version(_))));
    assert!(matches!(Ident::from_str("a/b/1.0/2018"), Ok(Ident::Release(_))));

    for text in ["", "a", "a/b/c/d/e", "/", "a/", "/b", "a//1.0", "a/b/", "a/b/1.0/", "a/b//2018"] {
        match Ident::from_str(text) {
            Err(Error::InvalidPackageIdent(ref val)) => assert_eq!(val, text),
            other => panic!("{:?} should be refused, got {:?}", text, other),
        }
    }
}

#[test]
fn parts_must_not_be_empty_nor_hold_a_slash() {
    for text in ["", "a/b", "/"] {
        match Origin::new(text) {
            Err(Error::InvalidPackageIdent(ref val)) => assert_eq!(val, text),
            other => panic!("{:?} should be refused, got {:?}", text, other),
        }
        assert!(Name::new(text).is_err());
        assert!(Version::new(text).is_err());
        assert!(Release::new(text).is_err());
    }
    match ReleaseIdent::from_raw_parts("core", "redis", "", "2018") {
        Err(Error::InvalidPackageIdent(ref val)) => assert_eq!(val, ""),
        other => panic!("an empty version should be refused, got {:?}", other),
    }
    match ReleaseIdent::from_raw_parts("core", "re/dis", "", "2018") {
        Err(Error::InvalidPackageIdent(ref val)) => assert_eq!(val, "re/dis"),
        other => panic!("the first bad part should be named, got {:?}", other),
    }
}

#[test]
fn parse_print_round_trip_of_every_kind() {
    for text in ["core/redis", "core/redis/3.2.1", "core/redis/3.2.1/20180810140105", "a/b/master"] {
        let ident = Ident::from_str(text).unwrap();
        assert_eq!(text, ident.to_string());
        assert_eq!(ident, Ident::from_str(&ident.to_string()).unwrap());
    }
    let built = Ident::new("core", "redis", Some("3.2.1"), Some("2018")).unwrap();
    assert_eq!(built, Ident::from_str(&built.to_string()).unwrap());
}

#[test]
fn ident_walks_over_its_parts() {
    let ident = Ident::from_str("core/redis/3.2.1").unwrap();
    let mut iter = ident.iter();

    assert_eq!(Some("core"), iter.next());
    assert_eq!(Some("redis"), iter.next());
    assert_eq!(Some("3.2.1"), iter.next());
    assert_eq!(None, iter.next());
    assert_eq!(None, iter.next());

    let ident = release("core/redis/3.2.1/2018");
    let iter = ident.iter();
    assert_eq!(None, iter.item_for_pos(0));
    assert_eq!(Some("core"), iter.item_for_pos(1));
    assert_eq!(Some("2018"), iter.item_for_pos(4));
    assert_eq!(None, iter.item_for_pos(5));
}

#[test]
fn satisfies_looks_at_the_parts_that_both_have() {
    let full = Ident::from_str("core/redis/3.2.1/2018").unwrap();

    assert!(full.satisfies(&full));
    assert!(full.satisfies(&Ident::from_str("core/redis").unwrap()));
    assert!(full.satisfies(&Ident::from_str("core/redis/3.2.1").unwrap()));
    assert!(!full.satisfies(&Ident::from_str("core/redis/3.2.2").unwrap()));
    assert!(!full.satisfies(&Ident::from_str("core/redis/3.2.1/2019").unwrap()));
    assert!(!full.satisfies(&Ident::from_str("core/nginx").unwrap()));
    assert!(!full.satisfies(&Ident::from_str("acme/redis").unwrap()));
    // Parts that one side lacks do not count.
    assert!(Ident::from_str("core/redis").unwrap().satisfies(&full));
    assert!(Ident::from_str("core/redis/3.2.1").unwrap().satisfies(&full));
    assert!(!Ident::from_str("core/redis/3.2.2").unwrap().satisfies(&full));

    assert!(release("core/redis/3.2.1/2018").satisfies(&Ident::from_str("core/redis").unwrap()));
    assert!(!release("core/redis/3.2.1/2018").satisfies(&Ident::from_str("core/redis/4").unwrap()));
}

#[test]
fn fully_qualified_means_release() {
    assert!(Ident::from_str("core/redis/3.2.1/2018").unwrap().fully_qualified());
    assert!(!Ident::from_str("core/redis/3.2.1").unwrap().fully_qualified());
    assert!(!Ident::from_str("core/redis").unwrap().fully_qualified());

    let ident = Ident::from_str("core/redis/3.2.1").unwrap();
    assert_eq!("core", Identifiable::origin(&ident));
    assert_eq!("redis", Identifiable::name(&ident));
    assert_eq!(Some("3.2.1"), Identifiable::version(&ident));
    assert_eq!(None, Identifiable::release(&ident));
    assert!(!Identifiable::fully_qualified(&ident));
}

#[test]
fn only_a_release_has_an_archive() {
    let target = PackageTarget::X86_64Linux;
    let ident = Ident::from_str("core/redis/3.2.1/2018").unwrap();
    assert_eq!(
        "core-redis-3.2.1-2018-x86_64-linux.hart",
        ident.archive_name(&target).unwrap()
    );
    assert_eq!(
        "core-redis-3.2.1-2018-x86_64-windows.hart",
        ident.archive_name_with_target(&PackageTarget::X86_64Windows).unwrap()
    );

    let ident = Ident::from_str("core/redis/3.2.1").unwrap();
    match ident.archive_name(&target) {
        Err(Error::FullyQualifiedPackageIdentRequired(ref val)) => assert_eq!(val, "core/redis/3.2.1"),
        other => panic!("a version has no archive, got {:?}", other),
    }
}

#[test]
fn partial_order_of_identifiers() {
    let name = Ident::from_str("core/redis").unwrap();
    let version = Ident::from_str("core/redis/3.2.1").unwrap();
    let older = Ident::from_str("core/redis/3.2.1/2018").unwrap();
    let newer = Ident::from_str("core/redis/3.2.1/2019").unwrap();
    let next = Ident::from_str("core/redis/3.10.0/2017").unwrap();

    assert_eq!(None, name.partial_cmp(&name));
    assert_eq!(None, version.partial_cmp(&version));
    assert_eq!(Some(Ordering::Less), name.partial_cmp(&version));
    assert_eq!(Some(Ordering::Less), name.partial_cmp(&older));
    assert_eq!(Some(Ordering::Less), version.partial_cmp(&older));
    assert_eq!(Some(Ordering::Greater), version.partial_cmp(&name));
    assert_eq!(Some(Ordering::Greater), older.partial_cmp(&name));
    assert_eq!(Some(Ordering::Greater), older.partial_cmp(&version));
    assert_eq!(Some(Ordering::Equal), older.partial_cmp(&older));
    assert_eq!(Some(Ordering::Less), older.partial_cmp(&newer));
    assert_eq!(Some(Ordering::Greater), newer.partial_cmp(&older));
    assert_eq!(Some(Ordering::Less), newer.partial_cmp(&next));
    assert!(older < newer);
    assert!(next > newer);

    // Other names are not compared, and origins are not looked at.
    assert_eq!(None, older.partial_cmp(&Ident::from_str("core/nginx/3.2.1/2018").unwrap()));
    assert_eq!(
        Some(Ordering::Equal),
        older.partial_cmp(&Ident::from_str("acme/redis/3.2.1/2018").unwrap())
    );

    // Versions that are no numbers go by the dictionary.
    let master = Ident::from_str("core/redis/master/2018").unwrap();
    assert_eq!(Some(Ordering::Less), older.partial_cmp(&master));
    assert_eq!(Some(Ordering::Greater), master.partial_cmp(&older));
    assert_eq!(
        Some(Ordering::Less),
        release("core/redis/3.2.1/2018").partial_cmp(&release("core/redis/3.2.1/2019"))
    );
}

#[test]
fn total_order_of_identifiers() {
    let older = Ident::from_str("core/redis/3.2.1/2018").unwrap();
    let newer = Ident::from_str("core/redis/3.2.1/2019").unwrap();
    let next = Ident::from_str("core/redis/3.10/2017").unwrap();
    let nginx = Ident::from_str("core/nginx/9.9/2020").unwrap();
    let version = Ident::from_str("core/redis/3.2.1").unwrap();
    let master = Ident::from_str("core/redis/master/2018").unwrap();

    assert_eq!(Ordering::Equal, older.cmp(&older));
    assert_eq!(Ordering::Less, older.cmp(&newer));
    assert_eq!(Ordering::Greater, newer.cmp(&older));
    assert_eq!(Ordering::Less, newer.cmp(&next));
    assert_eq!(Ordering::Greater, next.cmp(&newer));
    // Other names go by the dictionary.
    assert_eq!(Ordering::Less, nginx.cmp(&older));
    assert_eq!(Ordering::Greater, older.cmp(&nginx));
    // A missing release comes first.
    assert_eq!(Ordering::Less, version.cmp(&older));
    assert_eq!(Ordering::Greater, older.cmp(&version));
    // Versions that are no numbers go by the dictionary.
    assert_eq!(Ordering::Less, older.cmp(&master));
    assert_eq!(Ordering::Greater, master.cmp(&older));
    // Equal numbers are equal versions, written as they may be.
    assert_eq!(
        Ordering::Equal,
        Ident::from_str("core/redis/1.2/2018").unwrap().cmp(&Ident::from_str("acme/redis/1.2.0/2018").unwrap())
    );

    let all = [&older, &newer, &next, &nginx, &version, &master];
    for a in all {
        for b in all {
            assert_eq!(a.cmp(b), b.cmp(a).reverse());
        }
    }
}

#[test]
fn origin_names() {
    assert!(is_valid_origin_name("core"));
    assert!(is_valid_origin_name("0core"));
    assert!(is_valid_origin_name("neal-morse_band7"));
    assert!(is_valid_origin_name(&"a".repeat(255)));

    assert!(!is_valid_origin_name(""));
    assert!(!is_valid_origin_name("-core"));
    assert!(!is_valid_origin_name("_core"));
    assert!(!is_valid_origin_name("Core"));
    assert!(!is_valid_origin_name("co re"));
    assert!(!is_valid_origin_name("core/redis"));
    assert!(!is_valid_origin_name("cöre"));
    assert!(!is_valid_origin_name(&"a".repeat(256)));
}
