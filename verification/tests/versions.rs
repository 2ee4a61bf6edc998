use resolver_cache::package::{check_toolchain, PartialVersion, Version};

#[test]
fn versions_compare_by_their_numbers_in_turn() {
    let a = Version::new(1, 2, 3);
    assert!(a.lt(&Version::new(1, 2, 4)));
    assert!(a.lt(&Version::new(1, 3, 0)));
    assert!(a.lt(&Version::new(2, 0, 0)));
    assert!(!a.lt(&Version::new(1, 2, 3)));
    assert!(!a.lt(&Version::new(1, 1, 9)));
    assert!(!a.lt(&Version::new(0, 9, 9)));
}

#[test]
fn an_absent_number_precedes_every_number() {
    let short = PartialVersion::new(1, Some(70), None);
    let long = PartialVersion::new(1, Some(70), Some(0));
    assert!(short.le(&long));
    assert!(!long.le(&short));
    assert!(short.le(&short));
    assert!(PartialVersion::new(1, None, None).le(&PartialVersion::new(1, Some(0), None)));
    assert!(!PartialVersion::new(2, None, None).le(&PartialVersion::new(1, Some(99), Some(9))));
}

#[test]
fn toolchain_limit_admits_what_it_covers() {
    let limit = Some(PartialVersion::new(1, Some(70), None));
    assert!(check_toolchain(&limit, &None));
    assert!(check_toolchain(&limit, &Some(PartialVersion::new(1, Some(69), Some(5)))));
    assert!(check_toolchain(&limit, &Some(PartialVersion::new(1, Some(70), None))));
    assert!(!check_toolchain(&limit, &Some(PartialVersion::new(1, Some(70), Some(0)))));
    assert!(!check_toolchain(&limit, &Some(PartialVersion::new(1, Some(71), None))));
    assert!(check_toolchain(&None, &Some(PartialVersion::new(9, Some(9), Some(9)))));
}
