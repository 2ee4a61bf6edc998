use resolver_cache::dependency::{DepKind, Dependency};
use resolver_cache::errors::QueryError;
use resolver_cache::options::{CliFeatures, RequestedFeatures, ResolveOpts};
use resolver_cache::package::{
    clone_names, clone_parent, has_name, same_names, same_parent, PackageId, PackageIdSpec,
    PartialVersion, SourceId, Version,
};
use resolver_cache::replace::{
    admit_candidates, apply_override, decide_override, find_override, replacement_agrees,
};
use resolver_cache::summary::{clone_values, find_entry, same_values, FeatureValue, Summary};

fn id_from(name: &str, major: u64, minor: u64, source: &str) -> PackageId {
    PackageId::new(name, Version::new(major, minor, 0), SourceId::new(source))
}

fn pkg_from(name: &str, major: u64, minor: u64, source: &str) -> Summary {
    Summary::new(id_from(name, major, minor, source), vec![], vec![], None)
}

fn pkg(name: &str, major: u64, minor: u64) -> Summary {
    pkg_from(name, major, minor, "registry")
}

fn spec(name: &str, version: Option<(u64, u64)>, url: Option<&str>) -> PackageIdSpec {
    PackageIdSpec::new(name, version.map(|(a, b)| Version::new(a, b, 0)), url.map(|u| u.to_string()))
}

fn rule_dep(name: &str, to: &str) -> Dependency {
    Dependency::new(name, "=1.0.0", SourceId::new(to))
}

#[test]
fn a_pattern_matches_by_name_and_by_what_else_it_states() {
    let foo = id_from("foo", 1, 0, "registry");
    assert!(spec("foo", None, None).matches(&foo));
    assert!(spec("foo", Some((1, 0)), None).matches(&foo));
    assert!(spec("foo", Some((1, 0)), Some("registry")).matches(&foo));
    assert!(spec("foo", None, Some("registry")).matches(&foo));
    assert!(!spec("foo", Some((1, 1)), None).matches(&foo));
    assert!(!spec("foo", None, Some("elsewhere")).matches(&foo));
    assert!(!spec("bar", None, None).matches(&foo));
    assert!(!spec("bar", Some((1, 0)), Some("registry")).matches(&foo));
}

#[test]
fn the_first_matching_rule_is_found_from_any_place() {
    let rules = vec![
        (spec("bar", None, None), rule_dep("bar", "fork")),
        (spec("foo", Some((1, 0)), None), rule_dep("foo", "fork")),
        (spec("foo", Some((2, 0)), None), rule_dep("foo", "fork")),
        (spec("foo", None, None), rule_dep("foo", "other")),
    ];
    let foo = id_from("foo", 1, 0, "registry");
    assert_eq!(find_override(&rules, &foo, 0), Some(1));
    assert_eq!(find_override(&rules, &foo, 1), Some(1));
    assert_eq!(find_override(&rules, &foo, 2), Some(3));
    assert_eq!(find_override(&rules, &foo, 4), None);
    assert_eq!(find_override(&rules, &foo, 9), None);
    assert_eq!(find_override(&rules, &id_from("bar", 3, 0, "x"), 0), Some(0));
    assert_eq!(find_override(&rules, &id_from("bar", 3, 0, "x"), 1), None);
    assert_eq!(find_override(&rules, &id_from("baz", 1, 0, "registry"), 0), None);
    assert_eq!(find_override(&[], &foo, 0), None);
}

#[test]
fn candidates_are_admitted_in_their_order() {
    let with = |minor: u64, needs: Option<PartialVersion>| {
        Summary::new(id_from("b", 1, minor, "registry"), vec![], vec![], needs)
    };
    let answer = vec![
        with(3, Some(PartialVersion::new(1, Some(71), None))),
        with(0, None),
        with(2, Some(PartialVersion::new(1, Some(70), None))),
        with(1, Some(PartialVersion::new(2, None, None))),
        with(4, Some(PartialVersion::new(1, None, None))),
    ];
    let limit = Some(PartialVersion::new(1, Some(70), None));
    let kept = admit_candidates(answer.clone(), &limit);
    let minors: Vec<u64> = kept.iter().map(|s| s.package_id.version.minor).collect();
    assert_eq!(minors, vec![0, 2, 4]);
    assert_eq!(admit_candidates(answer.clone(), &None), answer);
    assert_eq!(admit_candidates(vec![], &limit), vec![]);
}

#[test]
fn a_replacement_agrees_in_name_and_version() {
    let foo = pkg("foo", 1, 0);
    assert!(replacement_agrees(&foo, &vec![pkg_from("foo", 1, 0, "fork")]));
    assert!(!replacement_agrees(&foo, &vec![pkg_from("foo", 1, 1, "fork")]));
    assert!(!replacement_agrees(&foo, &vec![pkg_from("oof", 1, 0, "fork")]));
    // Nothing is asked of an answer that is empty or ambiguous.
    assert!(replacement_agrees(&foo, &vec![]));
    assert!(replacement_agrees(&foo, &vec![pkg("x", 9, 9), pkg("y", 8, 8)]));
}

#[test]
fn the_outcome_of_an_override_follows_the_answer() {
    let foo = pkg("foo", 1, 0);
    let first = spec("foo", Some((1, 0)), None);
    let second = spec("foo", None, None);
    let dep = rule_dep("foo", "fork");
    assert_eq!(
        apply_override(&foo, &first, &dep, None, vec![]),
        Err(QueryError::NoMatchingOverride {
            spec: first.clone(),
            source_id: SourceId::new("fork"),
            version_req: "=1.0.0".to_string(),
        })
    );
    // An empty answer is reported before a second rule is.
    assert!(matches!(
        apply_override(&foo, &first, &dep, Some(&second), vec![]),
        Err(QueryError::NoMatchingOverride { .. })
    ));
    assert_eq!(
        apply_override(
            &foo,
            &first,
            &dep,
            Some(&second),
            vec![pkg_from("foo", 1, 0, "fork"), pkg_from("bar", 2, 0, "fork")]
        ),
        Err(QueryError::MultipleOverrideMatches {
            spec: first.clone(),
            matches: vec![id_from("foo", 1, 0, "fork"), id_from("bar", 2, 0, "fork")],
        })
    );
    assert_eq!(
        apply_override(&foo, &first, &dep, Some(&second), vec![pkg_from("foo", 1, 0, "fork")]),
        Err(QueryError::OverlappingOverrides {
            first: first.clone(),
            second: second.clone(),
            package_id: id_from("foo", 1, 0, "registry"),
        })
    );
    assert_eq!(
        apply_override(&foo, &first, &dep, None, vec![pkg_from("foo", 1, 0, "fork")]),
        Ok(Some(pkg_from("foo", 1, 0, "fork")))
    );
    assert_eq!(
        apply_override(&foo, &first, &dep, None, vec![pkg_from("foo", 1, 0, "registry")]),
        Ok(None)
    );
}

#[test]
fn names_are_compared_and_copied_letter_by_letter() {
    let a = vec!["std".to_string(), "serde".to_string()];
    let b = clone_names(&a);
    assert_eq!(a, b);
    assert!(same_names(&a, &b));
    assert!(!same_names(&a, &vec!["serde".to_string(), "std".to_string()]));
    assert!(!same_names(&a, &vec!["std".to_string()]));
    assert!(same_names(&vec![], &vec![]));
    assert!(has_name(&a, &"serde".to_string()));
    assert!(!has_name(&a, &"serd".to_string()));
    assert!(!has_name(&vec![], &"serde".to_string()));
}

#[test]
fn identities_are_equal_when_every_part_is() {
    let foo = id_from("foo", 1, 0, "registry");
    assert!(foo.same(&foo.clone()));
    assert!(!foo.same(&id_from("foo", 1, 0, "fork")));
    assert!(!foo.same(&id_from("foo", 1, 1, "registry")));
    assert!(!foo.same(&id_from("fo", 1, 0, "registry")));
    assert!(same_parent(&None, &None));
    assert!(same_parent(&Some(foo.clone()), &clone_parent(&Some(foo.clone()))));
    assert!(!same_parent(&Some(foo.clone()), &None));
    assert!(!same_parent(&None, &Some(foo.clone())));
    assert_eq!(clone_parent(&None), None);
    assert_eq!(foo.name(), "foo");
    assert_eq!(foo.version(), Version::new(1, 0, 0));
    assert_eq!(foo.source_id(), &SourceId::new("registry"));
    let pattern = spec("foo", Some((1, 0)), Some("registry"));
    assert_eq!(pattern.clone(), pattern);
}

#[test]
fn dependencies_are_equal_when_every_part_is() {
    let base = Dependency::new("b", "^1", SourceId::new("registry"));
    assert!(base.same(&base.clone()));
    assert_eq!(base.clone(), base);
    assert!(!base.same(&Dependency::new("c", "^1", SourceId::new("registry"))));
    assert!(!base.same(&Dependency::new("b", "^2", SourceId::new("registry"))));
    assert!(!base.same(&Dependency::new("b", "^1", SourceId::new("fork"))));
    assert!(!base.same(&base.clone().set_optional(true)));
    assert!(!base.same(&base.clone().set_kind(DepKind::Build)));
    assert!(!base.same(&base.clone().set_default_features(false)));
    assert!(!base.same(&base.clone().set_features(vec!["f".to_string()])));
    assert!(!base.same(&base.clone().set_name_in_toml("alias")));
    let full = base
        .clone()
        .set_optional(true)
        .set_kind(DepKind::Development)
        .set_default_features(false)
        .set_features(vec!["f".to_string()])
        .set_name_in_toml("alias");
    assert!(full.same(&full.clone()));
    assert_eq!(full.package_name(), "b");
    assert_eq!(full.name_in_toml(), "alias");
    assert_eq!(full.version_req(), "^1");
    assert_eq!(full.source_id(), &SourceId::new("registry"));
    assert!(full.is_optional());
    assert!(!full.is_transitive());
    assert!(base.is_transitive());
    assert!(base.clone().set_kind(DepKind::Build).is_transitive());
    assert!(!full.uses_default_features());
    assert_eq!(full.features(), &vec!["f".to_string()]);
}

#[test]
fn requests_are_equal_when_every_part_is() {
    let cli = |features: Vec<FeatureValue>, all: bool, default: bool, dev: bool| {
        ResolveOpts::new(
            dev,
            RequestedFeatures::CliFeatures(CliFeatures {
                features,
                all_features: all,
                uses_default_features: default,
            }),
        )
    };
    let from_dep = |features: Vec<&str>, default: bool| {
        ResolveOpts::new(
            false,
            RequestedFeatures::DepFeatures {
                features: features.into_iter().map(|s| s.to_string()).collect(),
                uses_default_features: default,
            },
        )
    };
    let a = cli(vec![FeatureValue::feature("f"), FeatureValue::dep("d")], false, true, false);
    assert!(a.same(&a.clone()));
    assert_eq!(a.clone(), a);
    assert!(!a.same(&cli(vec![FeatureValue::dep("d"), FeatureValue::feature("f")], false, true, false)));
    assert!(!a.same(&cli(vec![FeatureValue::feature("f")], false, true, false)));
    assert!(!a.same(&cli(vec![FeatureValue::feature("f"), FeatureValue::dep("d")], true, true, false)));
    assert!(!a.same(&cli(vec![FeatureValue::feature("f"), FeatureValue::dep("d")], false, false, false)));
    assert!(!a.same(&cli(vec![FeatureValue::feature("f"), FeatureValue::dep("d")], false, true, true)));
    let b = from_dep(vec!["f"], true);
    assert!(b.same(&b.clone()));
    assert!(!b.same(&from_dep(vec!["f"], false)));
    assert!(!b.same(&from_dep(vec!["g"], true)));
    assert!(!b.same(&cli(vec![FeatureValue::feature("f")], false, true, false)));
}

#[test]
fn feature_values_are_equal_when_kind_and_names_are() {
    let values = vec![
        FeatureValue::feature("a"),
        FeatureValue::dep("a"),
        FeatureValue::dep_feature("a", "b", false),
        FeatureValue::dep_feature("a", "b", true),
        FeatureValue::dep_feature("a", "c", false),
        FeatureValue::dep_feature("c", "b", false),
        FeatureValue::feature("b"),
    ];
    for (i, x) in values.iter().enumerate() {
        for (j, y) in values.iter().enumerate() {
            assert_eq!(x.same(y), i == j);
        }
        assert!(x.same(&x.clone()));
    }
    let copy = clone_values(&values);
    assert_eq!(copy, values);
    assert!(same_values(&copy, &values));
    assert!(!same_values(&copy, &values[1..].to_vec()));
    assert!(same_values(&vec![], &vec![]));
}

#[test]
fn the_first_entry_of_a_name_counts() {
    let table = vec![
        ("a".to_string(), vec![FeatureValue::feature("one")]),
        ("b".to_string(), vec![]),
        ("a".to_string(), vec![FeatureValue::feature("two")]),
    ];
    assert_eq!(find_entry(&table, &"a".to_string()), Some(0));
    assert_eq!(find_entry(&table, &"b".to_string()), Some(1));
    assert_eq!(find_entry(&table, &"c".to_string()), None);
    let s = Summary::new(
        id_from("s", 1, 2, "registry"),
        vec![rule_dep("x", "registry").set_optional(true), rule_dep("y", "registry")],
        table,
        Some(PartialVersion::new(1, Some(70), None)),
    );
    assert_eq!(s.find_feature(&"a".to_string()), Some(0));
    assert_eq!(s.find_feature(&"zz".to_string()), None);
    assert_eq!(s.dependency_named(&"x".to_string()), (true, true));
    assert_eq!(s.dependency_named(&"y".to_string()), (true, false));
    assert_eq!(s.dependency_named(&"z".to_string()), (false, false));
    assert_eq!(s.package_id(), &id_from("s", 1, 2, "registry"));
    assert_eq!(s.name(), "s");
    assert_eq!(s.version(), Version::new(1, 2, 0));
    assert_eq!(s.source_id(), &SourceId::new("registry"));
    assert_eq!(s.dependencies().len(), 2);
    assert_eq!(s.features().len(), 3);
    assert_eq!(s.rust_version(), Some(PartialVersion::new(1, Some(70), None)));
}

#[test]
fn deciding_an_override_looks_for_a_second_rule() {
    let rules = vec![
        (spec("bar", None, None), rule_dep("bar", "fork")),
        (spec("foo", Some((1, 0)), None), rule_dep("foo", "fork")),
        (spec("foo", None, None), rule_dep("foo", "other")),
    ];
    let foo = pkg("foo", 1, 0);
    let bar = pkg("bar", 2, 0);
    assert_eq!(
        decide_override(&rules, &foo, 1, vec![pkg_from("foo", 1, 0, "fork")]),
        Err(QueryError::OverlappingOverrides {
            first: spec("foo", Some((1, 0)), None),
            second: spec("foo", None, None),
            package_id: id_from("foo", 1, 0, "registry"),
        })
    );
    // A replacement of another version is reported before the second rule.
    assert_eq!(
        decide_override(&rules, &foo, 1, vec![pkg_from("foo", 1, 1, "fork")]),
        Err(QueryError::ReplacementMismatch {
            spec: spec("foo", Some((1, 0)), None),
            package_id: id_from("foo", 1, 0, "registry"),
            replacement: id_from("foo", 1, 1, "fork"),
        })
    );
    assert_eq!(
        decide_override(&rules, &bar, 0, vec![pkg_from("bar", 2, 0, "fork")]),
        Ok(Some(pkg_from("bar", 2, 0, "fork")))
    );
    assert_eq!(decide_override(&rules, &bar, 0, vec![pkg("bar", 2, 0)]), Ok(None));
    assert!(matches!(
        decide_override(&rules, &bar, 0, vec![]),
        Err(QueryError::NoMatchingOverride { .. })
    ));
}
