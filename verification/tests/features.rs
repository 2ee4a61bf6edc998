use resolver_cache::dependency::{DepKind, Dependency};
use resolver_cache::errors::{ActivateError, ConflictReason, FatalError};
use resolver_cache::features::{build_requirements, resolve_features};
use resolver_cache::options::{CliFeatures, RequestedFeatures, ResolveOpts};
use resolver_cache::package::{PackageId, SourceId, Version};
use resolver_cache::requirements::{RequirementError, Requirements};
use resolver_cache::summary::{FeatureValue, Summary};

fn id(name: &str, major: u64, minor: u64) -> PackageId {
    PackageId::new(name, Version::new(major, minor, 0), SourceId::new("registry"))
}

fn dep(name: &str) -> Dependency {
    Dependency::new(name, "^1", SourceId::new("registry"))
}

fn names(list: &[&str]) -> Vec<String> {
    list.iter().map(|s| s.to_string()).collect()
}

fn table(entries: Vec<(&str, Vec<FeatureValue>)>) -> Vec<(String, Vec<FeatureValue>)> {
    entries.into_iter().map(|(n, v)| (n.to_string(), v)).collect()
}

fn cli(features: Vec<FeatureValue>, all_features: bool, uses_default_features: bool) -> ResolveOpts {
    ResolveOpts::new(
        false,
        RequestedFeatures::CliFeatures(CliFeatures { features, all_features, uses_default_features }),
    )
}

fn from_dep(features: &[&str], uses_default_features: bool) -> ResolveOpts {
    ResolveOpts::new(
        false,
        RequestedFeatures::DepFeatures { features: names(features), uses_default_features },
    )
}

fn emitted(out: &(Vec<String>, Vec<(Dependency, std::rc::Rc<Vec<String>>)>)) -> Vec<(String, Vec<String>)> {
    out.1.iter().map(|(d, f)| (d.name_in_toml.clone(), (**f).clone())).collect()
}

#[test]
fn a_required_dependency_is_activated_without_features() {
    let a = Summary::new(id("a", 1, 0), vec![dep("b")], vec![], None);
    let out = resolve_features(None, &a, &cli(vec![], false, true)).unwrap();
    assert_eq!(out.0, names(&[]));
    assert_eq!(emitted(&out), vec![("b".to_string(), names(&[]))]);
    assert_eq!(out.1[0].0, dep("b"));
}

#[test]
fn the_default_feature_is_used_where_the_package_has_one() {
    let a = Summary::new(
        id("a", 1, 0),
        vec![dep("b")],
        table(vec![("default", vec![FeatureValue::feature("std")]), ("std", vec![])]),
        None,
    );
    let out = resolve_features(None, &a, &cli(vec![], false, true)).unwrap();
    assert_eq!(out.0, names(&["default", "std"]));
    let out = resolve_features(None, &a, &cli(vec![], false, false)).unwrap();
    assert_eq!(out.0, names(&[]));
    let out = resolve_features(Some(id("p", 1, 0)), &a, &from_dep(&[], true)).unwrap();
    assert_eq!(out.0, names(&["default", "std"]));
}

#[test]
fn an_optional_dependency_is_activated_by_a_feature() {
    let a = Summary::new(
        id("a", 1, 0),
        vec![dep("b"), dep("x").set_optional(true)],
        table(vec![("x", vec![FeatureValue::dep("x")])]),
        None,
    );
    let with = resolve_features(None, &a, &cli(vec![FeatureValue::feature("x")], false, true)).unwrap();
    assert_eq!(with.0, names(&["x"]));
    assert_eq!(
        emitted(&with),
        vec![("b".to_string(), names(&[])), ("x".to_string(), names(&[]))]
    );
    let without = resolve_features(None, &a, &cli(vec![], false, true)).unwrap();
    assert_eq!(without.0, names(&[]));
    assert_eq!(emitted(&without), vec![("b".to_string(), names(&[]))]);
}

#[test]
fn a_feature_that_lists_itself_is_fatal() {
    let a = Summary::new(
        id("a", 1, 0),
        vec![],
        table(vec![("loop", vec![FeatureValue::feature("loop")])]),
        None,
    );
    let expected = ActivateError::Fatal(FatalError::FeatureCycle { feature: "loop".to_string() });
    let root = resolve_features(None, &a, &cli(vec![FeatureValue::feature("loop")], false, true));
    assert_eq!(root, Err(expected.clone()));
    let inner = resolve_features(Some(id("p", 1, 0)), &a, &from_dep(&["loop"], true));
    assert_eq!(inner, Err(expected.clone()));
    let all = resolve_features(None, &a, &cli(vec![], true, false));
    assert_eq!(all, Err(expected));
}

#[test]
fn entries_before_the_self_reference_fail_first() {
    let a = Summary::new(
        id("a", 1, 0),
        vec![],
        table(vec![(
            "loop",
            vec![FeatureValue::feature("gone"), FeatureValue::feature("loop")],
        )]),
        None,
    );
    let r = resolve_features(None, &a, &cli(vec![FeatureValue::feature("loop")], false, true));
    assert_eq!(
        r,
        Err(ActivateError::Fatal(FatalError::MissingFeature {
            package_id: id("a", 1, 0),
            feature: "gone".to_string(),
        }))
    );
}

#[test]
fn a_cycle_through_two_features_is_walked_once() {
    let a = Summary::new(
        id("a", 1, 0),
        vec![],
        table(vec![
            ("f", vec![FeatureValue::feature("g")]),
            ("g", vec![FeatureValue::feature("f")]),
        ]),
        None,
    );
    let out = resolve_features(None, &a, &cli(vec![FeatureValue::feature("f")], false, true)).unwrap();
    assert_eq!(out.0, names(&["f", "g"]));
}

#[test]
fn a_missing_feature_is_fatal_for_the_root_and_a_conflict_elsewhere() {
    let a = Summary::new(id("a", 1, 0), vec![dep("b")], vec![], None);
    let root = resolve_features(None, &a, &cli(vec![FeatureValue::feature("nope")], false, true));
    assert_eq!(
        root,
        Err(ActivateError::Fatal(FatalError::MissingFeature {
            package_id: id("a", 1, 0),
            feature: "nope".to_string(),
        }))
    );
    let inner = resolve_features(Some(id("p", 2, 0)), &a, &from_dep(&["nope"], true));
    assert_eq!(
        inner,
        Err(ActivateError::Conflict(
            id("p", 2, 0),
            ConflictReason::MissingFeatures("nope".to_string())
        ))
    );
}

#[test]
fn an_optional_dependency_without_its_feature_is_told_apart() {
    let a = Summary::new(
        id("a", 1, 0),
        vec![dep("x").set_optional(true)],
        table(vec![("extra", vec![FeatureValue::dep("x")])]),
        None,
    );
    let root = resolve_features(None, &a, &cli(vec![FeatureValue::feature("x")], false, true));
    assert_eq!(
        root,
        Err(ActivateError::Fatal(FatalError::NonImplicitDependencyAsFeature {
            package_id: id("a", 1, 0),
            feature: "x".to_string(),
        }))
    );
    let inner = resolve_features(Some(id("p", 2, 0)), &a, &from_dep(&["x"], true));
    assert_eq!(
        inner,
        Err(ActivateError::Conflict(
            id("p", 2, 0),
            ConflictReason::NonImplicitDependencyAsFeature("x".to_string())
        ))
    );
}

#[test]
fn a_required_dependency_is_no_feature() {
    let a = Summary::new(id("a", 1, 0), vec![dep("y")], vec![], None);
    let root = resolve_features(None, &a, &cli(vec![FeatureValue::feature("y")], false, true));
    assert_eq!(
        root,
        Err(ActivateError::Fatal(FatalError::RequiredDependencyAsFeature {
            package_id: id("a", 1, 0),
            feature: "y".to_string(),
        }))
    );
    let inner = resolve_features(Some(id("p", 2, 0)), &a, &from_dep(&["y"], true));
    assert_eq!(
        inner,
        Err(ActivateError::Conflict(
            id("p", 2, 0),
            ConflictReason::RequiredDependencyAsFeature("y".to_string())
        ))
    );
}

#[test]
fn the_root_may_not_name_a_dependency_it_does_not_have() {
    let a = Summary::new(id("a", 1, 0), vec![dep("b")], vec![], None);
    let ask = vec![
        FeatureValue::dep_feature("b", "fast", false),
        FeatureValue::dep_feature("ghost", "fast", false),
        FeatureValue::dep("phantom"),
    ];
    let root = resolve_features(None, &a, &cli(ask.clone(), false, true));
    assert_eq!(
        root,
        Err(ActivateError::Fatal(FatalError::MissingDependency {
            package_id: id("a", 1, 0),
            dep_name: "ghost".to_string(),
        }))
    );
    // Only the root is held to this.
    let inner = resolve_features(Some(id("p", 1, 0)), &a, &cli(ask, false, true)).unwrap();
    assert_eq!(emitted(&inner), vec![("b".to_string(), names(&["fast"]))]);
}

#[test]
fn an_unknown_dependency_of_another_package_is_a_conflict() {
    let a = Summary::new(id("a", 1, 0), vec![], vec![], None);
    let e = RequirementError::MissingDependency("ghost".to_string());
    assert_eq!(
        e.into_activate_error(Some(id("p", 1, 0)), &a),
        ActivateError::Conflict(id("p", 1, 0), ConflictReason::MissingFeatures("ghost".to_string()))
    );
    let e = RequirementError::Cycle("f".to_string());
    assert_eq!(
        e.into_activate_error(Some(id("p", 1, 0)), &a),
        ActivateError::Fatal(FatalError::FeatureCycle { feature: "f".to_string() })
    );
}

#[test]
fn all_features_takes_every_entry_of_the_table() {
    let a = Summary::new(
        id("a", 1, 0),
        vec![dep("x").set_optional(true), dep("y").set_optional(true)],
        table(vec![
            ("one", vec![FeatureValue::dep("x")]),
            ("two", vec![FeatureValue::feature("one"), FeatureValue::dep_feature("y", "z", false)]),
        ]),
        None,
    );
    let out = resolve_features(None, &a, &cli(vec![], true, true)).unwrap();
    assert_eq!(out.0, names(&["one", "two"]));
    assert_eq!(
        emitted(&out),
        vec![("x".to_string(), names(&[])), ("y".to_string(), names(&["z"]))]
    );
}

#[test]
fn a_feature_of_an_optional_dependency_turns_on_the_feature_of_its_name() {
    let a = Summary::new(
        id("a", 1, 0),
        vec![dep("x").set_optional(true)],
        table(vec![
            ("x", vec![FeatureValue::dep("x"), FeatureValue::feature("more")]),
            ("more", vec![]),
            ("strong", vec![FeatureValue::dep_feature("x", "fast", false)]),
            ("weak", vec![FeatureValue::dep_feature("x", "slow", true)]),
        ]),
        None,
    );
    let strong = resolve_features(None, &a, &cli(vec![FeatureValue::feature("strong")], false, true)).unwrap();
    assert_eq!(strong.0, names(&["strong", "x", "more"]));
    assert_eq!(emitted(&strong), vec![("x".to_string(), names(&["fast"]))]);
    let weak = resolve_features(None, &a, &cli(vec![FeatureValue::feature("weak")], false, true)).unwrap();
    assert_eq!(weak.0, names(&["weak"]));
    assert_eq!(emitted(&weak), vec![("x".to_string(), names(&["slow"]))]);
}

#[test]
fn the_features_of_a_dependency_come_from_the_table_and_from_its_declaration() {
    let b = dep("b").set_features(names(&["serde", "std", "serde"]));
    let a = Summary::new(
        id("a", 1, 0),
        vec![b],
        table(vec![(
            "net",
            vec![
                FeatureValue::dep_feature("b", "tls", false),
                FeatureValue::dep_feature("b", "std", false),
                FeatureValue::dep_feature("b", "tls", false),
            ],
        )]),
        None,
    );
    let out = resolve_features(None, &a, &cli(vec![FeatureValue::feature("net")], false, true)).unwrap();
    assert_eq!(emitted(&out), vec![("b".to_string(), names(&["tls", "std", "serde"]))]);
}

#[test]
fn development_dependencies_count_only_where_asked_for() {
    let a = Summary::new(
        id("a", 1, 0),
        vec![dep("b"), dep("t").set_kind(DepKind::Development), dep("c").set_kind(DepKind::Build)],
        vec![],
        None,
    );
    let plain = resolve_features(None, &a, &cli(vec![], false, true)).unwrap();
    assert_eq!(
        emitted(&plain),
        vec![("b".to_string(), names(&[])), ("c".to_string(), names(&[]))]
    );
    let opts = ResolveOpts::new(
        true,
        RequestedFeatures::CliFeatures(CliFeatures {
            features: vec![],
            all_features: false,
            uses_default_features: true,
        }),
    );
    let dev = resolve_features(None, &a, &opts).unwrap();
    assert_eq!(
        emitted(&dev),
        vec![
            ("b".to_string(), names(&[])),
            ("t".to_string(), names(&[])),
            ("c".to_string(), names(&[]))
        ]
    );
}

#[test]
fn a_dependency_is_found_under_the_name_of_its_declaration() {
    let renamed = dep("real").set_name_in_toml("alias").set_optional(true);
    let a = Summary::new(
        id("a", 1, 0),
        vec![renamed],
        table(vec![("on", vec![FeatureValue::dep("alias")])]),
        None,
    );
    let out = resolve_features(None, &a, &cli(vec![FeatureValue::feature("on")], false, true)).unwrap();
    assert_eq!(emitted(&out), vec![("alias".to_string(), names(&[]))]);
    assert_eq!(out.1[0].0.package_name, "real");
}

#[test]
fn requirements_note_features_and_dependencies_in_the_order_of_the_walk() {
    let a = Summary::new(
        id("a", 1, 0),
        vec![dep("x").set_optional(true)],
        table(vec![
            ("top", vec![FeatureValue::feature("mid"), FeatureValue::dep("x")]),
            ("mid", vec![FeatureValue::dep_feature("y", "f", true)]),
        ]),
        None,
    );
    let mut reqs = Requirements::new(&a);
    assert_eq!(reqs.require_feature("top".to_string()), Ok(()));
    assert_eq!(reqs.features, names(&["top", "mid"]));
    assert_eq!(
        reqs.deps,
        vec![("y".to_string(), names(&["f"])), ("x".to_string(), names(&[]))]
    );
    // A feature seen before is passed over.
    assert_eq!(reqs.require_feature("mid".to_string()), Ok(()));
    assert_eq!(reqs.features, names(&["top", "mid"]));
    assert_eq!(
        reqs.require_value(&FeatureValue::feature("none")),
        Err(RequirementError::MissingFeature("none".to_string()))
    );
    reqs.require_dependency("x".to_string());
    assert_eq!(reqs.require_dep_feature("x".to_string(), "g".to_string(), true), Ok(()));
    assert_eq!(
        reqs.deps,
        vec![("y".to_string(), names(&["f"])), ("x".to_string(), names(&["g"]))]
    );
    assert_eq!(reqs.into_features(), names(&["top", "mid", "none"]));
}

#[test]
fn build_requirements_reports_failures_as_the_resolver_sees_them() {
    let a = Summary::new(
        id("a", 1, 0),
        vec![],
        table(vec![("default", vec![FeatureValue::feature("gone")])]),
        None,
    );
    let r = build_requirements(Some(id("p", 1, 0)), &a, &from_dep(&[], true));
    assert_eq!(
        r.err(),
        Some(ActivateError::Conflict(
            id("p", 1, 0),
            ConflictReason::MissingFeatures("gone".to_string())
        ))
    );
    let ok = build_requirements(None, &a, &from_dep(&[], false)).unwrap();
    assert_eq!(ok.features, names(&[]));
}

#[test]
fn a_failure_leaves_the_requirements_where_the_walk_stopped() {
    let a = Summary::new(
        id("a", 1, 0),
        vec![],
        table(vec![(
            "top",
            vec![FeatureValue::dep("x"), FeatureValue::feature("gone"), FeatureValue::dep("y")],
        )]),
        None,
    );
    let mut reqs = Requirements::new(&a);
    reqs.require_dependency("w".to_string());
    // A feature that the package does not have is noted, and nothing else.
    assert_eq!(
        reqs.require_feature("nope".to_string()),
        Err(RequirementError::MissingFeature("nope".to_string()))
    );
    assert_eq!(reqs.features, names(&["nope"]));
    assert_eq!(reqs.deps, vec![("w".to_string(), names(&[]))]);
    // What came before the failure stays; what comes after it is not reached.
    assert_eq!(
        reqs.require_feature("top".to_string()),
        Err(RequirementError::MissingFeature("gone".to_string()))
    );
    assert_eq!(reqs.features, names(&["nope", "top", "gone"]));
    assert_eq!(
        reqs.deps,
        vec![("w".to_string(), names(&[])), ("x".to_string(), names(&[]))]
    );
}

#[test]
fn no_name_is_noted_twice() {
    let b = dep("b").set_features(names(&["std", "std", "tls"]));
    let a = Summary::new(
        id("a", 1, 0),
        vec![b],
        table(vec![
            ("one", vec![FeatureValue::feature("two"), FeatureValue::dep_feature("b", "tls", false)]),
            ("two", vec![FeatureValue::feature("one"), FeatureValue::dep_feature("b", "tls", false)]),
        ]),
        None,
    );
    let ask = vec![FeatureValue::feature("one"), FeatureValue::feature("two"), FeatureValue::feature("one")];
    let out = resolve_features(None, &a, &cli(ask, true, true)).unwrap();
    assert_eq!(out.0, names(&["one", "two"]));
    assert_eq!(emitted(&out), vec![("b".to_string(), names(&["tls", "std"]))]);
}
