use resolver_cache::dependency::Dependency;
use resolver_cache::errors::{ActivateError, FatalError, QueryError, RegistryError};
use resolver_cache::options::{CliFeatures, RequestedFeatures, ResolveOpts};
use resolver_cache::package::{PackageId, PackageIdSpec, PartialVersion, SourceId, Version};
use resolver_cache::queryer::RegistryQueryer;
use resolver_cache::registry::{Context, Poll, QueryKind, Registry};
use resolver_cache::summary::{FeatureValue, Summary};
use resolver_cache::version_prefs::VersionPreferences;
use std::rc::Rc;

/// A registry that answers from a script: for each package name the
/// answers to give in turn, the last one again and again.
struct Scripted {
    script: Vec<(String, Vec<Poll<Result<Vec<Summary>, RegistryError>>>)>,
    asked: Vec<String>,
}

impl Scripted {
    fn new() -> Scripted {
        Scripted { script: Vec::new(), asked: Vec::new() }
    }

    fn then(mut self, name: &str, answer: Poll<Result<Vec<Summary>, RegistryError>>) -> Scripted {
        match self.script.iter_mut().find(|(n, _)| n == name) {
            Some(entry) => entry.1.push(answer),
            None => self.script.push((name.to_string(), vec![answer])),
        }
        self
    }

    fn times_asked(&self, name: &str) -> usize {
        self.asked.iter().filter(|n| n.as_str() == name).count()
    }
}

impl Registry for Scripted {
    fn query_vec(
        &mut self,
        dep: &Dependency,
        kind: QueryKind,
    ) -> Poll<Result<Vec<Summary>, RegistryError>> {
        assert_eq!(kind, QueryKind::Exact);
        let key = format!("{}@{}", dep.package_name, dep.source_id.url);
        self.asked.push(key.clone());
        let entry = self.script.iter_mut().find(|(n, _)| *n == key);
        match entry {
            None => Poll::Ready(Ok(Vec::new())),
            Some(entry) => {
                if entry.1.len() > 1 {
                    entry.1.remove(0)
                } else {
                    entry.1[0].clone()
                }
            }
        }
    }
}

/// A context in which every package was asked for by the root.
struct Trail;

impl Context for Trail {
    fn describe_path(&self, id: &PackageId) -> String {
        format!("package `{} v{}.{}.{}`", id.name, id.version.major, id.version.minor, id.version.patch)
    }
}

fn id_from(name: &str, major: u64, minor: u64, source: &str) -> PackageId {
    PackageId::new(name, Version::new(major, minor, 0), SourceId::new(source))
}

fn id(name: &str, major: u64, minor: u64) -> PackageId {
    id_from(name, major, minor, "registry")
}

fn pkg(name: &str, major: u64, minor: u64) -> Summary {
    Summary::new(id(name, major, minor), vec![], vec![], None)
}

fn pkg_from(name: &str, major: u64, minor: u64, source: &str) -> Summary {
    Summary::new(id_from(name, major, minor, source), vec![], vec![], None)
}

fn dep(name: &str) -> Dependency {
    Dependency::new(name, "^1", SourceId::new("registry"))
}

fn ready(list: Vec<Summary>) -> Poll<Result<Vec<Summary>, RegistryError>> {
    Poll::Ready(Ok(list))
}

fn root_opts(features: Vec<FeatureValue>) -> ResolveOpts {
    ResolveOpts::new(
        false,
        RequestedFeatures::CliFeatures(CliFeatures {
            features,
            all_features: false,
            uses_default_features: true,
        }),
    )
}

fn versions(list: &[Summary]) -> Vec<(u64, u64)> {
    list.iter().map(|s| (s.package_id.version.major, s.package_id.version.minor)).collect()
}

fn lists(q: Poll<Result<Rc<Vec<Summary>>, QueryError>>) -> Rc<Vec<Summary>> {
    match q {
        Poll::Ready(Ok(list)) => list,
        other => panic!("no list: {:?}", other),
    }
}

/// An override of `name` at the given version by the package of that
/// name and version at the source `to`.
fn rule(name: &str, major: u64, minor: u64, to: &str) -> (PackageIdSpec, Dependency) {
    (
        PackageIdSpec::new(name, Some(Version::new(major, minor, 0)), None),
        Dependency::new(name, "=exact", SourceId::new(to)),
    )
}

#[test]
fn simple_resolution() {
    let a = Summary::new(id("a", 1, 0), vec![dep("b")], vec![], None);
    let registry = Scripted::new().then("b@registry", ready(vec![pkg("b", 1, 0), pkg("b", 1, 2)]));
    let prefs = VersionPreferences::new();
    let mut q = RegistryQueryer::new(registry, &[], &prefs, false, None);
    let out = q.build_deps(&Trail, None, &a, &root_opts(vec![]), false).unwrap();
    assert_eq!(out.0, Vec::<String>::new());
    assert_eq!(out.1.len(), 1);
    assert_eq!(out.1[0].0, dep("b"));
    assert_eq!(*out.1[0].1, vec![pkg("b", 1, 2), pkg("b", 1, 0)]);
    assert_eq!(*out.1[0].2, Vec::<String>::new());
    assert!(q.reset_pending());
}

#[test]
fn minimal_versions() {
    let a = Summary::new(id("a", 1, 0), vec![dep("b")], vec![], None);
    let registry = Scripted::new().then("b@registry", ready(vec![pkg("b", 1, 2), pkg("b", 1, 0)]));
    let prefs = VersionPreferences::new();
    let mut q = RegistryQueryer::new(registry, &[], &prefs, false, None);
    let out = q.build_deps(&Trail, None, &a, &root_opts(vec![]), true).unwrap();
    assert_eq!(*out.1[0].1, vec![pkg("b", 1, 0), pkg("b", 1, 2)]);
}

#[test]
fn the_session_may_ask_for_least_versions_throughout() {
    let registry = Scripted::new().then(
        "b@registry",
        ready(vec![pkg("b", 1, 2), pkg("b", 1, 0), pkg("b", 2, 0), pkg("b", 1, 1)]),
    );
    let prefs = VersionPreferences::new();
    let mut q = RegistryQueryer::new(registry, &[], &prefs, true, None);
    let list = lists(q.query(&dep("b"), false));
    assert_eq!(versions(&list), vec![(1, 0), (1, 1), (1, 2), (2, 0)]);
}

#[test]
fn the_two_orderings_are_the_reverse_of_each_other() {
    let answer = vec![pkg("b", 1, 2), pkg("b", 1, 0), pkg("b", 2, 0), pkg("b", 1, 1)];
    let registry = Scripted::new().then("b@registry", ready(answer));
    let prefs = VersionPreferences::new();
    let mut q = RegistryQueryer::new(registry, &[], &prefs, false, None);
    let greatest = lists(q.query(&dep("b"), false));
    let least = lists(q.query(&dep("b"), true));
    assert_eq!(versions(&greatest), vec![(2, 0), (1, 2), (1, 1), (1, 0)]);
    let mut back = (*least).clone();
    back.reverse();
    assert_eq!(back, *greatest);
    // The two lists are two entries of the cache.
    assert_eq!(q.registry.times_asked("b@registry"), 2);
}

#[test]
fn preferred_candidates_come_first_in_either_ordering() {
    let answer = vec![pkg("b", 1, 0), pkg("b", 1, 1), pkg("b", 1, 2), pkg("b", 1, 3)];
    let mut prefs = VersionPreferences::new();
    prefs.prefer_package_id(id("b", 1, 1));
    prefs.prefer_package_id(id("b", 1, 2));
    assert!(prefs.prefers(&id("b", 1, 1)));
    assert!(!prefs.prefers(&id("b", 1, 3)));
    let registry = Scripted::new().then("b@registry", ready(answer));
    let mut q = RegistryQueryer::new(registry, &[], &prefs, false, None);
    assert_eq!(versions(&lists(q.query(&dep("b"), false))), vec![(1, 2), (1, 1), (1, 3), (1, 0)]);
    assert_eq!(versions(&lists(q.query(&dep("b"), true))), vec![(1, 1), (1, 2), (1, 0), (1, 3)]);
}

#[test]
fn a_list_is_handed_out_again_without_asking_the_registry() {
    let registry = Scripted::new()
        .then("b@registry", ready(vec![pkg("b", 1, 0)]))
        .then("b@registry", ready(vec![pkg("b", 9, 9)]));
    let prefs = VersionPreferences::new();
    let mut q = RegistryQueryer::new(registry, &[], &prefs, false, None);
    let first = lists(q.query(&dep("b"), false));
    let second = lists(q.query(&dep("b"), false));
    assert!(Rc::ptr_eq(&first, &second));
    assert_eq!(*second, vec![pkg("b", 1, 0)]);
    assert_eq!(q.registry.times_asked("b@registry"), 1);
    // Another requirement is another dependency.
    let other = Dependency::new("b", "^2", SourceId::new("registry"));
    assert_eq!(*lists(q.query(&other, false)), vec![pkg("b", 9, 9)]);
}

#[test]
fn candidates_that_need_a_newer_toolchain_are_dropped() {
    let with = |minor: u64, needs: Option<PartialVersion>| {
        Summary::new(id("b", 1, minor), vec![], vec![], needs)
    };
    let answer = vec![
        with(0, None),
        with(1, Some(PartialVersion::new(1, Some(60), None))),
        with(2, Some(PartialVersion::new(1, Some(70), None))),
        with(3, Some(PartialVersion::new(1, Some(70), Some(1)))),
        with(4, Some(PartialVersion::new(1, Some(80), None))),
    ];
    let prefs = VersionPreferences::new();
    let registry = Scripted::new().then("b@registry", ready(answer.clone()));
    let limit = Some(PartialVersion::new(1, Some(70), None));
    let mut q = RegistryQueryer::new(registry, &[], &prefs, false, limit);
    assert_eq!(versions(&lists(q.query(&dep("b"), false))), vec![(1, 2), (1, 1), (1, 0)]);
    let registry = Scripted::new().then("b@registry", ready(answer));
    let mut q = RegistryQueryer::new(registry, &[], &prefs, false, None);
    assert_eq!(lists(q.query(&dep("b"), false)).len(), 5);
}

#[test]
fn an_override_is_recorded_and_the_list_is_left_as_it_is() {
    let rules = vec![rule("foo", 1, 0, "fork")];
    let registry = Scripted::new()
        .then("foo@registry", ready(vec![pkg("foo", 1, 0), pkg("foo", 1, 1)]))
        .then("foo@fork", ready(vec![pkg_from("foo", 1, 0, "fork")]));
    let prefs = VersionPreferences::new();
    let mut q = RegistryQueryer::new(registry, &rules, &prefs, false, None);
    let list = lists(q.query(&dep("foo"), false));
    assert_eq!(*list, vec![pkg("foo", 1, 1), pkg("foo", 1, 0)]);
    assert_eq!(
        q.used_replacement_for(id("foo", 1, 0)),
        Some((id("foo", 1, 0), id_from("foo", 1, 0, "fork")))
    );
    assert_eq!(q.replacement_summary(id("foo", 1, 0)), Some(&pkg_from("foo", 1, 0, "fork")));
    assert_eq!(q.used_replacement_for(id("foo", 1, 1)), None);
    assert_eq!(q.replacement_summary(id("foo", 1, 1)), None);
    assert_eq!(q.registry.times_asked("foo@fork"), 1);
}

#[test]
fn an_override_by_the_same_source_replaces_nothing() {
    let rules = vec![rule("foo", 1, 0, "registry")];
    let registry =
        Scripted::new().then("foo@registry", ready(vec![pkg("foo", 1, 0)]));
    let prefs = VersionPreferences::new();
    let mut q = RegistryQueryer::new(registry, &rules, &prefs, false, None);
    assert_eq!(*lists(q.query(&dep("foo"), false)), vec![pkg("foo", 1, 0)]);
    assert_eq!(q.used_replacement_for(id("foo", 1, 0)), None);
}

#[test]
fn overlapping_overrides() {
    let rules = vec![
        rule("bar", 1, 0, "fork"),
        rule("foo", 1, 0, "fork"),
        (PackageIdSpec::new("foo", None, None), Dependency::new("foo", "=exact", SourceId::new("other"))),
    ];
    let registry = Scripted::new()
        .then("foo@registry", ready(vec![pkg("foo", 1, 0)]))
        .then("foo@fork", ready(vec![pkg_from("foo", 1, 0, "fork")]));
    let prefs = VersionPreferences::new();
    let mut q = RegistryQueryer::new(registry, &rules, &prefs, false, None);
    let r = q.query(&dep("foo"), false);
    assert_eq!(
        r,
        Poll::Ready(Err(QueryError::OverlappingOverrides {
            first: PackageIdSpec::new("foo", Some(Version::new(1, 0, 0)), None),
            second: PackageIdSpec::new("foo", None, None),
            package_id: id("foo", 1, 0),
        }))
    );
    // The failure is not stored: the registry is asked again.
    let again = q.query(&dep("foo"), false);
    assert!(matches!(again, Poll::Ready(Err(QueryError::OverlappingOverrides { .. }))));
    assert_eq!(q.registry.times_asked("foo@registry"), 2);
    assert!(q.reset_pending());
}

#[test]
fn an_override_that_the_registry_does_not_have_is_an_error() {
    let rules = vec![rule("foo", 1, 0, "fork")];
    let registry = Scripted::new().then("foo@registry", ready(vec![pkg("foo", 1, 0)]));
    let prefs = VersionPreferences::new();
    let mut q = RegistryQueryer::new(registry, &rules, &prefs, false, None);
    assert_eq!(
        q.query(&dep("foo"), false),
        Poll::Ready(Err(QueryError::NoMatchingOverride {
            spec: PackageIdSpec::new("foo", Some(Version::new(1, 0, 0)), None),
            source_id: SourceId::new("fork"),
            version_req: "=exact".to_string(),
        }))
    );
}

#[test]
fn an_override_that_the_registry_has_twice_is_an_error() {
    let rules = vec![rule("foo", 1, 0, "fork")];
    let registry = Scripted::new()
        .then("foo@registry", ready(vec![pkg("foo", 1, 0)]))
        .then("foo@fork", ready(vec![pkg_from("foo", 1, 0, "fork"), pkg_from("foo", 1, 0, "fork2")]));
    let prefs = VersionPreferences::new();
    let mut q = RegistryQueryer::new(registry, &rules, &prefs, false, None);
    assert_eq!(
        q.query(&dep("foo"), false),
        Poll::Ready(Err(QueryError::MultipleOverrideMatches {
            spec: PackageIdSpec::new("foo", Some(Version::new(1, 0, 0)), None),
            matches: vec![id_from("foo", 1, 0, "fork"), id_from("foo", 1, 0, "fork2")],
        }))
    );
}

#[test]
fn a_replacement_of_another_version_is_an_error() {
    let rules = vec![rule("foo", 1, 0, "fork")];
    let registry = Scripted::new()
        .then("foo@registry", ready(vec![pkg("foo", 1, 0)]))
        .then("foo@fork", ready(vec![pkg_from("foo", 1, 5, "fork")]));
    let prefs = VersionPreferences::new();
    let mut q = RegistryQueryer::new(registry, &rules, &prefs, false, None);
    assert_eq!(
        q.query(&dep("foo"), false),
        Poll::Ready(Err(QueryError::ReplacementMismatch {
            spec: PackageIdSpec::new("foo", Some(Version::new(1, 0, 0)), None),
            package_id: id("foo", 1, 0),
            replacement: id_from("foo", 1, 5, "fork"),
        }))
    );
    assert_eq!(q.used_replacement_for(id("foo", 1, 0)), None);
}

#[test]
fn a_failure_of_the_registry_is_reported_and_not_stored() {
    let registry = Scripted::new()
        .then("b@registry", Poll::Ready(Err(RegistryError::new("offline"))))
        .then("b@registry", ready(vec![pkg("b", 1, 0)]));
    let prefs = VersionPreferences::new();
    let mut q = RegistryQueryer::new(registry, &[], &prefs, false, None);
    assert_eq!(
        q.query(&dep("b"), false),
        Poll::Ready(Err(QueryError::Registry(RegistryError::new("offline"))))
    );
    assert!(q.reset_pending());
    assert_eq!(*lists(q.query(&dep("b"), false)), vec![pkg("b", 1, 0)]);
}

#[test]
fn a_failed_query_names_the_dependency_and_the_candidate() {
    let a = Summary::new(id("a", 1, 0), vec![dep("b")], vec![], None);
    let registry =
        Scripted::new().then("b@registry", Poll::Ready(Err(RegistryError::new("offline"))));
    let prefs = VersionPreferences::new();
    let mut q = RegistryQueryer::new(registry, &[], &prefs, false, None);
    let r = q.build_deps(&Trail, None, &a, &root_opts(vec![]), false);
    assert_eq!(
        r.err(),
        Some(ActivateError::Fatal(FatalError::DependencyQuery {
            dep_name: "b".to_string(),
            package_id: id("a", 1, 0),
            path: "package `a v1.0.0`".to_string(),
            cause: QueryError::Registry(RegistryError::new("offline")),
        }))
    );
    // Nothing was stored for the candidate.
    assert!(q.reset_pending());
    assert_eq!(q.build_deps(&Trail, None, &a, &root_opts(vec![]), false).is_err(), true);
    assert_eq!(q.registry.times_asked("b@registry"), 2);
}

#[test]
fn a_failed_expansion_does_not_reach_the_registry() {
    let a = Summary::new(id("a", 1, 0), vec![dep("b")], vec![], None);
    let prefs = VersionPreferences::new();
    let mut q = RegistryQueryer::new(Scripted::new(), &[], &prefs, false, None);
    let r = q.build_deps(&Trail, None, &a, &root_opts(vec![FeatureValue::feature("nope")]), false);
    assert_eq!(
        r.err(),
        Some(ActivateError::Fatal(FatalError::MissingFeature {
            package_id: id("a", 1, 0),
            feature: "nope".to_string(),
        }))
    );
    assert_eq!(q.registry.asked.len(), 0);
}

#[test]
fn pending_then_ready() {
    let a = Summary::new(id("a", 1, 0), vec![dep("b"), dep("c")], vec![], None);
    let registry = Scripted::new()
        .then("b@registry", Poll::Pending)
        .then("b@registry", ready(vec![pkg("b", 1, 0), pkg("b", 1, 1)]))
        .then("c@registry", ready(vec![pkg("c", 1, 0)]));
    let prefs = VersionPreferences::new();
    let mut q = RegistryQueryer::new(registry, &[], &prefs, false, None);

    let first = q.build_deps(&Trail, None, &a, &root_opts(vec![]), false).unwrap();
    assert_eq!(first.1.len(), 1);
    assert_eq!(first.1[0].0, dep("c"));
    // The partial result is what the cache hands out until it is reset.
    assert_eq!(q.query(&dep("b"), false), Poll::Pending);
    let same = q.build_deps(&Trail, None, &a, &root_opts(vec![]), false).unwrap();
    assert!(Rc::ptr_eq(&first, &same));
    assert_eq!(q.registry.times_asked("b@registry"), 1);

    assert!(!q.reset_pending());
    let second = q.build_deps(&Trail, None, &a, &root_opts(vec![]), false).unwrap();
    assert_eq!(second.1.len(), 2);
    assert_eq!(second.1[0].0, dep("c"));
    assert_eq!(second.1[1].0, dep("b"));
    assert_eq!(*second.1[1].1, vec![pkg("b", 1, 1), pkg("b", 1, 0)]);
    assert_eq!(q.registry.times_asked("b@registry"), 2);
    assert_eq!(q.registry.times_asked("c@registry"), 1);
    assert!(q.reset_pending());
    // A settled cache is left as it is.
    let third = q.build_deps(&Trail, None, &a, &root_opts(vec![]), false).unwrap();
    assert!(Rc::ptr_eq(&second, &third));
}

#[test]
fn a_pending_override_is_stored_for_the_dependency_asked_for() {
    let rules = vec![rule("foo", 1, 0, "fork")];
    let registry = Scripted::new()
        .then("foo@registry", ready(vec![pkg("foo", 1, 0)]))
        .then("foo@fork", Poll::Pending)
        .then("foo@fork", ready(vec![pkg_from("foo", 1, 0, "fork")]));
    let prefs = VersionPreferences::new();
    let mut q = RegistryQueryer::new(registry, &rules, &prefs, false, None);
    assert_eq!(q.query(&dep("foo"), false), Poll::Pending);
    assert_eq!(q.used_replacement_for(id("foo", 1, 0)), None);
    // The pending answer is on record for the dependency asked for: the
    // registry is not asked again before the reset.
    assert_eq!(q.query(&dep("foo"), false), Poll::Pending);
    assert_eq!(q.registry.times_asked("foo@registry"), 1);
    assert_eq!(q.registry.times_asked("foo@fork"), 1);
    // Nothing is on record for the dependency of the rule: the registry is
    // asked for it, and once more because the rule matches what it offers.
    assert_eq!(*lists(q.query(&rules[0].1, false)), vec![pkg_from("foo", 1, 0, "fork")]);
    assert_eq!(q.registry.times_asked("foo@fork"), 3);
    assert_eq!(q.used_replacement_for(id_from("foo", 1, 0, "fork")), None);
    assert!(!q.reset_pending());
    assert!(q.reset_pending());
    assert_eq!(*lists(q.query(&dep("foo"), false)), vec![pkg("foo", 1, 0)]);
    assert_eq!(q.registry.times_asked("foo@registry"), 2);
    assert_eq!(
        q.used_replacement_for(id("foo", 1, 0)),
        Some((id("foo", 1, 0), id_from("foo", 1, 0, "fork")))
    );
    assert!(q.reset_pending());
}

#[test]
fn a_dependency_with_a_pending_override_is_left_out() {
    let rules = vec![rule("b", 1, 0, "fork")];
    let a = Summary::new(id("a", 1, 0), vec![dep("b"), dep("c")], vec![], None);
    let registry = Scripted::new()
        .then("b@registry", ready(vec![pkg("b", 1, 0)]))
        .then("b@fork", Poll::Pending)
        .then("b@fork", ready(vec![pkg_from("b", 1, 0, "fork")]))
        .then("c@registry", ready(vec![pkg("c", 1, 0)]));
    let prefs = VersionPreferences::new();
    let mut q = RegistryQueryer::new(registry, &rules, &prefs, false, None);
    let first = q.build_deps(&Trail, None, &a, &root_opts(vec![]), false).unwrap();
    assert_eq!(first.1.len(), 1);
    assert_eq!(first.1[0].0, dep("c"));
    assert!(!q.reset_pending());
    let second = q.build_deps(&Trail, None, &a, &root_opts(vec![]), false).unwrap();
    assert_eq!(second.1.len(), 2);
    assert!(q.reset_pending());
}

#[test]
fn a_dependency_declared_twice_is_listed_twice() {
    let a = Summary::new(
        id("a", 1, 0),
        vec![dep("b"), dep("c"), dep("b")],
        vec![],
        None,
    );
    let registry = Scripted::new()
        .then("b@registry", ready(vec![pkg("b", 1, 0)]))
        .then("c@registry", Poll::Pending);
    let prefs = VersionPreferences::new();
    let mut q = RegistryQueryer::new(registry, &[], &prefs, false, None);
    let out = q.build_deps(&Trail, None, &a, &root_opts(vec![]), false).unwrap();
    assert_eq!(out.1.len(), 2);
    assert_eq!(out.1[0].0, dep("b"));
    assert_eq!(out.1[1].0, dep("b"));
    assert!(Rc::ptr_eq(&out.1[0].1, &out.1[1].1));
    assert_eq!(q.registry.times_asked("b@registry"), 1);
    assert!(!q.reset_pending());
}

#[test]
fn the_failing_dependency_is_the_one_named() {
    let a = Summary::new(id("a", 1, 0), vec![dep("b"), dep("c"), dep("d")], vec![], None);
    let registry = Scripted::new()
        .then("b@registry", ready(vec![pkg("b", 1, 0)]))
        .then("c@registry", Poll::Ready(Err(RegistryError::new("no c"))))
        .then("d@registry", Poll::Ready(Err(RegistryError::new("no d"))));
    let prefs = VersionPreferences::new();
    let mut q = RegistryQueryer::new(registry, &[], &prefs, false, None);
    let r = q.build_deps(&Trail, None, &a, &root_opts(vec![]), false);
    assert_eq!(
        r.err(),
        Some(ActivateError::Fatal(FatalError::DependencyQuery {
            dep_name: "c".to_string(),
            package_id: id("a", 1, 0),
            path: "package `a v1.0.0`".to_string(),
            cause: QueryError::Registry(RegistryError::new("no c")),
        }))
    );
    // The answer that came before the failure is kept.
    assert_eq!(q.registry.times_asked("d@registry"), 0);
    assert_eq!(*lists(q.query(&dep("b"), false)), vec![pkg("b", 1, 0)]);
    assert_eq!(q.registry.times_asked("b@registry"), 1);
}

#[test]
fn a_replacement_is_recorded_in_place_of_an_earlier_one() {
    let prefs = VersionPreferences::new();
    let mut q = RegistryQueryer::new(Scripted::new(), &[], &prefs, false, None);
    q.record_replacement(id("foo", 1, 0), pkg_from("foo", 1, 0, "fork"));
    q.record_replacement(id("bar", 1, 0), pkg_from("bar", 1, 0, "fork"));
    q.record_replacement(id("foo", 1, 0), pkg_from("foo", 1, 0, "other"));
    assert_eq!(q.replacement_summary(id("foo", 1, 0)), Some(&pkg_from("foo", 1, 0, "other")));
    assert_eq!(q.replacement_summary(id("bar", 1, 0)), Some(&pkg_from("bar", 1, 0, "fork")));
    assert_eq!(q.replacement_summary(id("baz", 1, 0)), None);
}

#[test]
fn settling_an_override_records_what_comes_out_of_it() {
    let rules = vec![rule("foo", 1, 0, "fork"), rule("bar", 1, 0, "fork")];
    let prefs = VersionPreferences::new();
    let mut q = RegistryQueryer::new(Scripted::new(), &rules, &prefs, false, None);
    assert_eq!(q.settle_override(&pkg("bar", 1, 0), 1, vec![pkg_from("bar", 1, 0, "fork")]), Ok(()));
    assert_eq!(q.replacement_summary(id("bar", 1, 0)), Some(&pkg_from("bar", 1, 0, "fork")));
    assert_eq!(q.settle_override(&pkg("foo", 1, 0), 0, vec![pkg("foo", 1, 0)]), Ok(()));
    assert_eq!(q.replacement_summary(id("foo", 1, 0)), None);
    assert!(matches!(
        q.settle_override(&pkg("foo", 1, 0), 0, vec![]),
        Err(QueryError::NoMatchingOverride { .. })
    ));
    assert!(matches!(
        q.settle_override(&pkg("foo", 1, 0), 0, vec![pkg_from("foo", 1, 1, "fork")]),
        Err(QueryError::ReplacementMismatch { .. })
    ));
    assert_eq!(q.replacement_summary(id("foo", 1, 0)), None);
}

#[test]
fn dependencies_with_fewer_candidates_come_first() {
    let a = Summary::new(
        id("a", 1, 0),
        vec![dep("three"), dep("one"), dep("none"), dep("uno"), dep("two")],
        vec![],
        None,
    );
    let registry = Scripted::new()
        .then("three@registry", ready(vec![pkg("three", 1, 0), pkg("three", 1, 1), pkg("three", 1, 2)]))
        .then("one@registry", ready(vec![pkg("one", 1, 0)]))
        .then("uno@registry", ready(vec![pkg("uno", 1, 0)]))
        .then("two@registry", ready(vec![pkg("two", 1, 0), pkg("two", 1, 1)]));
    let prefs = VersionPreferences::new();
    let mut q = RegistryQueryer::new(registry, &[], &prefs, false, None);
    let out = q.build_deps(&Trail, None, &a, &root_opts(vec![]), false).unwrap();
    let order: Vec<(String, usize)> =
        out.1.iter().map(|d| (d.0.package_name.clone(), d.1.len())).collect();
    assert_eq!(
        order,
        vec![
            ("none".to_string(), 0),
            ("one".to_string(), 1),
            ("uno".to_string(), 1),
            ("two".to_string(), 2),
            ("three".to_string(), 3)
        ]
    );
}

#[test]
fn expansions_are_kept_apart_by_parent_candidate_and_request() {
    let a = Summary::new(
        id("a", 1, 0),
        vec![dep("b"), dep("x").set_optional(true)],
        vec![("x".to_string(), vec![FeatureValue::dep("x")])],
        None,
    );
    let registry = Scripted::new()
        .then("b@registry", ready(vec![pkg("b", 1, 0)]))
        .then("x@registry", ready(vec![pkg("x", 1, 0), pkg("x", 1, 1)]));
    let prefs = VersionPreferences::new();
    let mut q = RegistryQueryer::new(registry, &[], &prefs, false, None);
    let plain = q.build_deps(&Trail, None, &a, &root_opts(vec![]), false).unwrap();
    let with_x = q.build_deps(&Trail, None, &a, &root_opts(vec![FeatureValue::feature("x")]), false).unwrap();
    assert_eq!(plain.1.len(), 1);
    assert_eq!(with_x.1.len(), 2);
    assert_eq!(with_x.0, vec!["x".to_string()]);
    let under = q.build_deps(&Trail, Some(id("p", 1, 0)), &a, &root_opts(vec![]), false).unwrap();
    assert!(!Rc::ptr_eq(&plain, &under));
    assert_eq!(*plain, *under);
    let again = q.build_deps(&Trail, None, &a, &root_opts(vec![]), false).unwrap();
    assert!(Rc::ptr_eq(&plain, &again));
    // Each dependency was asked of the registry once.
    assert_eq!(q.registry.times_asked("b@registry"), 1);
    assert_eq!(q.registry.times_asked("x@registry"), 1);
}
