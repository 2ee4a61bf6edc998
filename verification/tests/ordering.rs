use resolver_cache::dependency::Dependency;
use resolver_cache::errors::{ActivateError, FatalError, QueryError, RegistryError};
use resolver_cache::expansion::{candidate_count, failed_query, order_deps, take_answer, DepInfo};
use resolver_cache::package::{PackageId, SourceId, Version};
use resolver_cache::registry::Poll;
use resolver_cache::summary::Summary;
use resolver_cache::version_prefs::{choose_ordering, VersionOrdering, VersionPreferences};
use std::rc::Rc;

fn tagged(name: &str, major: u64, minor: u64, tag: &str) -> Summary {
    let id = PackageId::new(name, Version::new(major, minor, 0), SourceId::new("registry"));
    Summary::new(id, vec![], vec![(tag.to_string(), vec![])], None)
}

fn tags(list: &[Summary]) -> Vec<String> {
    list.iter().map(|s| s.features[0].0.clone()).collect()
}

fn info(name: &str, candidates: usize) -> DepInfo {
    let list: Vec<Summary> = (0..candidates).map(|i| tagged(name, 1, i as u64, "c")).collect();
    (Dependency::new(name, "^1", SourceId::new("registry")), Rc::new(list), Rc::new(vec![]))
}

#[test]
fn the_ordering_follows_the_query_and_the_session() {
    assert_eq!(choose_ordering(false, false), VersionOrdering::MaximumVersionsFirst);
    assert_eq!(choose_ordering(true, false), VersionOrdering::MinimumVersionsFirst);
    assert_eq!(choose_ordering(false, true), VersionOrdering::MinimumVersionsFirst);
    assert_eq!(choose_ordering(true, true), VersionOrdering::MinimumVersionsFirst);
}

#[test]
fn candidates_that_tie_keep_their_places() {
    let prefs = VersionPreferences::new();
    let mut list = vec![
        tagged("b", 1, 1, "first"),
        tagged("b", 1, 0, "second"),
        tagged("b", 1, 1, "third"),
        tagged("b", 1, 2, "fourth"),
        tagged("b", 1, 0, "fifth"),
    ];
    let mut least = list.clone();
    prefs.sort_summaries(&mut list, VersionOrdering::MaximumVersionsFirst, false);
    assert_eq!(tags(&list), vec!["fourth", "first", "third", "second", "fifth"]);
    prefs.sort_summaries(&mut least, VersionOrdering::MinimumVersionsFirst, true);
    assert_eq!(tags(&least), vec!["second", "fifth", "first", "third", "fourth"]);
}

#[test]
fn the_version_decides_number_by_number() {
    let prefs = VersionPreferences::new();
    let at = |major: u64, minor: u64, patch: u64| {
        let id = PackageId::new("b", Version::new(major, minor, patch), SourceId::new("registry"));
        Summary::new(id, vec![], vec![], None)
    };
    let mut list = vec![at(1, 2, 3), at(2, 0, 0), at(1, 10, 0), at(1, 2, 10), at(0, 99, 99)];
    prefs.sort_summaries(&mut list, VersionOrdering::MaximumVersionsFirst, false);
    assert_eq!(list, vec![at(2, 0, 0), at(1, 10, 0), at(1, 2, 10), at(1, 2, 3), at(0, 99, 99)]);
    let mut empty: Vec<Summary> = vec![];
    prefs.sort_summaries(&mut empty, VersionOrdering::MaximumVersionsFirst, false);
    assert_eq!(empty, vec![]);
}

#[test]
fn a_preferred_candidate_goes_before_the_others() {
    let mut prefs = VersionPreferences::new();
    prefs.prefer_package_id(PackageId::new("b", Version::new(1, 0, 0), SourceId::new("registry")));
    let a = tagged("b", 1, 0, "old");
    let b = tagged("b", 1, 5, "new");
    assert!(prefs.goes_before(VersionOrdering::MaximumVersionsFirst, &a, &b));
    assert!(!prefs.goes_before(VersionOrdering::MaximumVersionsFirst, &b, &a));
    assert!(prefs.goes_before(VersionOrdering::MinimumVersionsFirst, &a, &b));
    let none = VersionPreferences::new();
    assert!(!none.goes_before(VersionOrdering::MaximumVersionsFirst, &a, &b));
    assert!(none.goes_before(VersionOrdering::MaximumVersionsFirst, &b, &a));
    assert!(none.goes_before(VersionOrdering::MinimumVersionsFirst, &a, &b));
    assert!(!none.goes_before(VersionOrdering::MinimumVersionsFirst, &a, &a));
}

#[test]
fn dependencies_with_equally_many_candidates_keep_their_places() {
    let deps = vec![info("e", 2), info("a", 1), info("d", 0), info("b", 1), info("c", 2), info("f", 0)];
    let out = order_deps(deps);
    let order: Vec<(String, usize)> =
        out.iter().map(|d| (d.0.package_name.clone(), candidate_count(d))).collect();
    let expected: Vec<(String, usize)> =
        vec![("d", 0), ("f", 0), ("a", 1), ("b", 1), ("e", 2), ("c", 2)]
            .into_iter()
            .map(|(n, c)| (n.to_string(), c))
            .collect();
    assert_eq!(order, expected);
    assert_eq!(order_deps(vec![]).len(), 0);
}

#[test]
fn readiness_is_told_apart() {
    let ready: Poll<u8> = Poll::Ready(3);
    let pending: Poll<u8> = Poll::Pending;
    assert!(ready.is_ready() && !ready.is_pending());
    assert!(pending.is_pending() && !pending.is_ready());
}

#[test]
fn an_answer_is_taken_up_as_it_came() {
    let mut found: Vec<DepInfo> = vec![info("a", 1)];
    let b = Dependency::new("b", "^1", SourceId::new("registry"));
    let list = Rc::new(vec![tagged("b", 1, 0, "c"), tagged("b", 1, 1, "c")]);
    let wanted = Rc::new(vec!["std".to_string()]);
    let r = take_answer(&mut found, b.clone(), wanted.clone(), Poll::Ready(Ok(list.clone())));
    assert_eq!(r, Ok(true));
    assert_eq!(found.len(), 2);
    assert_eq!(found[1], (b.clone(), list, wanted.clone()));
    let r = take_answer(&mut found, b.clone(), wanted.clone(), Poll::Pending);
    assert_eq!(r, Ok(false));
    assert_eq!(found.len(), 2);
    let failure = QueryError::Registry(RegistryError::new("offline"));
    let r = take_answer(&mut found, b, wanted, Poll::Ready(Err(failure.clone())));
    assert_eq!(r, Err(failure));
    assert_eq!(found.len(), 2);
}

#[test]
fn a_failed_query_carries_its_cause_and_the_path() {
    let candidate = PackageId::new("a", Version::new(1, 0, 0), SourceId::new("registry"));
    let cause = QueryError::Registry(RegistryError::new("offline"));
    let e = failed_query("b".to_string(), &candidate, "the root".to_string(), cause.clone());
    assert_eq!(
        e,
        ActivateError::Fatal(FatalError::DependencyQuery {
            dep_name: "b".to_string(),
            package_id: candidate,
            path: "the root".to_string(),
            cause,
        })
    );
}
