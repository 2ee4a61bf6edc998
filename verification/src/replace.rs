//! Overrides: rules that redirect a package to another source.
//!
//! A rule is a pattern over package identities and the dependency by which
//! the replacing package is asked of the registry. The functions here
//! decide, from what the registry answered, what becomes of a candidate.

use crate::dependency::{Dependency, DependencyModel};
use crate::errors::{QueryError, QueryErrorModel};
use crate::package::{
    PackageId, PackageIdModel, PackageIdSpec, PackageIdSpecModel, PartialVersion,
    toolchain_admits, check_toolchain,
};
use crate::summary::{Summary, SummaryModel};
use vstd::prelude::*;

verus! {

/// The model of a list of rules.
pub type RulesModel = Seq<(PackageIdSpecModel, DependencyModel)>;

/// The candidates of `answer` that the toolchain limit admits, in order.
pub open spec fn admitted(answer: Seq<SummaryModel>, limit: Option<PartialVersion>) -> Seq<
    SummaryModel,
> {
    answer.filter(|s: SummaryModel| toolchain_admits(limit, s.rust_version))
}

/// Drops from a registry answer the candidates that need a newer toolchain
/// than the limit, where there is one.
pub fn admit_candidates(answer: Vec<Summary>, limit: &Option<PartialVersion>) -> (r: Vec<
    Summary,
>)
    ensures
        r.deep_view() == admitted(answer.deep_view(), *limit),
        forall|i: int|
            0 <= i < r.len() ==> toolchain_admits(*limit, (#[trigger] r.deep_view()[i]).rust_version),
{
    let ghost all = answer.deep_view();
    let ghost raw = answer@;
    let ghost pred = |s: SummaryModel| toolchain_admits(*limit, s.rust_version);
    let mut out: Vec<Summary> = Vec::new();
    assert(out.deep_view() =~= Seq::<SummaryModel>::empty());
    assert(all.take(0) =~= Seq::<SummaryModel>::empty());
    assert(Seq::<SummaryModel>::empty().filter(pred) =~= Seq::<SummaryModel>::empty()) by {
        reveal(Seq::filter);
    }
    for s in it: answer
        invariant
            it.seq() == raw,
            all.len() == raw.len(),
            forall|j: int| 0 <= j < raw.len() ==> all[j] == raw[j].deep_view(),
            pred == (|s: SummaryModel| toolchain_admits(*limit, s.rust_version)),
            out.deep_view() == all.take(it.index() as int).filter(pred),
            forall|i: int|
                0 <= i < out.len() ==> toolchain_admits(
                    *limit,
                    (#[trigger] out.deep_view()[i]).rust_version,
                ),
    {
        let ghost k = it.index() as int;
        let ghost was = out.deep_view();
        assert(all.take(k + 1) =~= all.take(k).push(all[k]));
        proof {
            all.take(k).lemma_filter_push(all[k], pred);
        }
        if check_toolchain(limit, &s.rust_version) {
            out.push(s);
            assert(out.deep_view() =~= was.push(all[k]));
        }
    }
    assert(all.take(all.len() as int) =~= all);
    out
}

/// The place of the first rule at or after `from` whose pattern matches
/// `id`, or the number of rules if there is none.
pub open spec fn first_match(rules: RulesModel, id: PackageIdModel, from: int) -> int
    decreases rules.len() - from,
{
    if from < 0 || from >= rules.len() {
        rules.len() as int
    } else if rules[from].0.matches(id) {
        from
    } else {
        first_match(rules, id, from + 1)
    }
}

/// `first_match` is the least place at or after `from` of a matching rule.
pub proof fn lemma_first_match(rules: RulesModel, id: PackageIdModel, from: int)
    requires
        0 <= from <= rules.len(),
    ensures
        from <= first_match(rules, id, from) <= rules.len(),
        first_match(rules, id, from) < rules.len() ==> rules[first_match(
            rules,
            id,
            from,
        )].0.matches(id),
        forall|j: int|
            from <= j < first_match(rules, id, from) ==> !(#[trigger] rules[j]).0.matches(id),
    decreases rules.len() - from,
{
    if from < rules.len() && !rules[from].0.matches(id) {
        lemma_first_match(rules, id, from + 1);
    }
}

/// Whether two rules or more match `id`.
pub open spec fn doubly_matched(rules: RulesModel, id: PackageIdModel) -> bool {
    first_match(rules, id, first_match(rules, id, 0) + 1) < rules.len()
}

/// Finds the first rule at or after `from` whose pattern matches `id`.
pub fn find_override(rules: &[(PackageIdSpec, Dependency)], id: &PackageId, from: usize) -> (r:
    Option<usize>)
    ensures
        match r {
            Some(i) => i < rules.len() && i == first_match(
                rules.deep_view(),
                id.deep_view(),
                from as int,
            ),
            None => first_match(rules.deep_view(), id.deep_view(), from as int) == rules.len(),
        },
{
    let ghost model = rules.deep_view();
    let mut i: usize = from;
    while i < rules.len()
        invariant
            model == rules.deep_view(),
            from <= i,
            first_match(model, id.deep_view(), from as int) == first_match(
                model,
                id.deep_view(),
                i as int,
            ),
        decreases rules.len() - i,
    {
        if rules[i].0.matches(id) {
            assert(model[i as int].0 == rules[i as int].0.deep_view());
            return Some(i);
        }
        assert(model[i as int].0 == rules[i as int].0.deep_view());
        i += 1;
    }
    None
}

/// The identities of the candidates of `answer`, in order.
pub open spec fn identities(answer: Seq<SummaryModel>) -> Seq<PackageIdModel> {
    Seq::new(answer.len(), |i: int| answer[i].package_id)
}

/// The replacement has the name and the version of the candidate that it
/// stands in for.
pub open spec fn agrees(candidate: SummaryModel, replacement: SummaryModel) -> bool {
    candidate.package_id.name == replacement.package_id.name && candidate.package_id.version
        == replacement.package_id.version
}

/// What becomes of a candidate that the rule `rule` matches, once the
/// registry has answered for the rule's dependency with `answer`: an
/// error where the answer is empty or ambiguous, or where a second rule
/// matches the candidate too; no replacement where the package found comes
/// from the candidate's own source; else the package found.
pub open spec fn override_outcome(
    candidate: SummaryModel,
    rule: (PackageIdSpecModel, DependencyModel),
    second: Option<PackageIdSpecModel>,
    answer: Seq<SummaryModel>,
) -> Result<Option<SummaryModel>, QueryErrorModel> {
    if answer.len() == 0 {
        Err(
            QueryErrorModel::NoMatchingOverride {
                spec: rule.0,
                source: rule.1.source,
                version_req: rule.1.version_req,
            },
        )
    } else if answer.len() > 1 {
        Err(QueryErrorModel::MultipleOverrideMatches { spec: rule.0, matches: identities(answer) })
    } else if let Some(other) = second {
        Err(
            QueryErrorModel::OverlappingOverrides {
                first: rule.0,
                second: other,
                package_id: candidate.package_id,
            },
        )
    } else if answer[0].package_id.source == candidate.package_id.source {
        Ok(None)
    } else {
        Ok(Some(answer[0]))
    }
}

/// Where a second rule matches a candidate and the registry has one
/// package for the first rule's dependency, the outcome is the error that
/// names both rules and the candidate.
pub proof fn lemma_overlap_detected(
    candidate: SummaryModel,
    rule: (PackageIdSpecModel, DependencyModel),
    second: PackageIdSpecModel,
    answer: Seq<SummaryModel>,
)
    requires
        answer.len() == 1,
    ensures
        override_outcome(candidate, rule, Some(second), answer) == Err::<
            Option<SummaryModel>,
            QueryErrorModel,
        >(
            QueryErrorModel::OverlappingOverrides {
                first: rule.0,
                second,
                package_id: candidate.package_id,
            },
        ),
{
}

/// Whether the only package of `answer`, if it is the only one, agrees
/// with the candidate in name and version.
pub fn replacement_agrees(candidate: &Summary, answer: &Vec<Summary>) -> (r: bool)
    ensures
        r == (answer.len() == 1 ==> agrees(candidate.deep_view(), answer.deep_view()[0])),
{
    if answer.len() != 1 {
        return true;
    }
    let found = &answer[0];
    assert(answer.deep_view()[0] == found.deep_view());
    found.package_id.name == candidate.package_id.name && found.package_id.version.same(
        &candidate.package_id.version,
    )
}

/// Decides what becomes of `candidate` under the rule of `spec` and `dep`,
/// given the registry's answer for `dep` and the pattern of a second
/// matching rule, if there is one.
pub fn apply_override(
    candidate: &Summary,
    spec: &PackageIdSpec,
    dep: &Dependency,
    second: Option<&PackageIdSpec>,
    answer: Vec<Summary>,
) -> (r: Result<Option<Summary>, QueryError>)
    requires
        answer.len() == 1 ==> agrees(candidate.deep_view(), answer.deep_view()[0]),
    ensures
        match r {
            Ok(found) => override_outcome(
                candidate.deep_view(),
                (spec.deep_view(), dep.deep_view()),
                second.deep_view(),
                answer.deep_view(),
            ) == Ok::<Option<SummaryModel>, QueryErrorModel>(found.deep_view()),
            Err(e) => override_outcome(
                candidate.deep_view(),
                (spec.deep_view(), dep.deep_view()),
                second.deep_view(),
                answer.deep_view(),
            ) == Err::<Option<SummaryModel>, QueryErrorModel>(e.deep_view()),
        },
{
    let mut answer = answer;
    let ghost model = answer.deep_view();
    if answer.len() == 0 {
        return Err(
            QueryError::NoMatchingOverride {
                spec: spec.clone(),
                source_id: dep.source_id.clone(),
                version_req: dep.version_req.clone(),
            },
        );
    }
    if answer.len() > 1 {
        let mut matches: Vec<PackageId> = Vec::new();
        let mut i: usize = 0;
        while i < answer.len()
            invariant
                i <= answer.len(),
                model == answer.deep_view(),
                matches.len() == i,
                forall|j: int| 0 <= j < i ==> matches[j].deep_view() == model[j].package_id,
            decreases answer.len() - i,
        {
            assert(model[i as int] == answer[i as int].deep_view());
            matches.push(answer[i].package_id.clone());
            i += 1;
        }
        assert(matches.deep_view() =~= identities(model));
        return Err(QueryError::MultipleOverrideMatches { spec: spec.clone(), matches });
    }
    if let Some(other) = second {
        return Err(
            QueryError::OverlappingOverrides {
                first: spec.clone(),
                second: other.clone(),
                package_id: candidate.package_id.clone(),
            },
        );
    }
    let found = answer.pop().unwrap();
    assert(found.deep_view() == model[0]);
    if found.package_id.source_id.same(&candidate.package_id.source_id) {
        Ok(None)
    } else {
        Ok(Some(found))
    }
}

/// The replacement stands in for the package `id`: it has its name and
/// version, and comes from another source.
pub open spec fn fits(id: PackageIdModel, replacement: SummaryModel) -> bool {
    &&& replacement.package_id.name == id.name
    &&& replacement.package_id.version == id.version
    &&& replacement.package_id.source != id.source
}

/// The pattern of the second rule that matches `id`, if there is one.
pub open spec fn second_pattern(rules: RulesModel, id: PackageIdModel) -> Option<
    PackageIdSpecModel,
> {
    let j = first_match(rules, id, first_match(rules, id, 0) + 1);
    if 0 <= j < rules.len() {
        Some(rules[j].0)
    } else {
        None
    }
}

/// What becomes of a candidate that some rule matches, once the registry
/// has answered for the dependency of the first such rule with `answer`.
/// A single package of another name or version than the candidate is an
/// error; for the rest see [`override_outcome`].
pub open spec fn rule_outcome(
    rules: RulesModel,
    candidate: SummaryModel,
    answer: Seq<SummaryModel>,
) -> Result<Option<SummaryModel>, QueryErrorModel> {
    let first = rules[first_match(rules, candidate.package_id, 0)];
    if answer.len() == 1 && !agrees(candidate, answer[0]) {
        Err(
            QueryErrorModel::ReplacementMismatch {
                spec: first.0,
                package_id: candidate.package_id,
                replacement: answer[0].package_id,
            },
        )
    } else {
        override_outcome(candidate, first, second_pattern(rules, candidate.package_id), answer)
    }
}

/// A replacement that comes out of a rule fits the candidate.
pub proof fn lemma_outcome_fits(
    rules: RulesModel,
    candidate: SummaryModel,
    answer: Seq<SummaryModel>,
)
    ensures
        rule_outcome(rules, candidate, answer) matches Ok(Some(r)) ==> fits(
            candidate.package_id,
            r,
        ) && answer.len() == 1 && r == answer[0],
{
}

/// Decides what becomes of `candidate`, which the rule at `first` is the
/// first to match, given the registry's answer for that rule's dependency.
pub fn decide_override(
    rules: &[(PackageIdSpec, Dependency)],
    candidate: &Summary,
    first: usize,
    answer: Vec<Summary>,
) -> (r: Result<Option<Summary>, QueryError>)
    requires
        first < rules.len(),
        first == first_match(rules.deep_view(), candidate.deep_view().package_id, 0),
    ensures
        match r {
            Ok(found) => rule_outcome(rules.deep_view(), candidate.deep_view(), answer.deep_view())
                == Ok::<Option<SummaryModel>, QueryErrorModel>(found.deep_view()),
            Err(e) => rule_outcome(rules.deep_view(), candidate.deep_view(), answer.deep_view())
                == Err::<Option<SummaryModel>, QueryErrorModel>(e.deep_view()),
        },
{
    let ghost model = rules.deep_view();
    assert(model[first as int] == (
        rules[first as int].0.deep_view(),
        rules[first as int].1.deep_view(),
    ));
    if !replacement_agrees(candidate, &answer) {
        assert(answer.deep_view()[0] == answer[0].deep_view());
        return Err(
            QueryError::ReplacementMismatch {
                spec: rules[first].0.clone(),
                package_id: candidate.package_id.clone(),
                replacement: answer[0].package_id.clone(),
            },
        );
    }
    let second = match find_override(rules, &candidate.package_id, first + 1) {
        Some(b) => {
            assert(model[b as int] == (rules[b as int].0.deep_view(), rules[b as int].1.deep_view()));
            Some(&rules[b].0)
        },
        None => None,
    };
    apply_override(candidate, &rules[first].0, &rules[first].1, second, answer)
}

} // verus!
