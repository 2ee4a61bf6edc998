//! The cache itself: registry answers by dependency, feature expansions by
//! candidate, and the replacements that overrides brought about.

use crate::assoc::{
    all_pass, as_map, distinct_keys, has_key, kept_from, lemma_entry, lemma_keep_step,
    lemma_kept_all, lemma_push, lemma_update, retained,
};
use crate::dependency::{Dependency, DependencyModel};
use crate::errors::{ActivateError, ActivateErrorModel, FatalErrorModel, QueryError, QueryErrorModel};
use crate::expansion::{
    count_is, failed_query, fewest_first, order_deps, ordered_by_count, take_answer, DepInfo,
    DepInfoModel, Expansion, ExpansionModel,
};
use crate::features::{resolve_features, resolved};
use crate::options::{ResolveOpts, ResolveOptsModel};
use crate::package::{
    clone_parent, same_parent, toolchain_admits, Name, PackageId, PackageIdModel, PackageIdSpec,
    PartialVersion,
};
use crate::registry::{Context, Poll, QueryKind, Registry};
use crate::replace::{
    admit_candidates, decide_override, doubly_matched, find_override, first_match, fits,
    lemma_first_match, lemma_outcome_fits, rule_outcome, RulesModel,
};
use crate::shared::{lemma_same_members, share};
use crate::summary::{Summary, SummaryModel};
use crate::version_prefs::{choose_ordering, in_order, ordering_for, VersionPreferences};
use std::rc::Rc;
use vstd::prelude::*;

verus! {

/// The key of a registry answer: the dependency, and whether the least
/// versions were asked for first.
pub type QueryKey = (DependencyModel, bool);

/// The key of an expansion: the parent, the candidate and the request.
pub type ExpansionKey = (Option<PackageIdModel>, PackageIdModel, ResolveOptsModel);

/// The model of the table of registry answers.
pub type AnswerCache = Map<QueryKey, Poll<Seq<SummaryModel>>>;

/// The model of the table of replacements.
pub type Replacements = Map<PackageIdModel, SummaryModel>;

/// What a query hands out, as a model.
pub type AnswerModel = Poll<Result<Seq<SummaryModel>, QueryErrorModel>>;

/// The dependencies that an expansion asks for, each with the features
/// wanted of it.
pub type Requested = Seq<(DependencyModel, Seq<Name>)>;

/// The model of the cache: its settings and its three tables.
pub struct QueryerModel {
    pub replacements: RulesModel,
    pub preferred: Seq<PackageIdModel>,
    pub minimal_versions: bool,
    pub max_rust_version: Option<PartialVersion>,
    pub registry_cache: AnswerCache,
    pub summary_cache: Map<ExpansionKey, (ExpansionModel, bool)>,
    pub used_replacements: Replacements,
}

/// The model of what a query hands out.
pub open spec fn answer_model(out: Poll<Result<Rc<Vec<Summary>>, QueryError>>) -> AnswerModel {
    match out {
        Poll::Ready(Ok(list)) => Poll::Ready(Ok(list.deep_view())),
        Poll::Ready(Err(e)) => Poll::Ready(Err(e.deep_view())),
        Poll::Pending => Poll::Pending,
    }
}

/// What a query hands out for an entry of the cache.
pub open spec fn cached_answer(entry: Poll<Seq<SummaryModel>>) -> AnswerModel {
    match entry {
        Poll::Ready(list) => Poll::Ready(Ok(list)),
        Poll::Pending => Poll::Pending,
    }
}

/// The settings of the cache are those it was made with.
pub open spec fn same_settings(pre: QueryerModel, post: QueryerModel) -> bool {
    &&& post.replacements == pre.replacements
    &&& post.preferred == pre.preferred
    &&& post.minimal_versions == pre.minimal_versions
    &&& post.max_rust_version == pre.max_rust_version
}

/// Every answer in the cache is still there, as it was: a stored answer is
/// never changed.
pub open spec fn answers_stay(pre: AnswerCache, post: AnswerCache) -> bool {
    forall|k: QueryKey| pre.contains_key(k) ==> #[trigger] post.contains_key(k) && post[k] == pre[k]
}

/// The entry for `id` among the replacements is as it was.
pub open spec fn untouched(pre: Replacements, post: Replacements, id: PackageIdModel) -> bool {
    post.contains_key(id) == pre.contains_key(id) && (pre.contains_key(id) ==> post[id] == pre[id])
}

/// The entry for `id` among the replacements is as it was, or a rule
/// matches `id` and the entry is a replacement that fits it.
pub open spec fn replacement_explained(
    rules: RulesModel,
    pre: Replacements,
    post: Replacements,
    id: PackageIdModel,
) -> bool {
    untouched(pre, post, id) || (post.contains_key(id) && first_match(rules, id, 0) < rules.len()
        && fits(id, post[id]))
}

/// What an error of a query says of the rules.
pub open spec fn error_explained(rules: RulesModel, e: QueryErrorModel) -> bool {
    match e {
        QueryErrorModel::Registry(_) => true,
        QueryErrorModel::NoMatchingOverride { spec, source, version_req } => exists|i: int|
            0 <= i < rules.len() && (#[trigger] rules[i]).0 == spec && rules[i].1.source == source
                && rules[i].1.version_req == version_req,
        QueryErrorModel::MultipleOverrideMatches { spec, matches } => matches.len() > 1
            && exists|i: int| 0 <= i < rules.len() && (#[trigger] rules[i]).0 == spec,
        QueryErrorModel::ReplacementMismatch { spec, package_id, replacement } => spec.matches(
            package_id,
        ) && (replacement.name != package_id.name || replacement.version != package_id.version),
        QueryErrorModel::OverlappingOverrides { first, second, package_id } => {
            let i = first_match(rules, package_id, 0);
            let j = first_match(rules, package_id, i + 1);
            j < rules.len() && first == rules[i].0 && second == rules[j].0
        },
    }
}

/// The error of a rule's outcome is explained by the rules.
pub proof fn lemma_outcome_explained(
    rules: RulesModel,
    candidate: SummaryModel,
    answer: Seq<SummaryModel>,
)
    requires
        first_match(rules, candidate.package_id, 0) < rules.len(),
    ensures
        rule_outcome(rules, candidate, answer) matches Err(e) ==> error_explained(rules, e),
        rule_outcome(rules, candidate, answer) is Ok ==> !doubly_matched(
            rules,
            candidate.package_id,
        ),
{
    let id = candidate.package_id;
    lemma_first_match(rules, id, 0);
    let i = first_match(rules, id, 0);
    lemma_first_match(rules, id, i + 1);
    assert(rules[i].0 == rules[i].0);
    if let Err(QueryErrorModel::MultipleOverrideMatches { spec, matches }) = rule_outcome(
        rules,
        candidate,
        answer,
    ) {
        assert(matches.len() == answer.len());
    }
}

/// What holds of every list that a query hands out: it is in the order
/// that the settings and the query ask for, the toolchain limit admits
/// each of its candidates, and no candidate is matched by two rules.
pub open spec fn well_listed(
    settings: QueryerModel,
    first_minimal_version: bool,
    list: Seq<SummaryModel>,
) -> bool {
    &&& in_order(
        settings.preferred,
        ordering_for(first_minimal_version, settings.minimal_versions),
        list,
    )
    &&& forall|i: int|
        0 <= i < list.len() ==> toolchain_admits(
            settings.max_rust_version,
            (#[trigger] list[i]).rust_version,
        )
    &&& forall|i: int|
        0 <= i < list.len() ==> !doubly_matched(
            settings.replacements,
            (#[trigger] list[i]).package_id,
        )
}

/// Every package whose replacement was touched is a candidate of `list`.
pub open spec fn touched_within(
    pre: Replacements,
    post: Replacements,
    list: Seq<SummaryModel>,
) -> bool {
    forall|id: PackageIdModel|
        !untouched(pre, post, id) ==> exists|i: int|
            0 <= i < list.len() && (#[trigger] list[i]).package_id == id
}

/// The contract of a query. An answer in the cache is handed out as it is
/// and nothing changes. Else the registry decides: a list is stored under
/// the key and handed out, a pending answer is stored under the key, an
/// error is not stored. A list that is handed out is [`well_listed`], from
/// the cache or not. Whatever the outcome, no stored answer changes, and a
/// replacement changes only to one that fits its package.
pub open spec fn query_post(
    pre: QueryerModel,
    dep: DependencyModel,
    first_minimal_version: bool,
    out: AnswerModel,
    post: QueryerModel,
) -> bool {
    let key = (dep, first_minimal_version);
    &&& same_settings(pre, post)
    &&& post.summary_cache == pre.summary_cache
    &&& answers_stay(pre.registry_cache, post.registry_cache)
    &&& forall|id: PackageIdModel|
        replacement_explained(pre.replacements, pre.used_replacements, post.used_replacements, id)
    &&& out matches Poll::Ready(Ok(list)) ==> well_listed(pre, first_minimal_version, list)
    &&& if pre.registry_cache.contains_key(key) {
        post == pre && out == cached_answer(pre.registry_cache[key])
    } else {
        match out {
            Poll::Ready(Ok(list)) => post.registry_cache == pre.registry_cache.insert(
                key,
                Poll::Ready(list),
            ) && touched_within(pre.used_replacements, post.used_replacements, list),
            Poll::Pending => post.registry_cache == pre.registry_cache.insert(key, Poll::Pending),
            Poll::Ready(Err(e)) => post.registry_cache == pre.registry_cache && error_explained(
                pre.replacements,
                e,
            ),
        }
    }
}

/// A registry answer that is there.
pub open spec fn is_settled() -> spec_fn(Poll<Seq<SummaryModel>>) -> bool {
    |entry: Poll<Seq<SummaryModel>>| entry is Ready
}

/// An expansion whose dependencies all had their candidates.
pub open spec fn is_complete() -> spec_fn((ExpansionModel, bool)) -> bool {
    |entry: (ExpansionModel, bool)| entry.1
}

/// The contract of a reset: pending answers and incomplete expansions
/// leave the cache, everything else stays, and the result says whether
/// there was nothing to take out.
pub open spec fn reset_post(pre: QueryerModel, settled: bool, post: QueryerModel) -> bool {
    &&& same_settings(pre, post)
    &&& post.used_replacements == pre.used_replacements
    &&& post.registry_cache == retained(pre.registry_cache, is_settled())
    &&& post.summary_cache == retained(pre.summary_cache, is_complete())
    &&& settled == (all_pass(pre.registry_cache, is_settled()) && all_pass(
        pre.summary_cache,
        is_complete(),
    ))
}

/// After a reset no answer in the cache is pending and no expansion is
/// incomplete; a reset that reports a settled cache has changed nothing.
pub proof fn lemma_reset_settles(pre: QueryerModel, settled: bool, post: QueryerModel)
    requires
        reset_post(pre, settled, post),
    ensures
        forall|k: QueryKey| post.registry_cache.contains_key(k) ==> post.registry_cache[k] is Ready,
        forall|k: ExpansionKey| post.summary_cache.contains_key(k) ==> post.summary_cache[k].1,
        settled ==> post == pre,
{
    if settled {
        assert(post.registry_cache =~= pre.registry_cache);
        assert(post.summary_cache =~= pre.summary_cache);
    }
}

/// A query that handed out a list is repeatable: the next query for the
/// same dependency hands out the same list, and changes nothing.
pub proof fn lemma_query_idempotent(
    before: QueryerModel,
    dep: DependencyModel,
    first_minimal_version: bool,
    first: AnswerModel,
    between: QueryerModel,
    second: AnswerModel,
    after: QueryerModel,
)
    requires
        query_post(before, dep, first_minimal_version, first, between),
        query_post(between, dep, first_minimal_version, second, after),
        first matches Poll::Ready(Ok(_)),
    ensures
        second == first,
        after == between,
{
    let key = (dep, first_minimal_version);
    assert(between.registry_cache.contains_key(key));
}

/// The candidates of the dependency are in the cache.
pub open spec fn has_list(cache: AnswerCache, first_minimal_version: bool, dep: DependencyModel)
    -> bool {
    cache.contains_key((dep, first_minimal_version)) && cache[(dep, first_minimal_version)] is Ready
}

/// The dependencies of `requested` whose candidates are in the cache, in
/// the order of `requested`, each with those candidates and with the
/// features wanted of it.
pub open spec fn listed(requested: Requested, cache: AnswerCache, first_minimal_version: bool)
    -> Seq<DepInfoModel>
    decreases requested.len(),
{
    if requested.len() == 0 {
        Seq::empty()
    } else {
        let front = listed(requested.drop_last(), cache, first_minimal_version);
        let last = requested.last();
        if has_list(cache, first_minimal_version, last.0) {
            front.push((last.0, cache[(last.0, first_minimal_version)]->Ready_0, last.1))
        } else {
            front
        }
    }
}

/// The candidates of every dependency of `requested` are in the cache.
pub open spec fn all_listed(requested: Requested, cache: AnswerCache, first_minimal_version: bool)
    -> bool {
    forall|i: int|
        0 <= i < requested.len() ==> has_list(
            cache,
            first_minimal_version,
            (#[trigger] requested[i]).0,
        )
}

/// The place of the first dependency at or after `from` for which the
/// cache holds no answer, or the number of dependencies.
pub open spec fn first_unanswered(
    requested: Requested,
    cache: AnswerCache,
    first_minimal_version: bool,
    from: int,
) -> int
    decreases requested.len() - from,
{
    if from < 0 || from >= requested.len() {
        requested.len() as int
    } else if !cache.contains_key((requested[from].0, first_minimal_version)) {
        from
    } else {
        first_unanswered(requested, cache, first_minimal_version, from + 1)
    }
}

/// A dependency without an answer, with answers for all from `from` up to
/// it, is the first unanswered one.
pub proof fn lemma_first_unanswered(
    requested: Requested,
    cache: AnswerCache,
    first_minimal_version: bool,
    from: int,
    at: int,
)
    requires
        0 <= from <= at < requested.len(),
        !cache.contains_key((requested[at].0, first_minimal_version)),
        forall|j: int|
            from <= j < at ==> cache.contains_key(
                ((#[trigger] requested[j]).0, first_minimal_version),
            ),
    ensures
        first_unanswered(requested, cache, first_minimal_version, from) == at,
    decreases at - from,
{
    if from < at {
        assert(cache.contains_key((requested[from].0, first_minimal_version)));
        lemma_first_unanswered(requested, cache, first_minimal_version, from + 1, at);
    }
}

/// What is listed does not change while the answers stay.
pub proof fn lemma_listed_stays(
    requested: Requested,
    before: AnswerCache,
    after: AnswerCache,
    first_minimal_version: bool,
)
    requires
        answers_stay(before, after),
        forall|i: int|
            0 <= i < requested.len() ==> before.contains_key(
                ((#[trigger] requested[i]).0, first_minimal_version),
            ),
    ensures
        listed(requested, after, first_minimal_version) == listed(
            requested,
            before,
            first_minimal_version,
        ),
        all_listed(requested, after, first_minimal_version) == all_listed(
            requested,
            before,
            first_minimal_version,
        ),
    decreases requested.len(),
{
    if requested.len() > 0 {
        let front = requested.drop_last();
        assert forall|i: int| 0 <= i < front.len() implies before.contains_key(
            ((#[trigger] front[i]).0, first_minimal_version),
        ) by {
            assert(front[i] == requested[i]);
        }
        lemma_listed_stays(front, before, after, first_minimal_version);
        let last = requested[requested.len() - 1];
        assert(before.contains_key((last.0, first_minimal_version)));
        assert(after.contains_key((last.0, first_minimal_version)));
    }
    if all_listed(requested, before, first_minimal_version) {
        assert forall|i: int| 0 <= i < requested.len() implies has_list(
            after,
            first_minimal_version,
            (#[trigger] requested[i]).0,
        ) by {
            assert(has_list(before, first_minimal_version, requested[i].0));
            assert(after.contains_key((requested[i].0, first_minimal_version)));
        }
    }
    if all_listed(requested, after, first_minimal_version) {
        assert forall|i: int| 0 <= i < requested.len() implies has_list(
            before,
            first_minimal_version,
            (#[trigger] requested[i]).0,
        ) by {
            assert(has_list(after, first_minimal_version, requested[i].0));
            assert(before.contains_key((requested[i].0, first_minimal_version)));
            assert(after.contains_key((requested[i].0, first_minimal_version)));
        }
    }
}

/// What is listed comes from `requested` and has its candidates in the
/// cache.
pub proof fn lemma_listed_members(
    requested: Requested,
    cache: AnswerCache,
    first_minimal_version: bool,
)
    ensures
        forall|j: int|
            0 <= j < listed(requested, cache, first_minimal_version).len() ==> {
                let d = #[trigger] listed(requested, cache, first_minimal_version)[j];
                &&& has_list(cache, first_minimal_version, d.0)
                &&& cache[(d.0, first_minimal_version)] == Poll::<Seq<SummaryModel>>::Ready(d.1)
                &&& requested.contains((d.0, d.2))
            },
    decreases requested.len(),
{
    if requested.len() > 0 {
        let front = requested.drop_last();
        lemma_listed_members(front, cache, first_minimal_version);
        let all = listed(requested, cache, first_minimal_version);
        let before = listed(front, cache, first_minimal_version);
        assert forall|j: int| 0 <= j < all.len() implies {
            let d = #[trigger] all[j];
            &&& has_list(cache, first_minimal_version, d.0)
            &&& cache[(d.0, first_minimal_version)] == Poll::<Seq<SummaryModel>>::Ready(d.1)
            &&& requested.contains((d.0, d.2))
        } by {
            let d = all[j];
            if j < before.len() {
                assert(all[j] == before[j]);
                assert(front.contains((d.0, d.2)));
                let i = choose|i: int| 0 <= i < front.len() && front[i] == (d.0, d.2);
                assert(requested[i] == (d.0, d.2));
            } else {
                assert(requested[requested.len() - 1] == (d.0, d.2));
            }
        }
    }
}

/// What holds of an expansion that was computed and stored under `key`,
/// where the features of the candidate expand to `used` and ask for the
/// dependencies `requested`. By then the cache holds an answer for each of
/// them. The expansion has the features `used`; its dependencies are those
/// whose answer is a list, each with that list, the fewest candidates
/// first and equal counts in the order of `requested`. It is stored as
/// complete just where every answer is a list.
pub open spec fn fresh_expansion(
    pre: QueryerModel,
    key: ExpansionKey,
    used: Seq<Name>,
    requested: Requested,
    first_minimal_version: bool,
    exp: ExpansionModel,
    post: QueryerModel,
) -> bool {
    &&& exp.0 == used
    &&& forall|i: int|
        0 <= i < requested.len() ==> post.registry_cache.contains_key(
            ((#[trigger] requested[i]).0, first_minimal_version),
        )
    &&& ordered_by_count(listed(requested, post.registry_cache, first_minimal_version), exp.1)
    &&& post.summary_cache == pre.summary_cache.insert(
        key,
        (exp, all_listed(requested, post.registry_cache, first_minimal_version)),
    )
}

/// What holds of the error of a failed query: it is for the first of
/// `requested` for which the cache holds no answer, it names that
/// dependency and the candidate, and its cause is an error of a query.
pub open spec fn query_failure(
    post: QueryerModel,
    candidate: PackageIdModel,
    requested: Requested,
    first_minimal_version: bool,
    e: ActivateErrorModel,
) -> bool {
    let at = first_unanswered(requested, post.registry_cache, first_minimal_version, 0);
    &&& 0 <= at < requested.len()
    &&& e matches ActivateErrorModel::Fatal(
        FatalErrorModel::DependencyQuery { dep_name, package_id, path, cause },
    ) && dep_name == requested[at].0.package_name && package_id == candidate && error_explained(
        post.replacements,
        cause,
    )
}

/// The contract of building the dependencies of a candidate. An expansion
/// in the cache is handed out as it is and nothing changes. Else, where
/// the features do not expand, that error is reported and nothing changes.
/// Else the registry decides: see [`fresh_expansion`] and
/// [`query_failure`]. An error is never stored. Whatever the outcome, no
/// stored answer changes, and a replacement changes only to one that fits
/// its package.
pub open spec fn build_deps_post(
    pre: QueryerModel,
    parent: Option<PackageIdModel>,
    candidate: SummaryModel,
    opts: ResolveOptsModel,
    first_minimal_version: bool,
    out: Result<ExpansionModel, ActivateErrorModel>,
    post: QueryerModel,
) -> bool {
    let key = (parent, candidate.package_id, opts);
    &&& same_settings(pre, post)
    &&& answers_stay(pre.registry_cache, post.registry_cache)
    &&& forall|id: PackageIdModel|
        replacement_explained(pre.replacements, pre.used_replacements, post.used_replacements, id)
    &&& out matches Ok(exp) ==> fewest_first(exp.1)
    &&& if pre.summary_cache.contains_key(key) {
        post == pre && out == Ok::<ExpansionModel, ActivateErrorModel>(pre.summary_cache[key].0)
    } else {
        match resolved(parent, candidate, opts) {
            Err(e) => post == pre && out == Err::<ExpansionModel, ActivateErrorModel>(e),
            Ok((used, requested)) => match out {
                Ok(exp) => fresh_expansion(
                    pre,
                    key,
                    used,
                    requested,
                    first_minimal_version,
                    exp,
                    post,
                ),
                Err(e) => post.summary_cache == pre.summary_cache && query_failure(
                    post,
                    candidate.package_id,
                    requested,
                    first_minimal_version,
                    e,
                ),
            },
        }
    }
}

/// Whether building the dependencies leaves the registry alone: the
/// expansion is in the cache, or the features do not expand, or they ask
/// for no dependency.
pub open spec fn registry_spared(
    pre: QueryerModel,
    parent: Option<PackageIdModel>,
    candidate: SummaryModel,
    opts: ResolveOptsModel,
) -> bool {
    pre.summary_cache.contains_key((parent, candidate.package_id, opts)) || match resolved(
        parent,
        candidate,
        opts,
    ) {
        Err(_) => true,
        Ok((_, requested)) => requested.len() == 0,
    }
}

/// The model of what building the dependencies hands out.
pub open spec fn expansion_model(out: Result<Expansion, ActivateError>) -> Result<
    ExpansionModel,
    ActivateErrorModel,
> {
    match out {
        Ok(exp) => Ok(exp.deep_view()),
        Err(e) => Err(e.deep_view()),
    }
}

/// An expansion that was handed out is handed out again, entry for entry
/// in the same order, by the next call for the same parent, candidate and
/// request; that call changes nothing.
pub proof fn lemma_build_deps_repeatable(
    before: QueryerModel,
    parent: Option<PackageIdModel>,
    candidate: SummaryModel,
    opts: ResolveOptsModel,
    first_minimal_version: bool,
    first: Result<ExpansionModel, ActivateErrorModel>,
    between: QueryerModel,
    second: Result<ExpansionModel, ActivateErrorModel>,
    after: QueryerModel,
)
    requires
        build_deps_post(before, parent, candidate, opts, first_minimal_version, first, between),
        build_deps_post(between, parent, candidate, opts, first_minimal_version, second, after),
        first is Ok,
    ensures
        second == first,
        after == between,
{
    let key = (parent, candidate.package_id, opts);
    assert(between.summary_cache.contains_key(key));
}

/// Where the answer for a requested dependency is pending, the expansion
/// that is computed leaves that dependency out and is stored as
/// incomplete, so that the next reset reports an unsettled cache and takes
/// the expansion out.
pub proof fn lemma_pending_propagates(
    before: QueryerModel,
    parent: Option<PackageIdModel>,
    candidate: SummaryModel,
    opts: ResolveOptsModel,
    first_minimal_version: bool,
    exp: ExpansionModel,
    between: QueryerModel,
    at: int,
    settled: bool,
    after: QueryerModel,
)
    requires
        build_deps_post(
            before,
            parent,
            candidate,
            opts,
            first_minimal_version,
            Ok(exp),
            between,
        ),
        !before.summary_cache.contains_key((parent, candidate.package_id, opts)),
        resolved(parent, candidate, opts) matches Ok(r) && 0 <= at < r.1.len()
            && between.registry_cache[(r.1[at].0, first_minimal_version)] is Pending,
        reset_post(between, settled, after),
    ensures
        forall|j: int|
            0 <= j < exp.1.len() ==> (#[trigger] exp.1[j]).0 != resolved(
                parent,
                candidate,
                opts,
            )->Ok_0.1[at].0,
        between.summary_cache[(parent, candidate.package_id, opts)] == (exp, false),
        !settled,
        !after.summary_cache.contains_key((parent, candidate.package_id, opts)),
{
    let key = (parent, candidate.package_id, opts);
    let requested = resolved(parent, candidate, opts)->Ok_0.1;
    let cache = between.registry_cache;
    let all = listed(requested, cache, first_minimal_version);
    assert(between.summary_cache.contains_key(key));
    assert(!has_list(cache, first_minimal_version, requested[at].0));
    assert(cache.contains_key((requested[at].0, first_minimal_version)));
    assert(!is_settled()(cache[(requested[at].0, first_minimal_version)]));
    lemma_listed_members(requested, cache, first_minimal_version);
    assert forall|j: int| 0 <= j < exp.1.len() implies (#[trigger] exp.1[j]).0
        != requested[at].0 by {
        let x = exp.1[j];
        let pred = count_is(x.1.len());
        exp.1.lemma_filter_contains(pred, j);
        assert(all.filter(pred).contains(x));
        all.lemma_filter_contains_rev(pred, x);
        let i = choose|i: int| 0 <= i < all.len() && all[i] == x;
        assert(has_list(cache, first_minimal_version, all[i].0));
    }
}

/// The cache of registry answers and feature expansions of one resolution.
pub struct RegistryQueryer<'a, R: Registry> {
    pub registry: R,
    replacements: &'a [(PackageIdSpec, Dependency)],
    version_prefs: &'a VersionPreferences,
    /// Whether every candidate list has the least versions first.
    minimal_versions: bool,
    max_rust_version: Option<PartialVersion>,
    /// The candidates found for a dependency.
    registry_cache: Vec<((Dependency, bool), Poll<Rc<Vec<Summary>>>)>,
    /// The expansion found for a candidate, and whether every dependency of
    /// it had its candidates when it was made.
    summary_cache: Vec<((Option<PackageId>, PackageId, ResolveOpts), (Expansion, bool))>,
    /// The packages that an override replaced, each with its replacement.
    used_replacements: Vec<(PackageId, Summary)>,
}

impl<'a, R: Registry> View for RegistryQueryer<'a, R> {
    type V = QueryerModel;

    closed spec fn view(&self) -> QueryerModel {
        QueryerModel {
            replacements: self.replacements.deep_view(),
            preferred: self.version_prefs.deep_view(),
            minimal_versions: self.minimal_versions,
            max_rust_version: self.max_rust_version,
            registry_cache: as_map(self.registry_cache.deep_view()),
            summary_cache: as_map(self.summary_cache.deep_view()),
            used_replacements: as_map(self.used_replacements.deep_view()),
        }
    }
}

impl<'a, R: Registry> RegistryQueryer<'a, R> {
    /// The registry as the cache holds it.
    pub closed spec fn registry_value(&self) -> R {
        self.registry
    }

    /// No key occurs twice in a table, every stored list is as a query
    /// hands it out, every stored expansion has its dependencies in the
    /// order of their candidate counts, and every replacement fits the
    /// package it stands in for.
    pub closed spec fn wf(&self) -> bool {
        &&& distinct_keys(self.registry_cache.deep_view())
        &&& distinct_keys(self.summary_cache.deep_view())
        &&& distinct_keys(self.used_replacements.deep_view())
        &&& forall|i: int|
            0 <= i < self.registry_cache.len() ==> ((
            #[trigger] self.registry_cache.deep_view()[i]).1 matches Poll::Ready(list)
                ==> well_listed(self@, self.registry_cache.deep_view()[i].0.1, list))
        &&& forall|i: int|
            0 <= i < self.summary_cache.len() ==> fewest_first(
                (#[trigger] self.summary_cache.deep_view()[i]).1.0.1,
            )
        &&& forall|i: int|
            0 <= i < self.used_replacements.len() ==> fits(
                (#[trigger] self.used_replacements.deep_view()[i]).0,
                self.used_replacements.deep_view()[i].1,
            )
    }

    pub fn new(
        registry: R,
        replacements: &'a [(PackageIdSpec, Dependency)],
        version_prefs: &'a VersionPreferences,
        minimal_versions: bool,
        max_rust_version: Option<PartialVersion>,
    ) -> (q: Self)
        ensures
            q.wf(),
            q.registry_value() == registry,
            q@ == (QueryerModel {
                replacements: replacements.deep_view(),
                preferred: version_prefs.deep_view(),
                minimal_versions,
                max_rust_version,
                registry_cache: Map::empty(),
                summary_cache: Map::empty(),
                used_replacements: Map::empty(),
            }),
    {
        let q = RegistryQueryer {
            registry,
            replacements,
            version_prefs,
            minimal_versions,
            max_rust_version,
            registry_cache: Vec::new(),
            summary_cache: Vec::new(),
            used_replacements: Vec::new(),
        };
        assert(q@.registry_cache =~= Map::empty());
        assert(q@.summary_cache =~= Map::empty());
        assert(q@.used_replacements =~= Map::empty());
        q
    }

    /// The place of the answer stored for `dep`, if there is one.
    fn find_answer(&self, dep: &Dependency, first_minimal_version: bool) -> (r: Option<usize>)
        ensures
            match r {
                Some(i) => i < self.registry_cache.len() && self.registry_cache.deep_view()[i as int].0
                    == (dep.deep_view(), first_minimal_version),
                None => !has_key(
                    self.registry_cache.deep_view(),
                    (dep.deep_view(), first_minimal_version),
                ),
            },
    {
        let ghost entries = self.registry_cache.deep_view();
        let mut i: usize = 0;
        while i < self.registry_cache.len()
            invariant
                i <= self.registry_cache.len(),
                entries == self.registry_cache.deep_view(),
                forall|j: int|
                    0 <= j < i ==> (#[trigger] entries[j]).0 != (
                        dep.deep_view(),
                        first_minimal_version,
                    ),
            decreases self.registry_cache.len() - i,
        {
            let entry = &self.registry_cache[i];
            assert(entries[i as int].0 == (entry.0.0.deep_view(), entry.0.1));
            if entry.0.1 == first_minimal_version && entry.0.0.same(dep) {
                return Some(i);
            }
            i += 1;
        }
        None
    }

    /// Stores an answer under a key that has none yet.
    fn store_answer(
        &mut self,
        dep: &Dependency,
        first_minimal_version: bool,
        answer: Poll<Rc<Vec<Summary>>>,
    )
        requires
            old(self).wf(),
            !old(self)@.registry_cache.contains_key((dep.deep_view(), first_minimal_version)),
            answer matches Poll::Ready(list) ==> well_listed(
                old(self)@,
                first_minimal_version,
                list.deep_view(),
            ),
        ensures
            final(self).wf(),
            final(self)@ == (QueryerModel {
                registry_cache: old(self)@.registry_cache.insert(
                    (dep.deep_view(), first_minimal_version),
                    answer.deep_view(),
                ),
                ..old(self)@
            }),
            final(self).registry_value() == old(self).registry_value(),
    {
        let ghost entries = self.registry_cache.deep_view();
        let ghost key = (dep.deep_view(), first_minimal_version);
        let ghost value = answer.deep_view();
        self.registry_cache.push(((dep.clone(), first_minimal_version), answer));
        proof {
            assert(self.registry_cache.deep_view() =~= entries.push((key, value)));
            lemma_push(entries, key, value);
            let now = self.registry_cache.deep_view();
            assert forall|j: int| 0 <= j < now.len() implies ((
            #[trigger] now[j]).1 matches Poll::Ready(list) ==> well_listed(
                self@,
                now[j].0.1,
                list,
            )) by {
                if j < entries.len() {
                    assert(now[j] == entries[j]);
                }
            }
        }
    }

    /// The place of the replacement recorded for `id`, if there is one.
    fn find_replacement(&self, id: &PackageId) -> (r: Option<usize>)
        ensures
            match r {
                Some(i) => i < self.used_replacements.len()
                    && self.used_replacements.deep_view()[i as int].0 == id.deep_view(),
                None => !has_key(self.used_replacements.deep_view(), id.deep_view()),
            },
    {
        let ghost entries = self.used_replacements.deep_view();
        let mut i: usize = 0;
        while i < self.used_replacements.len()
            invariant
                i <= self.used_replacements.len(),
                entries == self.used_replacements.deep_view(),
                forall|j: int| 0 <= j < i ==> (#[trigger] entries[j]).0 != id.deep_view(),
            decreases self.used_replacements.len() - i,
        {
            assert(entries[i as int].0 == self.used_replacements[i as int].0.deep_view());
            if self.used_replacements[i].0.same(id) {
                return Some(i);
            }
            i += 1;
        }
        None
    }

    /// Records that the package `id` is replaced by `replacement`, in place
    /// of what was recorded for it, if anything.
    pub fn record_replacement(&mut self, id: PackageId, replacement: Summary)
        requires
            old(self).wf(),
            fits(id.deep_view(), replacement.deep_view()),
        ensures
            final(self).wf(),
            final(self)@ == (QueryerModel {
                used_replacements: old(self)@.used_replacements.insert(
                    id.deep_view(),
                    replacement.deep_view(),
                ),
                ..old(self)@
            }),
            final(self).registry_value() == old(self).registry_value(),
    {
        let ghost entries = self.used_replacements.deep_view();
        let ghost key = id.deep_view();
        let ghost value = replacement.deep_view();
        match self.find_replacement(&id) {
            Some(i) => {
                self.used_replacements.set(i, (id, replacement));
                proof {
                    assert(self.used_replacements.deep_view() =~= entries.update(
                        i as int,
                        (entries[i as int].0, value),
                    ));
                    lemma_update(entries, i as int, value);
                    let now = self.used_replacements.deep_view();
                    assert forall|j: int| 0 <= j < now.len() implies fits(
                        (#[trigger] now[j]).0,
                        now[j].1,
                    ) by {
                        if j != i {
                            assert(now[j] == entries[j]);
                        }
                    }
                }
            },
            None => {
                self.used_replacements.push((id, replacement));
                proof {
                    assert(self.used_replacements.deep_view() =~= entries.push((key, value)));
                    lemma_push(entries, key, value);
                    let now = self.used_replacements.deep_view();
                    assert forall|j: int| 0 <= j < now.len() implies fits(
                        (#[trigger] now[j]).0,
                        now[j].1,
                    ) by {
                        if j < entries.len() {
                            assert(now[j] == entries[j]);
                        }
                    }
                }
            },
        }
    }

    /// Settles what becomes of `candidate`, which the rule at `first` is
    /// the first to match, once the registry has answered for that rule's
    /// dependency with `answer`: the replacement that comes out of it is
    /// recorded, an error is handed on and nothing is recorded.
    pub fn settle_override(&mut self, candidate: &Summary, first: usize, answer: Vec<Summary>) -> (r:
        Result<(), QueryError>)
        requires
            old(self).wf(),
            first < old(self)@.replacements.len(),
            first == first_match(old(self)@.replacements, candidate.deep_view().package_id, 0),
        ensures
            final(self).wf(),
            final(self).registry_value() == old(self).registry_value(),
            match rule_outcome(old(self)@.replacements, candidate.deep_view(), answer.deep_view()) {
                Ok(Some(replacement)) => r is Ok && final(self)@ == (QueryerModel {
                    used_replacements: old(self)@.used_replacements.insert(
                        candidate.deep_view().package_id,
                        replacement,
                    ),
                    ..old(self)@
                }),
                Ok(None) => r is Ok && final(self)@ == old(self)@,
                Err(e) => r matches Err(cause) && cause.deep_view() == e && final(self)@ == old(
                    self,
                )@,
            },
    {
        let rules = self.replacements;
        proof {
            lemma_outcome_fits(self@.replacements, candidate.deep_view(), answer.deep_view());
        }
        match decide_override(rules, candidate, first, answer) {
            Err(e) => Err(e),
            Ok(None) => Ok(()),
            Ok(Some(replacement)) => {
                self.record_replacement(candidate.package_id.clone(), replacement);
                Ok(())
            },
        }
    }

    /// The candidates for `dep`, in the order in which they are to be tried.
    ///
    /// An answer in the cache is handed out as it is. Otherwise the registry
    /// is asked. Candidates that need too new a toolchain are dropped. For
    /// each candidate that an override matches, the registry is asked for
    /// the replacement, which is recorded. The list is put in order, stored
    /// and handed out. A pending answer, for the dependency or for a
    /// replacement, is stored for the dependency and reported; an error is
    /// reported and not stored.
    ///
    /// Where the registry answers an override with one package of another
    /// name or version than the candidate, the error
    /// [`QueryError::ReplacementMismatch`] is reported.
    pub fn query(&mut self, dep: &Dependency, first_minimal_version: bool) -> (out: Poll<
        Result<Rc<Vec<Summary>>, QueryError>,
    >)
        requires
            old(self).wf(),
        ensures
            final(self).wf(),
            query_post(
                old(self)@,
                dep.deep_view(),
                first_minimal_version,
                answer_model(out),
                final(self)@,
            ),
            old(self)@.registry_cache.contains_key((dep.deep_view(), first_minimal_version))
                ==> final(self).registry_value() == old(self).registry_value(),
    {
        let ghost pre = self@;
        let ghost key = (dep.deep_view(), first_minimal_version);
        if let Some(i) = self.find_answer(dep, first_minimal_version) {
            proof {
                lemma_entry(self.registry_cache.deep_view(), i as int);
                assert(self.registry_cache.deep_view()[i as int].1
                    == self.registry_cache[i as int].1.deep_view());
            }
            return match &self.registry_cache[i].1 {
                Poll::Ready(list) => Poll::Ready(Ok(share(list))),
                Poll::Pending => Poll::Pending,
            };
        }
        let rules = self.replacements;
        let answer = match self.registry.query_vec(dep, QueryKind::Exact) {
            Poll::Pending => {
                self.store_answer(dep, first_minimal_version, Poll::Pending);
                return Poll::Pending;
            },
            Poll::Ready(Err(e)) => {
                return Poll::Ready(Err(QueryError::Registry(e)));
            },
            Poll::Ready(Ok(v)) => v,
        };
        let mut ret = admit_candidates(answer, &self.max_rust_version);
        let ghost cands = ret.deep_view();
        let mut j: usize = 0;
        while j < ret.len()
            invariant
                j <= ret.len(),
                self.wf(),
                pre == old(self)@,
                cands == ret.deep_view(),
                rules.deep_view() == pre.replacements,
                same_settings(pre, self@),
                self@.summary_cache == pre.summary_cache,
                self@.registry_cache == pre.registry_cache,
                !pre.registry_cache.contains_key(key),
                key == (dep.deep_view(), first_minimal_version),
                forall|i: int|
                    0 <= i < j ==> !doubly_matched(
                        pre.replacements,
                        (#[trigger] cands[i]).package_id,
                    ),
                forall|id: PackageIdModel|
                    replacement_explained(
                        pre.replacements,
                        pre.used_replacements,
                        self@.used_replacements,
                        id,
                    ),
                touched_within(pre.used_replacements, self@.used_replacements, cands.take(j as int)),
            decreases ret.len() - j,
        {
            let ghost now = self@;
            let ghost cand = cands[j as int];
            assert(cand == ret[j as int].deep_view());
            proof {
                lemma_first_match(pre.replacements, cand.package_id, 0);
            }
            match find_override(rules, &ret[j].package_id, 0) {
                None => {
                    assert(!doubly_matched(pre.replacements, cand.package_id));
                },
                Some(a) => {
                    let found = match self.registry.query_vec(&rules[a].1, QueryKind::Exact) {
                        Poll::Pending => {
                            self.store_answer(dep, first_minimal_version, Poll::Pending);
                            return Poll::Pending;
                        },
                        Poll::Ready(Err(e)) => {
                            return Poll::Ready(Err(QueryError::Registry(e)));
                        },
                        Poll::Ready(Ok(v)) => v,
                    };
                    proof {
                        lemma_outcome_explained(pre.replacements, cand, found.deep_view());
                        lemma_outcome_fits(pre.replacements, cand, found.deep_view());
                    }
                    match self.settle_override(&ret[j], a, found) {
                        Err(e) => {
                            return Poll::Ready(Err(e));
                        },
                        Ok(()) => {},
                    }
                },
            }
            proof {
                let grown = cands.take(j as int + 1);
                assert forall|id: PackageIdModel|
                    replacement_explained(
                        pre.replacements,
                        pre.used_replacements,
                        self@.used_replacements,
                        id,
                    ) by {
                    assert(replacement_explained(
                        pre.replacements,
                        pre.used_replacements,
                        now.used_replacements,
                        id,
                    ));
                }
                assert forall|id: PackageIdModel|
                    !untouched(
                        pre.used_replacements,
                        self@.used_replacements,
                        id,
                    ) implies exists|i: int|
                    0 <= i < grown.len() && (#[trigger] grown[i]).package_id == id by {
                    if untouched(pre.used_replacements, now.used_replacements, id) {
                        assert(id == cand.package_id);
                        assert(grown[j as int].package_id == id);
                    } else {
                        let i = choose|i: int|
                            0 <= i < cands.take(j as int).len() && (#[trigger] cands.take(
                                j as int,
                            )[i]).package_id == id;
                        assert(grown[i].package_id == id);
                    }
                }
            }
            j += 1;
        }
        // The candidates are tried in order, the best first: the
        // preferences say which those are.
        let ordering = choose_ordering(first_minimal_version, self.minimal_versions);
        self.version_prefs.sort_summaries(&mut ret, ordering, first_minimal_version);
        let ghost list = ret.deep_view();
        proof {
            lemma_same_members(list, cands);
            assert(cands.take(cands.len() as int) =~= cands);
            assert forall|i: int| 0 <= i < list.len() implies toolchain_admits(
                pre.max_rust_version,
                (#[trigger] list[i]).rust_version,
            ) && !doubly_matched(pre.replacements, list[i].package_id) by {
                assert(list.contains(list[i]));
                assert(cands.contains(list[i]));
                let k = choose|k: int| 0 <= k < cands.len() && cands[k] == list[i];
                assert(!doubly_matched(pre.replacements, cands[k].package_id));
            }
            assert forall|id: PackageIdModel|
                !untouched(pre.used_replacements, self@.used_replacements, id) implies exists|
                i: int,
            | 0 <= i < list.len() && (#[trigger] list[i]).package_id == id by {
                let i = choose|i: int| 0 <= i < cands.len() && (#[trigger] cands[i]).package_id == id;
                assert(cands.contains(cands[i]));
                assert(list.contains(cands[i]));
                let k = choose|k: int| 0 <= k < list.len() && list[k] == cands[i];
                assert(list[k].package_id == id);
            }
        }
        let out = Rc::new(ret);
        self.store_answer(dep, first_minimal_version, Poll::Ready(share(&out)));
        Poll::Ready(Ok(out))
    }

    /// Takes the pending answers and the incomplete expansions out of the
    /// cache, so that they are computed anew. Returns whether there were
    /// none: the cache was settled.
    pub fn reset_pending(&mut self) -> (all_ready: bool)
        requires
            old(self).wf(),
        ensures
            final(self).wf(),
            reset_post(old(self)@, all_ready, final(self)@),
            final(self).registry_value() == old(self).registry_value(),
    {
        let ghost pre = self@;
        let ghost answers = self.registry_cache.deep_view();
        let mut all_ready = true;
        let mut kept: Vec<((Dependency, bool), Poll<Rc<Vec<Summary>>>)> = Vec::new();
        while self.registry_cache.len() > 0
            invariant
                distinct_keys(answers),
                self.registry_cache.len() <= answers.len(),
                self.registry_cache.deep_view() == answers.take(self.registry_cache.len() as int),
                self.summary_cache == old(self).summary_cache,
                self.used_replacements == old(self).used_replacements,
                self.replacements == old(self).replacements,
                self.version_prefs == old(self).version_prefs,
                self.minimal_versions == old(self).minimal_versions,
                self.max_rust_version == old(self).max_rust_version,
                self.registry == old(self).registry,
                kept_from(
                    answers,
                    self.registry_cache.len() as int,
                    kept.deep_view(),
                    is_settled(),
                    all_ready,
                ),
            decreases self.registry_cache.len(),
        {
            let ghost n = self.registry_cache.len() as int;
            let ghost was = kept.deep_view();
            assert(self.registry_cache.deep_view()[n - 1] == self.registry_cache@[n - 1].deep_view());
            let entry = self.registry_cache.pop().unwrap();
            assert(self.registry_cache.deep_view() =~= answers.take(n - 1));
            proof {
                lemma_keep_step(answers, n, was, is_settled(), all_ready);
            }
            if entry.1.is_ready() {
                kept.push(entry);
                assert(kept.deep_view() =~= was.push(answers[n - 1]));
            } else {
                all_ready = false;
            }
        }
        proof {
            lemma_kept_all(answers, kept.deep_view(), is_settled(), all_ready);
        }
        self.registry_cache = kept;
        proof {
            let now = self.registry_cache.deep_view();
            assert forall|i: int| 0 <= i < now.len() implies ((
            #[trigger] now[i]).1 matches Poll::Ready(list) ==> well_listed(
                self@,
                now[i].0.1,
                list,
            )) by {
                assert(answers.contains(now[i]));
                let j = choose|j: int| 0 <= j < answers.len() && answers[j] == now[i];
                assert(answers[j].1 matches Poll::Ready(list) ==> well_listed(
                    pre,
                    answers[j].0.1,
                    list,
                ));
            }
        }
        let ghost expansions = self.summary_cache.deep_view();
        let ghost settled = self.registry_cache.deep_view();
        let mut all_complete = true;
        let mut complete: Vec<((Option<PackageId>, PackageId, ResolveOpts), (Expansion, bool))> =
            Vec::new();
        while self.summary_cache.len() > 0
            invariant
                distinct_keys(expansions),
                self.summary_cache.len() <= expansions.len(),
                self.summary_cache.deep_view() == expansions.take(self.summary_cache.len() as int),
                self.registry_cache.deep_view() == settled,
                self.used_replacements == old(self).used_replacements,
                self.replacements == old(self).replacements,
                self.version_prefs == old(self).version_prefs,
                self.minimal_versions == old(self).minimal_versions,
                self.max_rust_version == old(self).max_rust_version,
                self.registry == old(self).registry,
                kept_from(
                    expansions,
                    self.summary_cache.len() as int,
                    complete.deep_view(),
                    is_complete(),
                    all_complete,
                ),
            decreases self.summary_cache.len(),
        {
            let ghost n = self.summary_cache.len() as int;
            let ghost was = complete.deep_view();
            assert(self.summary_cache.deep_view()[n - 1] == self.summary_cache@[n - 1].deep_view());
            let entry = self.summary_cache.pop().unwrap();
            assert(self.summary_cache.deep_view() =~= expansions.take(n - 1));
            proof {
                lemma_keep_step(expansions, n, was, is_complete(), all_complete);
            }
            if entry.1.1 {
                complete.push(entry);
                assert(complete.deep_view() =~= was.push(expansions[n - 1]));
            } else {
                all_complete = false;
            }
        }
        proof {
            lemma_kept_all(expansions, complete.deep_view(), is_complete(), all_complete);
            let now = complete.deep_view();
            assert forall|i: int| 0 <= i < now.len() implies fewest_first(
                (#[trigger] now[i]).1.0.1,
            ) by {
                assert(expansions.contains(now[i]));
                let j = choose|j: int| 0 <= j < expansions.len() && expansions[j] == now[i];
                assert(fewest_first(expansions[j].1.0.1));
            }
        }
        self.summary_cache = complete;
        all_ready && all_complete
    }

    /// The identity of the package that replaced `p`, with `p` itself, if
    /// an override replaced it. The replacing package has the name and the
    /// version of `p`, and another source.
    pub fn used_replacement_for(&self, p: PackageId) -> (r: Option<(PackageId, PackageId)>)
        requires
            self.wf(),
        ensures
            match r {
                Some((replaced, by)) => self@.used_replacements.contains_key(p.deep_view())
                    && replaced.deep_view() == p.deep_view() && by.deep_view()
                    == self@.used_replacements[p.deep_view()].package_id && fits(
                    p.deep_view(),
                    self@.used_replacements[p.deep_view()],
                ),
                None => !self@.used_replacements.contains_key(p.deep_view()),
            },
    {
        match self.find_replacement(&p) {
            Some(i) => {
                proof {
                    lemma_entry(self.used_replacements.deep_view(), i as int);
                }
                let by = self.used_replacements[i].1.package_id.clone();
                Some((p, by))
            },
            None => None,
        }
    }

    /// The package that replaced `p`, if an override replaced it. It has
    /// the name and the version of `p`, and another source.
    pub fn replacement_summary(&self, p: PackageId) -> (r: Option<&Summary>)
        requires
            self.wf(),
        ensures
            match r {
                Some(s) => self@.used_replacements.contains_key(p.deep_view()) && s.deep_view()
                    == self@.used_replacements[p.deep_view()] && fits(p.deep_view(), s.deep_view()),
                None => !self@.used_replacements.contains_key(p.deep_view()),
            },
    {
        match self.find_replacement(&p) {
            Some(i) => {
                proof {
                    lemma_entry(self.used_replacements.deep_view(), i as int);
                }
                Some(&self.used_replacements[i].1)
            },
            None => None,
        }
    }

    /// The place of the expansion stored for the key, if there is one.
    fn find_expansion(&self, parent: &Option<PackageId>, candidate: &PackageId, opts: &ResolveOpts)
        -> (r: Option<usize>)
        ensures
            match r {
                Some(i) => i < self.summary_cache.len() && self.summary_cache.deep_view()[i as int].0
                    == (parent.deep_view(), candidate.deep_view(), opts.deep_view()),
                None => !has_key(
                    self.summary_cache.deep_view(),
                    (parent.deep_view(), candidate.deep_view(), opts.deep_view()),
                ),
            },
    {
        let ghost entries = self.summary_cache.deep_view();
        let ghost key = (parent.deep_view(), candidate.deep_view(), opts.deep_view());
        let mut i: usize = 0;
        while i < self.summary_cache.len()
            invariant
                i <= self.summary_cache.len(),
                entries == self.summary_cache.deep_view(),
                key == (parent.deep_view(), candidate.deep_view(), opts.deep_view()),
                forall|j: int| 0 <= j < i ==> (#[trigger] entries[j]).0 != key,
            decreases self.summary_cache.len() - i,
        {
            let entry = &self.summary_cache[i];
            assert(entries[i as int].0 == (
                entry.0.0.deep_view(),
                entry.0.1.deep_view(),
                entry.0.2.deep_view(),
            ));
            if same_parent(&entry.0.0, parent) && entry.0.1.same(candidate) && entry.0.2.same(opts) {
                return Some(i);
            }
            i += 1;
        }
        None
    }

    /// Finds out what activating `candidate` with the features of `opts`
    /// entails: the features it ends up with, and for each dependency that
    /// it then has the candidates that the registry offers.
    ///
    /// A dependency whose candidates are still pending is left out, and the
    /// expansion is stored as incomplete, to be computed anew after
    /// [`Self::reset_pending`].
    pub fn build_deps<C: Context>(
        &mut self,
        cx: &C,
        parent: Option<PackageId>,
        candidate: &Summary,
        opts: &ResolveOpts,
        first_minimal_version: bool,
    ) -> (r: Result<Expansion, ActivateError>)
        requires
            old(self).wf(),
        ensures
            final(self).wf(),
            build_deps_post(
                old(self)@,
                parent.deep_view(),
                candidate.deep_view(),
                opts.deep_view(),
                first_minimal_version,
                expansion_model(r),
                final(self)@,
            ),
            registry_spared(old(self)@, parent.deep_view(), candidate.deep_view(), opts.deep_view())
                ==> final(self).registry_value() == old(self).registry_value(),
    {
        let ghost pre = self@;
        let ghost key = (parent.deep_view(), candidate.deep_view().package_id, opts.deep_view());
        // If the result was calculated before, it is handed out again.
        if let Some(i) = self.find_expansion(&parent, &candidate.package_id, opts) {
            proof {
                lemma_entry(self.summary_cache.deep_view(), i as int);
            }
            return Ok(share(&self.summary_cache[i].1.0));
        }
        // First, the dependencies that the features asked for turn on, and
        // the features wanted of each.
        let (used_features, deps) = match resolve_features(clone_parent(&parent), candidate, opts) {
            Ok(x) => x,
            Err(e) => {
                return Err(e);
            },
        };
        let ghost used = used_features.deep_view();
        let ghost requested = deps.deep_view();
        let ghost raw = deps@;
        // Next, the candidates that can satisfy each dependency.
        let mut all_ready = true;
        let mut found: Vec<DepInfo> = Vec::new();
        assert(found.deep_view() =~= Seq::<DepInfoModel>::empty());
        assert(requested.take(0) =~= Seq::empty());
        for entry in it: deps
            invariant
                self.wf(),
                pre == old(self)@,
                it.seq() == raw,
                requested.len() == raw.len(),
                forall|j: int| 0 <= j < raw.len() ==> requested[j] == raw[j].deep_view(),
                same_settings(pre, self@),
                self@.summary_cache == pre.summary_cache,
                answers_stay(pre.registry_cache, self@.registry_cache),
                forall|id: PackageIdModel|
                    replacement_explained(
                        pre.replacements,
                        pre.used_replacements,
                        self@.used_replacements,
                        id,
                    ),
                key == (parent.deep_view(), candidate.deep_view().package_id, opts.deep_view()),
                !pre.summary_cache.contains_key(key),
                resolved(parent.deep_view(), candidate.deep_view(), opts.deep_view()) == Ok::<
                    (Seq<Name>, Requested),
                    ActivateErrorModel,
                >((used, requested)),
                it.index() == 0 ==> self.registry == old(self).registry,
                forall|j: int|
                    0 <= j < it.index() ==> self@.registry_cache.contains_key(
                        ((#[trigger] requested[j]).0, first_minimal_version),
                    ),
                found.deep_view() == listed(
                    requested.take(it.index() as int),
                    self@.registry_cache,
                    first_minimal_version,
                ),
                all_ready == all_listed(
                    requested.take(it.index() as int),
                    self@.registry_cache,
                    first_minimal_version,
                ),
        {
            let ghost k = it.index() as int;
            let ghost now = self@;
            let ghost before = requested.take(k);
            let ghost grown = requested.take(k + 1);
            let ghost qkey = (entry.0.deep_view(), first_minimal_version);
            assert(0 <= k < requested.len());
            assert(requested[k] == entry.deep_view());
            let dep_name = entry.0.package_name.clone();
            let answer = self.query(&entry.0, first_minimal_version);
            proof {
                assert(grown.drop_last() =~= before);
                assert(grown.last() == requested[k]);
                assert forall|j: int| 0 <= j < before.len() implies now.registry_cache.contains_key(
                    ((#[trigger] before[j]).0, first_minimal_version),
                ) by {
                    assert(before[j] == requested[j]);
                }
                lemma_listed_stays(before, now.registry_cache, self@.registry_cache, first_minimal_version);
                assert forall|kk: QueryKey|
                    pre.registry_cache.contains_key(kk) implies #[trigger] self@.registry_cache.contains_key(
                    kk,
                ) && self@.registry_cache[kk] == pre.registry_cache[kk] by {
                    assert(now.registry_cache.contains_key(kk));
                }
                assert forall|id: PackageIdModel|
                    replacement_explained(
                        pre.replacements,
                        pre.used_replacements,
                        self@.used_replacements,
                        id,
                    ) by {
                    assert(replacement_explained(
                        pre.replacements,
                        pre.used_replacements,
                        now.used_replacements,
                        id,
                    ));
                    assert(replacement_explained(
                        pre.replacements,
                        now.used_replacements,
                        self@.used_replacements,
                        id,
                    ));
                }
                assert forall|j: int| 0 <= j < k implies self@.registry_cache.contains_key(
                    ((#[trigger] requested[j]).0, first_minimal_version),
                ) by {
                    assert(now.registry_cache.contains_key((requested[j].0, first_minimal_version)));
                }
                if answer_model(answer) is Ready && answer_model(answer)->Ready_0 is Err {
                    assert(!self@.registry_cache.contains_key(qkey));
                    lemma_first_unanswered(requested, self@.registry_cache, first_minimal_version, 0, k);
                } else {
                    assert(self@.registry_cache.contains_key(qkey));
                    if all_listed(before, self@.registry_cache, first_minimal_version) && has_list(
                        self@.registry_cache,
                        first_minimal_version,
                        requested[k].0,
                    ) {
                        assert forall|j: int| 0 <= j < grown.len() implies has_list(
                            self@.registry_cache,
                            first_minimal_version,
                            (#[trigger] grown[j]).0,
                        ) by {
                            if j < k {
                                assert(grown[j] == before[j]);
                            }
                        }
                    }
                    if all_listed(grown, self@.registry_cache, first_minimal_version) {
                        assert(has_list(self@.registry_cache, first_minimal_version, grown[k].0));
                        assert forall|j: int| 0 <= j < before.len() implies has_list(
                            self@.registry_cache,
                            first_minimal_version,
                            (#[trigger] before[j]).0,
                        ) by {
                            assert(grown[j] == before[j]);
                        }
                    }
                }
            }
            match take_answer(&mut found, entry.0, entry.1, answer) {
                Ok(ready) => {
                    if !ready {
                        all_ready = false;
                    }
                },
                Err(cause) => {
                    let path = cx.describe_path(&candidate.package_id);
                    return Err(failed_query(dep_name, &candidate.package_id, path, cause));
                },
            }
        }
        assert(requested.take(requested.len() as int) =~= requested);
        // Dependencies with fewer candidates are taken up first: if one
        // with a single candidate cannot be resolved, that shows before
        // much work is done.
        let ghost found_model = found.deep_view();
        let sorted = order_deps(found);
        let ghost sorted_model = sorted.deep_view();
        let out: Expansion = Rc::new((used_features, Rc::new(sorted)));
        let ghost exp = out.deep_view();
        assert(exp == (used, sorted_model));
        assert(found_model == listed(requested, self@.registry_cache, first_minimal_version));
        let stored = share(&out);
        let ghost entries = self.summary_cache.deep_view();
        let ghost asked = self@;
        // A failure is not stored: the next call computes it again.
        self.summary_cache.push(
            ((parent, candidate.package_id.clone(), opts.clone()), (stored, all_ready)),
        );
        proof {
            assert(self.summary_cache.deep_view() =~= entries.push((key, (exp, all_ready))));
            lemma_push(entries, key, (exp, all_ready));
            assert(self@.used_replacements == asked.used_replacements);
            assert(self@.registry_cache == asked.registry_cache);
            assert forall|id: PackageIdModel|
                replacement_explained(
                    pre.replacements,
                    pre.used_replacements,
                    self@.used_replacements,
                    id,
                ) by {
                assert(replacement_explained(
                    pre.replacements,
                    pre.used_replacements,
                    asked.used_replacements,
                    id,
                ));
            }
        }
        Ok(out)
    }
}

} // verus!
