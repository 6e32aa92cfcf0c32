//! What holds of authorizing policies, and of authorizing them again once unknowns have values.

use smol_str::SmolStr;
use std::sync::Arc;
use vstd::prelude::*;

use crate::authorizer::{Authorizer, Evaluation};
use crate::expr::{Expr, ExprView, LiteralView, Value};
use crate::laws::{expressions, policies, responses};
use crate::model::{PartialResponseView, ResidualView, Standing};
use crate::partial_response::{ErrorState, PartialResponse};
use crate::policy::{
    ActionConstraint, Annotations, Effect, Policy, PolicySet, PolicySetError,
    PrincipalOrResourceConstraint, PolicyView,
};
use crate::policy_id::PolicyID;
use crate::response::{AuthorizationError, AuthorizationErrorView, Decision};
use crate::text::{TextKey, TextMap};
use crate::{laws, model, policy, response};

verus! {

/// The satisfied policies of a response with the given effect, with their annotations.
pub open spec fn satisfied(response: PartialResponse, effect: Effect) -> Map<
    Seq<char>,
    Arc<Annotations>,
> {
    match effect {
        Effect::Permit => response.satisfied_permits@,
        Effect::Forbid => response.satisfied_forbids@,
    }
}

/// The policies of a response with the given effect that are not satisfied.
pub open spec fn unsatisfied(response: PartialResponse, effect: Effect) -> Map<
    Seq<char>,
    (ErrorState, Arc<Annotations>),
> {
    match effect {
        Effect::Permit => response.false_permits@,
        Effect::Forbid => response.false_forbids@,
    }
}

/// The policies of a response with the given effect that have a residual.
pub open spec fn residual(response: PartialResponse, effect: Effect) -> Map<
    Seq<char>,
    (Arc<Expr>, Arc<Annotations>),
> {
    match effect {
        Effect::Permit => response.residual_permits@,
        Effect::Forbid => response.residual_forbids@,
    }
}

/// The evaluator may have given the outcomes for the policies, one for each.
pub open spec fn evaluated<R, S, F: Fn(&R, &S, &Policy) -> Evaluation>(
    auth: Authorizer<F>,
    r: R,
    es: &S,
    policies: Seq<Policy>,
    outcomes: Seq<Evaluation>,
) -> bool {
    &&& outcomes.len() == policies.len()
    &&& forall|i: int|
        0 <= i < policies.len() ==> call_ensures(
            auth.evaluate,
            (&r, es, &policies[i]),
            #[trigger] outcomes[i],
        )
}

/// The response holds the policy, with its annotations, in the category that its outcome asks for:
/// a residual with exactly the expression that the evaluation left.
pub open spec fn entered(
    response: PartialResponse,
    policy: PolicyView,
    outcome: Evaluation,
) -> bool {
    let (effect, id) = (policy.effect, policy.id);
    match outcome {
        Evaluation::Value(true) => satisfied(response, effect).contains_key(id) && satisfied(
            response,
            effect,
        )[id] == policy.annotations,
        Evaluation::Value(false) => unsatisfied(response, effect).contains_key(id) && unsatisfied(
            response,
            effect,
        )[id] == (ErrorState::NoError, policy.annotations),
        Evaluation::Residual(expr) => residual(response, effect).contains_key(id) && residual(
            response,
            effect,
        )[id].0@ == expr@ && residual(response, effect)[id].1 == policy.annotations,
        Evaluation::Error(_) => unsatisfied(response, effect).contains_key(id) && unsatisfied(
            response,
            effect,
        )[id] == (ErrorState::Error, policy.annotations),
    }
}

/// One of the policies has the given effect and identifier, and its evaluation made it satisfied.
pub open spec fn was_satisfied(
    policies: Seq<Policy>,
    outcomes: Seq<Evaluation>,
    effect: Effect,
    id: Seq<char>,
) -> bool {
    exists|i: int|
        0 <= i < policies.len() && (#[trigger] policies[i])@.effect == effect && policies[i]@.id
            == id && outcomes[i] == Evaluation::Value(true)
}

/// One of the policies has the given effect and identifier, and its evaluation gave `false` or
/// failed.
pub open spec fn was_unsatisfied(
    policies: Seq<Policy>,
    outcomes: Seq<Evaluation>,
    effect: Effect,
    id: Seq<char>,
) -> bool {
    exists|i: int|
        0 <= i < policies.len() && (#[trigger] policies[i])@.effect == effect && policies[i]@.id
            == id && (outcomes[i] == Evaluation::Value(false) || outcomes[i] is Error)
}

/// One of the policies has the given effect and identifier, and its evaluation left a residual.
pub open spec fn was_left(
    policies: Seq<Policy>,
    outcomes: Seq<Evaluation>,
    effect: Effect,
    id: Seq<char>,
) -> bool {
    exists|i: int|
        0 <= i < policies.len() && (#[trigger] policies[i])@.effect == effect && policies[i]@.id
            == id && outcomes[i] is Residual
}

/// The error is that of the given policy, and says why its evaluation failed.
pub open spec fn is_failure_of(
    error: AuthorizationError,
    policy: Policy,
    outcome: Evaluation,
) -> bool {
    match (error, outcome) {
        (
            AuthorizationError::PolicyEvaluationError { id, error: why },
            Evaluation::Error(failure),
        ) => id.text() == policy@.id && responses::same_failure(why, failure),
        _ => false,
    }
}

/// The errors are those of the policies at the given positions, which are in order and are those
/// of all policies whose evaluation failed.
pub open spec fn failures_at(
    errors: Seq<AuthorizationError>,
    policies: Seq<Policy>,
    outcomes: Seq<Evaluation>,
    positions: Seq<int>,
) -> bool {
    &&& errors.len() == positions.len()
    &&& forall|j: int|
        0 <= j < positions.len() ==> 0 <= #[trigger] positions[j] < policies.len()
            && is_failure_of(errors[j], policies[positions[j]], outcomes[positions[j]])
    &&& forall|j: int, k: int| 0 <= j < k < positions.len() ==> positions[j] < positions[k]
    &&& forall|i: int|
        0 <= i < outcomes.len() && #[trigger] outcomes[i] is Error ==> positions.contains(i)
}

/// The response sorts the policies by what the evaluation of each gave, and holds nothing else.
pub open spec fn sorted_by(
    response: PartialResponse,
    policies: Seq<Policy>,
    outcomes: Seq<Evaluation>,
) -> bool {
    &&& forall|i: int|
        0 <= i < policies.len() ==> entered(response, (#[trigger] policies[i])@, outcomes[i])
    &&& forall|effect: Effect, id: Seq<char>| #[trigger]
        satisfied(response, effect).contains_key(id) ==> was_satisfied(
            policies,
            outcomes,
            effect,
            id,
        )
    &&& forall|effect: Effect, id: Seq<char>| #[trigger]
        unsatisfied(response, effect).contains_key(id) ==> was_unsatisfied(
            policies,
            outcomes,
            effect,
            id,
        )
    &&& forall|effect: Effect, id: Seq<char>| #[trigger]
        residual(response, effect).contains_key(id) ==> was_left(policies, outcomes, effect, id)
    &&& exists|positions: Seq<int>| #[trigger]
        failures_at(response.errors@, policies, outcomes, positions)
}

/// What the model of a response holds of a policy, by what its evaluation gave.
spec fn entered_view(
    response: PartialResponseView,
    policy: PolicyView,
    outcome: Evaluation,
) -> bool {
    let id = policy.id;
    let annotations = policy.annotations;
    match (outcome, policy.effect) {
        (Evaluation::Value(true), Effect::Permit) => response.satisfied_permits.contains_key(id)
            && response.satisfied_permits[id] == annotations,
        (Evaluation::Value(true), Effect::Forbid) => response.satisfied_forbids.contains_key(id)
            && response.satisfied_forbids[id] == annotations,
        (Evaluation::Value(false), Effect::Permit) => response.false_permits.contains_key(id)
            && response.false_permits[id] == (ErrorState::NoError, annotations),
        (Evaluation::Value(false), Effect::Forbid) => response.false_forbids.contains_key(id)
            && response.false_forbids[id] == (ErrorState::NoError, annotations),
        (Evaluation::Residual(expr), Effect::Permit) => response.residual_permits.contains_key(id)
            && response.residual_permits[id] == (expr@, annotations),
        (Evaluation::Residual(expr), Effect::Forbid) => response.residual_forbids.contains_key(id)
            && response.residual_forbids[id] == (expr@, annotations),
        (Evaluation::Error(_), Effect::Permit) => response.false_permits.contains_key(id)
            && response.false_permits[id] == (ErrorState::Error, annotations),
        (Evaluation::Error(_), Effect::Forbid) => response.false_forbids.contains_key(id)
            && response.false_forbids[id] == (ErrorState::Error, annotations),
    }
}

/// Policies with distinct identifiers are all entered as their outcomes ask.
proof fn lemma_all_are_entered(policies: Seq<PolicyView>, outcomes: Seq<Evaluation>, i: int)
    requires
        policies.len() == outcomes.len(),
        forall|j: int, k: int|
            #![trigger policies[j], policies[k]]
            0 <= j < k < policies.len() ==> policies[j].id != policies[k].id,
        0 <= i < policies.len(),
    ensures
        entered_view(PartialResponseView::classify(policies, outcomes), policies[i], outcomes[i]),
    decreases policies.len(),
{
    let (ps, os) = (policies.drop_last(), outcomes.drop_last());
    let last = policies.len() - 1;
    if i < last {
        assert(ps[i] == policies[i] && os[i] == outcomes[i]);
        assert forall|j: int, k: int| #![trigger ps[j], ps[k]]
            0 <= j < k < ps.len() implies ps[j].id != ps[k].id by {
            assert(ps[j] == policies[j] && ps[k] == policies[k]);
        }
        lemma_all_are_entered(ps, os, i);
        assert(policies[i].id != policies[last].id);
    }
}

/// The positions of the policies whose evaluation failed, in order, with their errors.
proof fn lemma_failures(policies: Seq<PolicyView>, outcomes: Seq<Evaluation>) -> (positions: Seq<
    int,
>)
    requires
        policies.len() == outcomes.len(),
    ensures
        ({
            let errors = PartialResponseView::classify(policies, outcomes).errors;
            &&& errors.len() == positions.len()
            &&& forall|j: int|
                0 <= j < positions.len() ==> 0 <= #[trigger] positions[j] < policies.len()
                    && outcomes[positions[j]] is Error && errors[j] == (
                AuthorizationErrorView::PolicyEvaluationError {
                    id: policies[positions[j]].id,
                    error: outcomes[positions[j]]->Error_0@,
                })
            &&& forall|j: int, k: int| 0 <= j < k < positions.len() ==> positions[j] < positions[k]
            &&& forall|i: int|
                0 <= i < outcomes.len() && #[trigger] outcomes[i] is Error ==> positions.contains(i)
        }),
    decreases policies.len(),
{
    if policies.len() == 0 {
        Seq::empty()
    } else {
        let (ps, os) = (policies.drop_last(), outcomes.drop_last());
        let last = policies.len() - 1;
        let before = lemma_failures(ps, os);
        let errors = PartialResponseView::classify(ps, os).errors;
        let now = PartialResponseView::classify(policies, outcomes).errors;
        let positions = if outcomes[last] is Error {
            before.push(last)
        } else {
            before
        };
        assert(outcomes[last] is Error ==> now.len() == errors.len() + 1);
        assert forall|j: int| 0 <= j < positions.len() implies 0 <= #[trigger] positions[j]
            < policies.len() && outcomes[positions[j]] is Error && now[j] == (
        AuthorizationErrorView::PolicyEvaluationError {
            id: policies[positions[j]].id,
            error: outcomes[positions[j]]->Error_0@,
        }) by {
            if j < before.len() {
                assert(positions[j] == before[j]);
                assert(ps[before[j]] == policies[before[j]]);
                assert(os[before[j]] == outcomes[before[j]]);
                assert(now[j] == errors[j]);
            }
        }
        assert forall|j: int, k: int| 0 <= j < k < positions.len() implies positions[j]
            < positions[k] by {
            assert(positions[j] == before[j]);
            if k < before.len() {
                assert(positions[k] == before[k]);
            }
        }
        assert forall|i: int|
            0 <= i < outcomes.len() && #[trigger] outcomes[i] is Error implies positions.contains(
            i,
        ) by {
            if i < last {
                assert(os[i] == outcomes[i]);
                assert(before.contains(i));
                let j = choose|j: int| 0 <= j < before.len() && before[j] == i;
                assert(positions[j] == i);
            } else {
                assert(positions[before.len() as int] == i);
            }
        }
        positions
    }
}

/// A response that classifies policies with distinct identifiers sorts them by their outcomes.
proof fn lemma_sorted(response: PartialResponse, policies: Seq<Policy>, outcomes: Seq<Evaluation>)
    requires
        policies.len() == outcomes.len(),
        policy::policy_ids(policy::policy_views(policies)).no_duplicates(),
        response@ == PartialResponseView::classify(policy::policy_views(policies), outcomes),
    ensures
        sorted_by(response, policies, outcomes),
{
    let views = policy::policy_views(policies);
    let ids = policy::policy_ids(views);
    assert forall|j: int, k: int| #![trigger views[j], views[k]]
        0 <= j < k < views.len() implies views[j].id != views[k].id by {
        assert(ids[j] == views[j].id && ids[k] == views[k].id);
    }
    assert forall|i: int| 0 <= i < policies.len() implies entered(
        response,
        (#[trigger] policies[i])@,
        outcomes[i],
    ) by {
        lemma_all_are_entered(views, outcomes, i);
        assert(views[i] == policies[i]@);
    }
    assert forall|effect: Effect, id: Seq<char>| #[trigger]
        satisfied(response, effect).contains_key(id) implies was_satisfied(
        policies,
        outcomes,
        effect,
        id,
    ) by {
        model::lemma_classify_ids(views, outcomes, effect, Standing::Satisfied, id);
        assert(response@.ids(effect, Standing::Satisfied).contains(id));
        let i = choose|i: int|
            #![trigger views[i]]
            0 <= i < views.len() && views[i].id == id && views[i].effect == effect && Standing::of(
                outcomes[i],
            ) == Standing::Satisfied;
        assert(views[i] == policies[i]@);
    }
    assert forall|effect: Effect, id: Seq<char>| #[trigger]
        unsatisfied(response, effect).contains_key(id) implies was_unsatisfied(
        policies,
        outcomes,
        effect,
        id,
    ) by {
        model::lemma_classify_ids(views, outcomes, effect, Standing::False, id);
        assert(response@.ids(effect, Standing::False).contains(id));
        let i = choose|i: int|
            #![trigger views[i]]
            0 <= i < views.len() && views[i].id == id && views[i].effect == effect && Standing::of(
                outcomes[i],
            ) == Standing::False;
        assert(views[i] == policies[i]@);
    }
    assert forall|effect: Effect, id: Seq<char>| #[trigger]
        residual(response, effect).contains_key(id) implies was_left(
        policies,
        outcomes,
        effect,
        id,
    ) by {
        model::lemma_classify_ids(views, outcomes, effect, Standing::Residual, id);
        assert(response@.ids(effect, Standing::Residual).contains(id));
        let i = choose|i: int|
            #![trigger views[i]]
            0 <= i < views.len() && views[i].id == id && views[i].effect == effect && Standing::of(
                outcomes[i],
            ) == Standing::Residual;
        assert(views[i] == policies[i]@);
    }
    let positions = lemma_failures(views, outcomes);
    let errors = response.errors@;
    assert(response::error_views(errors).len() == errors.len());
    assert forall|j: int| 0 <= j < positions.len() implies 0 <= #[trigger] positions[j]
        < policies.len() && is_failure_of(
        errors[j],
        policies[positions[j]],
        outcomes[positions[j]],
    ) by {
        assert(response::error_views(errors)[j] == errors[j]@);
        assert(views[positions[j]] == policies[positions[j]]@);
    }
    assert(failures_at(errors, policies, outcomes, positions));
}

/// Authorizing a set of policies evaluates each of them once, and sorts it by what its evaluation
/// gave: a residual stays exactly as the evaluation left it.
pub proof fn authorization_sorts_each_policy<R, S, F: Fn(&R, &S, &Policy) -> Evaluation>(
    auth: Authorizer<F>,
    r: R,
    policies: Vec<Policy>,
    set: PolicySet,
    es: &S,
    response: PartialResponse,
)
    requires
        call_ensures(PolicySet::try_from_iter, (policies,), Ok::<PolicySet, PolicySetError>(set)),
        call_ensures(
            Authorizer::<F>::is_authorized_core::<R, S>,
            (&auth, r, &set, es),
            response,
        ),
    ensures
        response.well_formed(),
        responses::apart(response),
        exists|outcomes: Seq<Evaluation>|
            #![trigger evaluated(auth, r, es, policies@, outcomes)]
            evaluated(auth, r, es, policies@, outcomes) && sorted_by(
                response,
                policies@,
                outcomes,
            ),
{
    lemma_apart(response);
    let outcomes = choose|outcomes: Seq<Evaluation>|
        #![trigger auth.evaluates(r, es, set@, outcomes)]
        auth.evaluates(r, es, set@, outcomes) && response@ == PartialResponseView::classify(
            policy::policy_views(set@),
            outcomes,
        );
    lemma_sorted(response, policies@, outcomes);
    assert(evaluated(auth, r, es, policies@, outcomes));
}

/// What a policy's evaluation left is what a lookup of the policy's identifier gives.
pub proof fn lookup_gives_the_residual(
    response: PartialResponse,
    policies: Seq<Policy>,
    outcomes: Seq<Evaluation>,
    i: int,
    expr: Expr,
    id: &PolicyID,
    found: Option<&Expr>,
)
    requires
        sorted_by(response, policies, outcomes),
        responses::apart(response),
        0 <= i < policies.len(),
        outcomes[i] == Evaluation::Residual(expr),
        call_ensures(Policy::id, (&policies[i],), id),
        call_ensures(PartialResponse::get, (&response, id), found),
    ensures
        found is Some,
        found->0@ == expr@,
{
    assert(entered(response, policies[i]@, outcomes[i]));
    responses::get_gives_what_is_left(response, *id, found);
}

/// The six categories of a response, by number.
pub open spec fn category(response: PartialResponse, c: int) -> Set<Seq<char>> {
    if c == 0 {
        response.satisfied_permits@.dom()
    } else if c == 1 {
        response.false_permits@.dom()
    } else if c == 2 {
        response.residual_permits@.dom()
    } else if c == 3 {
        response.satisfied_forbids@.dom()
    } else if c == 4 {
        response.false_forbids@.dom()
    } else {
        response.residual_forbids@.dom()
    }
}

/// The identifier stands in both of two different categories.
pub open spec fn shared_by(response: PartialResponse, id: Seq<char>, c: int, d: int) -> bool {
    0 <= c < 6 && 0 <= d < 6 && c != d && category(response, c).contains(id) && category(
        response,
        d,
    ).contains(id)
}

/// The model of a response keeps the categories apart if and only if the response does.
proof fn lemma_apart(response: PartialResponse)
    ensures
        responses::apart(response) <==> response@.disjoint(),
{
    let v = response@;
    assert(v.residual_permits.dom() =~= response.residual_permits@.dom());
    assert(v.residual_forbids.dom() =~= response.residual_forbids@.dom());
    if v.disjoint() {
        assert forall|id: Seq<char>, c: int, d: int| !shared_by(response, id, c, d) by {
            if shared_by(response, id, c, d) {
                let (e1, s1) = effect_and_standing(c);
                let (e2, s2) = effect_and_standing(d);
                assert(v.ids(e1, s1).contains(id));
                assert(v.ids(e2, s2).contains(id));
            }
        }
        assert forall|c: int, d: int| 0 <= c < d < 6 implies #[trigger] category(
            response,
            c,
        ).disjoint(#[trigger] category(response, d)) by {
            assert forall|id: Seq<char>| !(category(response, c).contains(id) && category(
                response,
                d,
            ).contains(id)) by {
                assert(!shared_by(response, id, c, d));
            }
        }
        assert forall|c: int, d: int| 0 <= c < d < 6 implies #[trigger] apart_at(
            response,
            c,
            d,
        ) by {
            assert(category(response, c).disjoint(category(response, d)));
        }
        assert(apart_at(response, 0, 1) && apart_at(response, 0, 2) && apart_at(response, 0, 3)
            && apart_at(response, 0, 4) && apart_at(response, 0, 5));
        assert(apart_at(response, 1, 2) && apart_at(response, 1, 3) && apart_at(response, 1, 4)
            && apart_at(response, 1, 5));
        assert(apart_at(response, 2, 3) && apart_at(response, 2, 4) && apart_at(response, 2, 5));
        assert(apart_at(response, 3, 4) && apart_at(response, 3, 5) && apart_at(response, 4, 5));
    }
}

/// The two categories share no identifier.
spec fn apart_at(response: PartialResponse, c: int, d: int) -> bool {
    category(response, c).disjoint(category(response, d))
}

/// The effect and the standing of the policies of a category, by its number.
spec fn effect_and_standing(c: int) -> (Effect, Standing) {
    if c == 0 {
        (Effect::Permit, Standing::Satisfied)
    } else if c == 1 {
        (Effect::Permit, Standing::False)
    } else if c == 2 {
        (Effect::Permit, Standing::Residual)
    } else if c == 3 {
        (Effect::Forbid, Standing::Satisfied)
    } else if c == 4 {
        (Effect::Forbid, Standing::False)
    } else {
        (Effect::Forbid, Standing::Residual)
    }
}

/// The identifiers of a category in order, by its number.
spec fn category_keys(response: PartialResponse, c: int) -> Seq<Seq<char>> {
    if c == 0 {
        response.satisfied_permits.keys()
    } else if c == 1 {
        response.false_permits.keys()
    } else if c == 2 {
        response.residual_permits.keys()
    } else if c == 3 {
        response.satisfied_forbids.keys()
    } else if c == 4 {
        response.false_forbids.keys()
    } else {
        response.residual_forbids.keys()
    }
}

/// How many identifiers stand in the categories before the given one.
spec fn category_start(response: PartialResponse, c: int) -> int
    decreases c,
{
    if c <= 0 {
        0
    } else {
        category_start(response, c - 1) + category_keys(response, c - 1).len()
    }
}

/// Each position among all identifiers lies in one of the categories.
proof fn lemma_category_of(response: PartialResponse, i: int) -> (c: int)
    requires
        response.well_formed(),
        0 <= i < response.all_ids().len(),
    ensures
        0 <= c < 6,
        0 <= i - category_start(response, c) < category_keys(response, c).len(),
        category_keys(response, c)[i - category_start(response, c)] == response.all_ids()[i],
        category_keys(response, c).no_duplicates(),
        category(response, c).contains(response.all_ids()[i]),
{
    response.satisfied_permits.lemma_entries();
    response.false_permits.lemma_entries();
    response.residual_permits.lemma_entries();
    response.satisfied_forbids.lemma_entries();
    response.false_forbids.lemma_entries();
    response.residual_forbids.lemma_entries();
    reveal_with_fuel(category_start, 7);
    let c: int = if i < category_start(response, 1) {
        0
    } else if i < category_start(response, 2) {
        1
    } else if i < category_start(response, 3) {
        2
    } else if i < category_start(response, 4) {
        3
    } else if i < category_start(response, 5) {
        4
    } else {
        5
    };
    assert(category_keys(response, c)[i - category_start(response, c)] == response.all_ids()[i]);
    assert(category_keys(response, c).to_set() == category(response, c));
    c
}

/// An identifier that occurs at two positions stands in two categories.
proof fn lemma_shared(response: PartialResponse, i: int)
    requires
        response.well_formed(),
        policy::repeats_at(response.all_ids(), i),
    ensures
        exists|c: int, d: int| #[trigger] shared_by(response, response.all_ids()[i], c, d),
{
    let ids = response.all_ids();
    let j = choose|j: int| 0 <= j < i && #[trigger] ids.take(i)[j] == ids[i];
    assert(ids[j] == ids[i]);
    let c = lemma_category_of(response, i);
    let d = lemma_category_of(response, j);
    if c == d {
        let keys = category_keys(response, c);
        let start = category_start(response, c);
        assert(keys[i - start] == keys[j - start]);
    }
    assert(shared_by(response, ids[i], c, d));
}

/// The condition of the policy is what the response leaves of one of its policies, with each mapped
/// unknown replaced.
pub open spec fn reads_as_replaced(
    policy: Policy,
    residual: ResidualView,
    definitions: Map<Seq<char>, Value>,
) -> bool {
    exists|condition: ExprView| #[trigger]
        expressions::replaced(residual.expr, condition, definitions) && policies::reads_as(
            policy,
            residual.effect,
            residual.id,
            condition,
            residual.annotations,
        )
}

/// One of the policies has what the response leaves of a policy as its condition, with each mapped
/// unknown replaced.
pub open spec fn some_reads_as_replaced(
    policies: Seq<Policy>,
    residual: ResidualView,
    definitions: Map<Seq<char>, Value>,
) -> bool {
    exists|i: int|
        0 <= i < policies.len() && reads_as_replaced(#[trigger] policies[i], residual, definitions)
}

/// The policy's condition is what is left of some policy of the response, with each mapped unknown
/// replaced.
pub open spec fn is_left_and_replaced(
    response: PartialResponse,
    policy: Policy,
    definitions: Map<Seq<char>, Value>,
) -> bool {
    exists|residual: ResidualView| #[trigger]
        responses::leaves(response, residual) && reads_as_replaced(policy, residual, definitions)
}

/// The policies are those of the response, one for each, with what is left of them as their
/// conditions and each mapped unknown replaced. In no condition is a mapped unknown left.
pub open spec fn substituted(
    response: PartialResponse,
    definitions: Map<Seq<char>, Value>,
    policies: Seq<Policy>,
) -> bool {
    &&& policies.len() == responses::number_of_policies(response)
    &&& forall|residual: ResidualView| #[trigger]
        responses::leaves(response, residual) ==> some_reads_as_replaced(
            policies,
            residual,
            definitions,
        )
    &&& forall|i: int|
        0 <= i < policies.len() ==> is_left_and_replaced(
            response,
            #[trigger] policies[i],
            definitions,
        )
    &&& forall|i: int, name: Seq<char>, condition: &Expr|
        #![trigger
            call_ensures(Policy::non_head_constraints, (&policies[i],), condition),
            expressions::occurs(name, condition@)
        ]
        0 <= i < policies.len() && definitions.contains_key(name) && call_ensures(
            Policy::non_head_constraints,
            (&policies[i],),
            condition,
        ) ==> !expressions::occurs(name, condition@)
}

/// What substitution makes of the policies of a response.
proof fn lemma_substituted(
    response: PartialResponse,
    definitions: Map<Seq<char>, Value>,
    policies: Seq<Policy>,
)
    requires
        response.well_formed(),
        policy::policy_views(policies) == response.substituted_policies(definitions),
    ensures
        substituted(response, definitions, policies),
{
    let residuals = response.residuals();
    responses::lemma_number_of_residuals(response);
    assert(policy::policy_views(policies).len() == residuals.len());
    assert forall|i: int| 0 <= i < policies.len() implies reads_as_replaced(
        #[trigger] policies[i],
        residuals[i],
        definitions,
    ) by {
        let residual = residuals[i];
        assert(policy::policy_views(policies)[i] == residual.substitute(definitions).policy());
        let condition = residual.expr.substitute(definitions);
        expressions::substitution_replaces_mapped_unknowns(residual.expr, definitions);
        assert(policies::reads_as(
            policies[i],
            residual.effect,
            residual.id,
            condition,
            residual.annotations,
        ));
    }
    assert forall|i: int| 0 <= i < policies.len() implies is_left_and_replaced(
        response,
        #[trigger] policies[i],
        definitions,
    ) by {
        responses::lemma_leaves(response, i);
        assert(reads_as_replaced(policies[i], residuals[i], definitions));
    }
    assert forall|residual: ResidualView| #[trigger]
        responses::leaves(response, residual) implies some_reads_as_replaced(
        policies,
        residual,
        definitions,
    ) by {
        let i = responses::lemma_left_at(response, residual);
        assert(reads_as_replaced(policies[i], residuals[i], definitions));
    }
    assert forall|i: int, name: Seq<char>, condition: &Expr|
        #![trigger
            call_ensures(Policy::non_head_constraints, (&policies[i],), condition),
            expressions::occurs(name, condition@)
        ]
        0 <= i < policies.len() && definitions.contains_key(name) && call_ensures(
            Policy::non_head_constraints,
            (&policies[i],),
            condition,
        ) implies !expressions::occurs(name, condition@) by {
        assert(policy::policy_views(policies)[i] == residuals[i].substitute(definitions).policy());
        expressions::substitution_removes_the_mapped_unknowns(
            residuals[i].expr,
            definitions,
            name,
        );
    }
}

/// The policies of a response make a set, with the mapped unknowns replaced in what is left of
/// them, if and only if no identifier stands in two categories. Otherwise the error names such an
/// identifier.
pub proof fn all_policies_replaces_mapped_unknowns(
    response: PartialResponse,
    mapping: TextMap<SmolStr, Value>,
    set: Result<PolicySet, PolicySetError>,
)
    requires
        response.well_formed(),
        call_ensures(PartialResponse::all_policies, (&response, &mapping), set),
    ensures
        set is Ok <==> responses::apart(response),
        set matches Ok(s) ==> substituted(response, mapping@, s@),
        set matches Err(PolicySetError::Occupied { id }) ==> exists|c: int, d: int| #[trigger]
            shared_by(response, id.text(), c, d),
{
    lemma_apart(response);
    response.lemma_disjoint();
    match set {
        Ok(s) => {
            lemma_substituted(response, mapping@, s@);
        },
        Err(PolicySetError::Occupied { id }) => {
            let i = choose|i: int| #[trigger]
                policy::repeats_at(response.all_ids(), i) && response.all_ids()[i] == id.text()
                    && response.all_ids().take(i).no_duplicates();
            lemma_shared(response, i);
        },
    }
}

/// The new response sorts the policies of the old one, with each mapped unknown replaced in what is
/// left of them, by what the evaluator gave for them.
pub open spec fn comes_of_evaluating<R, S, F: Fn(&R, &S, &Policy) -> Evaluation>(
    response: PartialResponse,
    definitions: Map<Seq<char>, Value>,
    auth: Authorizer<F>,
    r: R,
    es: &S,
    new: PartialResponse,
) -> bool {
    exists|policies: Seq<Policy>, outcomes: Seq<Evaluation>|
        #![trigger evaluated(auth, r, es, policies, outcomes)]
        substituted(response, definitions, policies) && evaluated(auth, r, es, policies, outcomes)
            && sorted_by(new, policies, outcomes)
}

/// Authorizing a response again evaluates each of its policies, with every mapped unknown replaced
/// in what is left of it, at whatever depth it stands, and sorts it by what its evaluation gave. It
/// succeeds if and only if no identifier stands in two categories.
pub proof fn reauthorization_evaluates_with_the_values<
    R,
    S,
    F: Fn(&R, &S, &Policy) -> Evaluation,
>(
    response: PartialResponse,
    mapping: TextMap<SmolStr, Value>,
    auth: Authorizer<F>,
    r: R,
    es: &S,
    result: Result<PartialResponse, PolicySetError>,
)
    requires
        response.well_formed(),
        call_ensures(
            PartialResponse::reauthorize::<R, S, F>,
            (&response, &mapping, &auth, r, es),
            result,
        ),
    ensures
        result is Ok <==> responses::apart(response),
        result matches Ok(new) ==> new.well_formed() && responses::apart(new)
            && comes_of_evaluating(response, mapping@, auth, r, es, new),
        result matches Err(PolicySetError::Occupied { id }) ==> exists|c: int, d: int| #[trigger]
            shared_by(response, id.text(), c, d),
{
    lemma_apart(response);
    response.lemma_disjoint();
    match result {
        Ok(new) => {
            lemma_apart(new);
            let (policies, outcomes) = choose|policies: Seq<Policy>, outcomes: Seq<Evaluation>|
                #![trigger auth.evaluates(r, es, policies, outcomes)]
                {
                    &&& policy::policy_views(policies) == response.substituted_policies(mapping@)
                    &&& auth.evaluates(r, es, policies, outcomes)
                    &&& new@ == PartialResponseView::classify(
                        response.substituted_policies(mapping@),
                        outcomes,
                    )
                };
            lemma_substituted(response, mapping@, policies);
            response.lemma_policy_ids(mapping@);
            lemma_sorted(new, policies, outcomes);
            assert(evaluated(auth, r, es, policies, outcomes));
        },
        Err(PolicySetError::Occupied { id }) => {
            let i = choose|i: int| #[trigger]
                policy::repeats_at(response.all_ids(), i) && response.all_ids()[i] == id.text()
                    && response.all_ids().take(i).no_duplicates();
            lemma_shared(response, i);
        },
    }
}

/// The evaluator finds a policy that applies to every request, under the condition `true` or
/// `false`, satisfied or not accordingly.
pub open spec fn decides_trivial_policies<R, S, F: Fn(&R, &S, &Policy) -> Evaluation>(
    auth: Authorizer<F>,
    r: R,
    es: &S,
) -> bool {
    forall|policy: Policy, outcome: Evaluation| #[trigger]
        call_ensures(auth.evaluate, (&r, es, &policy), outcome)
            && policy@.principal_constraint.constraint == PrincipalOrResourceConstraint::Any
            && policy@.action_constraint == ActionConstraint::Any
            && policy@.resource_constraint.constraint == PrincipalOrResourceConstraint::Any
            ==> match policy@.non_head_constraints {
            ExprView::Lit(LiteralView::Bool(b)) => outcome == Evaluation::Value(b),
            _ => true,
        }
}

/// Under an evaluator that decides trivial policies, authorizing a response again keeps what is
/// known: satisfied policies stay satisfied, the others that are known stay not satisfied, only
/// policies with a residual come to stand otherwise, and a decision that is fixed stays.
pub proof fn reauthorization_keeps_what_is_known<R, S, F: Fn(&R, &S, &Policy) -> Evaluation>(
    response: PartialResponse,
    mapping: TextMap<SmolStr, Value>,
    auth: Authorizer<F>,
    r: R,
    es: &S,
    new: PartialResponse,
    before: Option<Decision>,
    after: Option<Decision>,
)
    requires
        call_ensures(
            PartialResponse::reauthorize::<R, S, F>,
            (&response, &mapping, &auth, r, es),
            Ok::<PartialResponse, PolicySetError>(new),
        ),
        decides_trivial_policies(auth, r, es),
        call_ensures(PartialResponse::decision, (&response,), before),
        call_ensures(PartialResponse::decision, (&new,), after),
    ensures
        forall|effect: Effect, id: Seq<char>| #[trigger]
            satisfied(response, effect).contains_key(id) ==> satisfied(new, effect).contains_key(id),
        forall|effect: Effect, id: Seq<char>| #[trigger]
            unsatisfied(response, effect).contains_key(id) ==> unsatisfied(
                new,
                effect,
            ).contains_key(id),
        forall|effect: Effect, id: Seq<char>| #[trigger]
            satisfied(new, effect).contains_key(id) ==> satisfied(response, effect).contains_key(id)
                || residual(response, effect).contains_key(id),
        forall|effect: Effect, id: Seq<char>| #[trigger]
            unsatisfied(new, effect).contains_key(id) ==> unsatisfied(
                response,
                effect,
            ).contains_key(id) || residual(response, effect).contains_key(id),
        forall|effect: Effect, id: Seq<char>| #[trigger]
            residual(new, effect).contains_key(id) ==> residual(response, effect).contains_key(id),
        before is Some ==> after == before,
{
    assert(auth.decides_literals(r, es));
    assert(response@.refined_by(new@));
    assert forall|effect: Effect, id: Seq<char>|
        #![trigger satisfied(response, effect).contains_key(id)]
        #![trigger unsatisfied(response, effect).contains_key(id)]
        #![trigger satisfied(new, effect).contains_key(id)]
        #![trigger unsatisfied(new, effect).contains_key(id)]
        #![trigger residual(new, effect).contains_key(id)]
        {
            &&& satisfied(response, effect).contains_key(id) ==> satisfied(
                new,
                effect,
            ).contains_key(id)
            &&& unsatisfied(response, effect).contains_key(id) ==> unsatisfied(
                new,
                effect,
            ).contains_key(id)
            &&& satisfied(new, effect).contains_key(id) ==> satisfied(
                response,
                effect,
            ).contains_key(id) || residual(response, effect).contains_key(id)
            &&& unsatisfied(new, effect).contains_key(id) ==> unsatisfied(
                response,
                effect,
            ).contains_key(id) || residual(response, effect).contains_key(id)
            &&& residual(new, effect).contains_key(id) ==> residual(response, effect).contains_key(
                id,
            )
        } by {
        assert(response@.refined_at(new@, effect, id));
    }
    if before is Some {
        laws::refinement_keeps_decision(response@, new@);
    }
}

} // verus!
