//! What holds of the answers of a partial response, by the policies in its categories.

use std::sync::Arc;
use vstd::prelude::*;

use crate::expr::{Expr, ExprView, LiteralView};
use crate::laws::{maps, policies};
use crate::model::ResidualView;
use crate::partial_response::{ErrorState, PartialResponse};
use crate::policy::{Annotations, Effect, Policy};
use crate::policy_id::PolicyID;
use crate::response::{AuthorizationError, Decision, EvaluationError, Response};
use crate::text::{TextKey, TextMap};
use crate::{model, partial_response, policy, response, text};

verus! {

/// No identifier stands in two categories.
pub open spec fn apart(response: PartialResponse) -> bool {
    let sp = response.satisfied_permits@.dom();
    let fp = response.false_permits@.dom();
    let rp = response.residual_permits@.dom();
    let sf = response.satisfied_forbids@.dom();
    let ff = response.false_forbids@.dom();
    let rf = response.residual_forbids@.dom();
    &&& sp.disjoint(fp) && sp.disjoint(rp) && sp.disjoint(sf) && sp.disjoint(ff) && sp.disjoint(rf)
    &&& fp.disjoint(rp) && fp.disjoint(sf) && fp.disjoint(ff) && fp.disjoint(rf)
    &&& rp.disjoint(sf) && rp.disjoint(ff) && rp.disjoint(rf)
    &&& sf.disjoint(ff) && sf.disjoint(rf)
    &&& ff.disjoint(rf)
}

/// The policy has a residual in the response, with the given effect, expression and annotations.
pub open spec fn has_residual(response: PartialResponse, residual: ResidualView) -> bool {
    let map = match residual.effect {
        Effect::Permit => response.residual_permits@,
        Effect::Forbid => response.residual_forbids@,
    };
    &&& map.contains_key(residual.id)
    &&& map[residual.id].0@ == residual.expr
    &&& map[residual.id].1 == residual.annotations
}

/// The policy is satisfied in the response, which leaves `true` of it.
pub open spec fn is_satisfied(response: PartialResponse, residual: ResidualView) -> bool {
    let map = match residual.effect {
        Effect::Permit => response.satisfied_permits@,
        Effect::Forbid => response.satisfied_forbids@,
    };
    &&& map.contains_key(residual.id)
    &&& map[residual.id] == residual.annotations
    &&& residual.expr == ExprView::Lit(LiteralView::Bool(true))
}

/// The policy is not satisfied in the response, which leaves `false` of it.
pub open spec fn is_unsatisfied(response: PartialResponse, residual: ResidualView) -> bool {
    let map = match residual.effect {
        Effect::Permit => response.false_permits@,
        Effect::Forbid => response.false_forbids@,
    };
    &&& map.contains_key(residual.id)
    &&& map[residual.id].1 == residual.annotations
    &&& residual.expr == ExprView::Lit(LiteralView::Bool(false))
}

/// This is what the response leaves of one of its policies.
pub open spec fn leaves(response: PartialResponse, residual: ResidualView) -> bool {
    ||| is_satisfied(response, residual)
    ||| is_unsatisfied(response, residual)
    ||| has_residual(response, residual)
}

/// What is read off the policy is the residual, as its condition.
pub open spec fn reads_as_residual(policy: Policy, residual: ResidualView) -> bool {
    policies::reads_as(policy, residual.effect, residual.id, residual.expr, residual.annotations)
}

/// The condition of the policy is what the response leaves of one of its policies.
pub open spec fn holds_what_is_left(response: PartialResponse, policy: Policy) -> bool {
    exists|residual: ResidualView| #[trigger]
        leaves(response, residual) && reads_as_residual(policy, residual)
}

/// The condition of the policy is the residual of a policy of the response with the given effect.
pub open spec fn holds_residual(response: PartialResponse, policy: Policy, effect: Effect) -> bool {
    exists|residual: ResidualView| #[trigger]
        has_residual(response, residual) && residual.effect == effect && reads_as_residual(
            policy,
            residual,
        )
}

/// The identifier is among the listed ones.
pub open spec fn lists(ids: Seq<&PolicyID>, id: Seq<char>) -> bool {
    exists|i: int| 0 <= i < ids.len() && (#[trigger] ids[i]).text() == id
}

/// No identifier is listed twice.
pub open spec fn lists_once(ids: Seq<&PolicyID>) -> bool {
    forall|i: int, j: int|
        0 <= i < j < ids.len() ==> (#[trigger] ids[i]).text() != (#[trigger] ids[j]).text()
}

/// Where exactly the policies of the two sets are satisfied, the request is allowed: a permit is
/// satisfied and no forbid is.
pub open spec fn allowed(permits: Set<Seq<char>>, forbids: Set<Seq<char>>) -> bool {
    &&& exists|id: Seq<char>| permits.contains(id)
    &&& forall|id: Seq<char>| !forbids.contains(id)
}

/// Where exactly the policies of the two sets are satisfied, the policy is a reason of the
/// decision: a forbid if any forbid is satisfied, and else a permit.
pub open spec fn is_reason(
    id: Seq<char>,
    permits: Set<Seq<char>>,
    forbids: Set<Seq<char>>,
) -> bool {
    if exists|f: Seq<char>| forbids.contains(f) {
        forbids.contains(id)
    } else {
        permits.contains(id)
    }
}

/// The two sets may be those of the satisfied permits and forbids once every unknown has a value:
/// they hold what is satisfied already, and beyond that only policies with a residual.
pub open spec fn possible(
    response: PartialResponse,
    permits: Set<Seq<char>>,
    forbids: Set<Seq<char>>,
) -> bool {
    &&& response.satisfied_permits@.dom().subset_of(permits)
    &&& response.satisfied_forbids@.dom().subset_of(forbids)
    &&& forall|id: Seq<char>| #[trigger]
        permits.contains(id) ==> response.satisfied_permits@.contains_key(id)
            || response.residual_permits@.contains_key(id)
    &&& forall|id: Seq<char>| #[trigger]
        forbids.contains(id) ==> response.satisfied_forbids@.contains_key(id)
            || response.residual_forbids@.contains_key(id)
}

/// The decision is fixed if and only if it is the same whatever values the unknowns have.
pub proof fn decision_is_fixed_if_no_unknown_matters(
    response: PartialResponse,
    decision: Option<Decision>,
)
    requires
        call_ensures(PartialResponse::decision, (&response,), decision),
    ensures
        decision == Some(Decision::Allow) <==> forall|
            permits: Set<Seq<char>>,
            forbids: Set<Seq<char>>,
        | #[trigger]
            possible(response, permits, forbids) ==> allowed(permits, forbids),
        decision == Some(Decision::Deny) <==> forall|
            permits: Set<Seq<char>>,
            forbids: Set<Seq<char>>,
        | #[trigger]
            possible(response, permits, forbids) ==> !allowed(permits, forbids),
{
    let sp = response.satisfied_permits@.dom();
    let rp = response.residual_permits@.dom();
    let sf = response.satisfied_forbids@.dom();
    let rf = response.residual_forbids@.dom();
    assert(possible(response, sp, sf));
    assert(possible(response, sp.union(rp), sf));
    assert(possible(response, sp, sf.union(rf)));
    lemma_empty(sp);
    lemma_empty(rp);
    lemma_empty(sf);
    lemma_empty(rf);
    lemma_empty(sp.union(rp));
    lemma_empty(sf.union(rf));
    assert(response@.residual_permits.dom() =~= rp);
    assert(response@.residual_forbids.dom() =~= rf);
    if exists|id: Seq<char>| rp.contains(id) {
        let id = choose|id: Seq<char>| rp.contains(id);
        assert(sp.union(rp).contains(id));
    }
    if exists|id: Seq<char>| rf.contains(id) {
        let id = choose|id: Seq<char>| rf.contains(id);
        assert(sf.union(rf).contains(id));
    }
    assert forall|permits: Set<Seq<char>>, forbids: Set<Seq<char>>| #[trigger]
        possible(response, permits, forbids) implies {
        &&& decision == Some(Decision::Allow) ==> allowed(permits, forbids)
        &&& decision == Some(Decision::Deny) ==> !allowed(permits, forbids)
    } by {
        if exists|id: Seq<char>| sp.contains(id) {
            let id = choose|id: Seq<char>| sp.contains(id);
            assert(permits.contains(id));
        }
        if exists|id: Seq<char>| sf.contains(id) {
            let id = choose|id: Seq<char>| sf.contains(id);
            assert(forbids.contains(id));
        }
    }
}

/// A set is empty if it contains nothing.
proof fn lemma_empty(set: Set<Seq<char>>)
    ensures
        set.is_empty() <==> forall|id: Seq<char>| !set.contains(id),
{
}

/// A policy may be determining if and only if it is a reason of the decision for some values of
/// the unknowns.
pub proof fn may_be_determining_if_a_reason_for_some_values(
    response: PartialResponse,
    ids: Vec<&PolicyID>,
    id: Seq<char>,
)
    requires
        call_ensures(PartialResponse::may_be_determining, (&response,), ids),
    ensures
        lists(ids@, id) <==> exists|permits: Set<Seq<char>>, forbids: Set<Seq<char>>| #[trigger]
            possible(response, permits, forbids) && is_reason(id, permits, forbids),
        apart(response) && response.well_formed() ==> lists_once(ids@),
{
    let sp = response.satisfied_permits@.dom();
    let rp = response.residual_permits@.dom();
    let sf = response.satisfied_forbids@.dom();
    let rf = response.residual_forbids@.dom();
    lemma_lists(ids@, id);
    assert(response@.residual_permits.dom() =~= rp);
    assert(response@.residual_forbids.dom() =~= rf);
    assert(possible(response, sp.union(rp), sf));
    assert(possible(response, sp, sf.union(rf)));
    lemma_empty(sf);
    if lists(ids@, id) {
        if rf.contains(id) {
            assert(sf.union(rf).contains(id));
            assert(is_reason(id, sp, sf.union(rf)));
        } else {
            assert(is_reason(id, sp.union(rp), sf));
        }
    }
    if exists|permits: Set<Seq<char>>, forbids: Set<Seq<char>>| #[trigger]
        possible(response, permits, forbids) && is_reason(id, permits, forbids) {
        let (permits, forbids) = choose|permits: Set<Seq<char>>, forbids: Set<Seq<char>>| #[trigger]
            possible(response, permits, forbids) && is_reason(id, permits, forbids);
        if exists|f: Seq<char>| sf.contains(f) {
            let f = choose|f: Seq<char>| sf.contains(f);
            assert(forbids.contains(f));
        }
    }
    if apart(response) && response.well_formed() {
        let (a, b, c) = (
            response.satisfied_permits,
            response.residual_permits,
            response.residual_forbids,
        );
        a.lemma_entries();
        b.lemma_entries();
        c.lemma_entries();
        response.satisfied_forbids.lemma_entries();
        lemma_joined_once(a.keys(), b.keys());
        text::lemma_to_set_of_sum(a.keys(), b.keys());
        lemma_joined_once(a.keys() + b.keys(), c.keys());
        lemma_joined_once(response.satisfied_forbids.keys(), c.keys());
        lemma_lists_once(ids@);
    }
}

/// A policy that must be determining is a reason of the decision whatever values the unknowns
/// have. The converse holds too, where no satisfied permit shares its identifier with a forbid
/// with a residual.
pub proof fn must_be_determining_if_a_reason_for_all_values(
    response: PartialResponse,
    ids: Vec<&PolicyID>,
    id: Seq<char>,
)
    requires
        call_ensures(PartialResponse::must_be_determining, (&response,), ids),
    ensures
        lists(ids@, id) ==> forall|permits: Set<Seq<char>>, forbids: Set<Seq<char>>| #[trigger]
            possible(response, permits, forbids) ==> is_reason(id, permits, forbids),
        response.satisfied_permits@.dom().disjoint(response.residual_forbids@.dom()) && (forall|
            permits: Set<Seq<char>>,
            forbids: Set<Seq<char>>,
        | #[trigger]
            possible(response, permits, forbids) ==> is_reason(id, permits, forbids)) ==> lists(
            ids@,
            id,
        ),
        response.well_formed() ==> lists_once(ids@),
{
    let sp = response.satisfied_permits@.dom();
    let sf = response.satisfied_forbids@.dom();
    let rf = response.residual_forbids@.dom();
    lemma_lists(ids@, id);
    assert(response@.residual_forbids.dom() =~= rf);
    lemma_empty(sf);
    lemma_empty(rf);
    assert(possible(response, sp, sf));
    assert(possible(response, sp, sf.union(rf)));
    assert forall|permits: Set<Seq<char>>, forbids: Set<Seq<char>>| #[trigger]
        possible(response, permits, forbids) && lists(ids@, id) implies is_reason(
        id,
        permits,
        forbids,
    ) by {
        if sf.contains(id) {
            assert(forbids.contains(id));
        }
    }
    if forall|permits: Set<Seq<char>>, forbids: Set<Seq<char>>| #[trigger]
        possible(response, permits, forbids) ==> is_reason(id, permits, forbids) {
        assert(is_reason(id, sp, sf));
        assert(is_reason(id, sp, sf.union(rf)));
        if exists|f: Seq<char>| rf.contains(f) {
            let f = choose|f: Seq<char>| rf.contains(f);
            assert(sf.union(rf).contains(f));
        }
        if exists|f: Seq<char>| sf.contains(f) {
            let f = choose|f: Seq<char>| sf.contains(f);
            assert(sf.union(rf).contains(f));
        }
    }
    if response.well_formed() {
        lemma_lists_once(ids@);
    }
}

/// An identifier is listed if it is among the texts.
proof fn lemma_lists(ids: Seq<&PolicyID>, id: Seq<char>)
    ensures
        lists(ids, id) <==> text::ref_texts(ids).to_set().contains(id),
        lists(ids, id) <==> text::ref_texts(ids).contains(id),
{
    if lists(ids, id) {
        let i = choose|i: int| 0 <= i < ids.len() && (#[trigger] ids[i]).text() == id;
        assert(text::ref_texts(ids)[i] == id);
    }
    if text::ref_texts(ids).contains(id) {
        let i = choose|i: int|
            0 <= i < text::ref_texts(ids).len() && text::ref_texts(ids)[i] == id;
        assert(ids[i].text() == id);
    }
}

/// No identifier is listed twice if the texts have no duplicates.
proof fn lemma_lists_once(ids: Seq<&PolicyID>)
    requires
        text::ref_texts(ids).no_duplicates(),
    ensures
        lists_once(ids),
{
    assert forall|i: int, j: int| 0 <= i < j < ids.len() implies (#[trigger] ids[i]).text() != (
    #[trigger] ids[j]).text() by {
        assert(text::ref_texts(ids)[i] != text::ref_texts(ids)[j]);
    }
}

/// Joining two sequences without duplicates that share no element gives none.
proof fn lemma_joined_once(left: Seq<Seq<char>>, right: Seq<Seq<char>>)
    requires
        left.no_duplicates(),
        right.no_duplicates(),
        left.to_set().disjoint(right.to_set()),
    ensures
        (left + right).no_duplicates(),
{
    let sum = left + right;
    assert forall|i: int, j: int| 0 <= i < j < sum.len() implies sum[i] != sum[j] by {
        if i < left.len() && j >= left.len() {
            assert(left.to_set().contains(left[i]));
            assert(right.to_set().contains(right[j - left.len()]));
        }
    }
}

/// The policies that are listed as satisfied are those in the two categories of satisfied ones,
/// each once if no identifier stands in both.
pub proof fn definitely_satisfied_lists_the_satisfied(
    response: PartialResponse,
    ids: Vec<&PolicyID>,
    id: Seq<char>,
)
    requires
        call_ensures(PartialResponse::definitely_satisfied, (&response,), ids),
    ensures
        lists(ids@, id) <==> response.satisfied_permits@.contains_key(id)
            || response.satisfied_forbids@.contains_key(id),
        apart(response) && response.well_formed() ==> lists_once(ids@),
{
    lemma_lists(ids@, id);
    if apart(response) && response.well_formed() {
        response.satisfied_permits.lemma_entries();
        response.satisfied_forbids.lemma_entries();
        lemma_joined_once(response.satisfied_permits.keys(), response.satisfied_forbids.keys());
        lemma_lists_once(ids@);
    }
}

/// The satisfied permits and the satisfied forbids are listed apart, each once.
pub proof fn satisfied_policies_are_listed_by_effect(
    response: PartialResponse,
    permits: Vec<&PolicyID>,
    forbids: Vec<&PolicyID>,
    id: Seq<char>,
)
    requires
        response.well_formed(),
        call_ensures(PartialResponse::definitely_satisfied_permits, (&response,), permits),
        call_ensures(PartialResponse::definitely_satisfied_forbids, (&response,), forbids),
    ensures
        lists(permits@, id) <==> response.satisfied_permits@.contains_key(id),
        lists(forbids@, id) <==> response.satisfied_forbids@.contains_key(id),
        lists_once(permits@),
        lists_once(forbids@),
{
    lemma_lists(permits@, id);
    lemma_lists(forbids@, id);
    lemma_lists_once(permits@);
    lemma_lists_once(forbids@);
}

/// The policies that are listed as errored are those that are not satisfied because of an error,
/// each once if no identifier is that of a permit and of a forbid.
pub proof fn definitely_errored_lists_the_errored(
    response: PartialResponse,
    ids: Vec<&PolicyID>,
    id: Seq<char>,
)
    requires
        call_ensures(PartialResponse::definitely_errored, (&response,), ids),
    ensures
        lists(ids@, id) <==> {
            ||| response.false_permits@.contains_key(id) && response.false_permits@[id].0
                == ErrorState::Error
            ||| response.false_forbids@.contains_key(id) && response.false_forbids@[id].0
                == ErrorState::Error
        },
        apart(response) && response.well_formed() ==> lists_once(ids@),
{
    lemma_lists(ids@, id);
    if apart(response) && response.well_formed() {
        let (permits, forbids) = (response.false_permits, response.false_forbids);
        permits.lemma_entries();
        forbids.lemma_entries();
        let left = partial_response::errored_ids(permits.entry_seq());
        let right = partial_response::errored_ids(forbids.entry_seq());
        lemma_errored_once(permits.entry_seq());
        lemma_errored_once(forbids.entry_seq());
        assert forall|x: Seq<char>| !(left.to_set().contains(x) && right.to_set().contains(x)) by {
            if left.contains(x) && right.contains(x) {
                assert(permits.keys().to_set().contains(x));
                assert(forbids.keys().to_set().contains(x));
            }
        }
        lemma_joined_once(left, right);
        lemma_lists_once(ids@);
    }
}

/// Where no identifier occurs twice, none occurs twice among the errored ones.
proof fn lemma_errored_once(entries: Seq<(PolicyID, (ErrorState, Arc<Annotations>))>)
    requires
        text::pair_texts(entries).no_duplicates(),
    ensures
        partial_response::errored_ids(entries).no_duplicates(),
        forall|id: Seq<char>| #[trigger]
            partial_response::errored_ids(entries).contains(id) ==> text::pair_texts(
                entries,
            ).contains(id),
    decreases entries.len(),
{
    reveal(Seq::filter);
    let ids = partial_response::errored_ids(entries);
    let keys = text::pair_texts(entries);
    if entries.len() > 0 {
        let init = entries.drop_last();
        let before = partial_response::errored_ids(init);
        assert(text::pair_texts(init) =~= keys.drop_last());
        lemma_errored_once(init);
        let last = entries.last().0.text();
        assert(keys[entries.len() - 1] == last);
        assert(partial_response::is_errored(entries.last()) ==> ids =~= before.push(last));
        assert(!partial_response::is_errored(entries.last()) ==> ids =~= before);
        assert forall|id: Seq<char>| before.contains(id) implies keys.contains(id) && id
            != last by {
            assert(text::pair_texts(init).contains(id));
            let j = choose|j: int| 0 <= j < init.len() && text::pair_texts(init)[j] == id;
            assert(keys[j] == id);
        }
        assert forall|id: Seq<char>| ids.contains(id) implies keys.contains(id) by {
            let j = choose|j: int| 0 <= j < ids.len() && ids[j] == id;
            if j < before.len() {
                assert(before[j] == id);
                assert(before.contains(id));
            }
        }
        assert forall|i: int, j: int| 0 <= i < j < ids.len() implies ids[i] != ids[j] by {
            assert(ids[i] == before[i]);
            assert(before.contains(before[i]));
            if j < before.len() {
                assert(ids[j] == before[j]);
            }
        }
    } else {
        assert(ids.len() == 0);
    }
}

/// The identifiers of the policies with a nontrivial residual are those of the two categories of
/// policies with a residual, each once if none stands in both.
pub proof fn nontrivial_residual_ids_lists_the_residuals(
    response: PartialResponse,
    ids: Vec<&PolicyID>,
    id: Seq<char>,
)
    requires
        call_ensures(PartialResponse::nontrivial_residual_ids, (&response,), ids),
    ensures
        lists(ids@, id) <==> response.residual_permits@.contains_key(id)
            || response.residual_forbids@.contains_key(id),
        apart(response) && response.well_formed() ==> lists_once(ids@),
{
    lemma_lists(ids@, id);
    if apart(response) && response.well_formed() {
        response.residual_permits.lemma_entries();
        response.residual_forbids.lemma_entries();
        lemma_joined_once(response.residual_permits.keys(), response.residual_forbids.keys());
        lemma_lists_once(ids@);
    }
}

/// A lookup gives `true` for a satisfied policy, `false` for one that is not, the residual of one
/// that has it, and nothing for any other. Of a residual permit and a residual forbid with the
/// same identifier it gives the permit's.
pub proof fn get_gives_what_is_left(response: PartialResponse, id: PolicyID, expr: Option<&Expr>)
    requires
        call_ensures(PartialResponse::get, (&response, &id), expr),
    ensures
        ({
            let satisfied = response.satisfied_permits@.contains_key(id.text())
                || response.satisfied_forbids@.contains_key(id.text());
            let unsatisfied = response.false_permits@.contains_key(id.text())
                || response.false_forbids@.contains_key(id.text());
            let permit = response.residual_permits@.contains_key(id.text());
            let forbid = response.residual_forbids@.contains_key(id.text());
            &&& satisfied ==> expr is Some && expr->0@ == ExprView::Lit(LiteralView::Bool(true))
            &&& !satisfied && unsatisfied ==> expr is Some && expr->0@ == ExprView::Lit(
                LiteralView::Bool(false),
            )
            &&& !satisfied && !unsatisfied && permit ==> expr is Some && expr->0@
                == response.residual_permits@[id.text()].0@
            &&& !satisfied && !unsatisfied && !permit && forbid ==> expr is Some && expr->0@
                == response.residual_forbids@[id.text()].0@
            &&& !satisfied && !unsatisfied && !permit && !forbid ==> expr is None
        }),
{
}

/// A map has as many keys as it lists entries.
proof fn lemma_size<V>(map: TextMap<PolicyID, V>)
    requires
        map.distinct_keys(),
    ensures
        map@.len() == map.entry_seq().len(),
{
    map.lemma_entries();
    map.keys().unique_seq_to_set();
}

/// Each residual of the response is what it leaves of a policy.
pub(crate) proof fn lemma_leaves(response: PartialResponse, i: int)
    requires
        response.well_formed(),
        0 <= i < response.residuals().len(),
    ensures
        leaves(response, response.residuals()[i]),
{
    response.satisfied_permits.lemma_entries();
    response.false_permits.lemma_entries();
    response.residual_permits.lemma_entries();
    response.satisfied_forbids.lemma_entries();
    response.false_forbids.lemma_entries();
    response.residual_forbids.lemma_entries();
    let n0 = response.satisfied_permits.entry_seq().len();
    let n1 = n0 + response.false_permits.entry_seq().len();
    let n2 = n1 + response.residual_permits.entry_seq().len();
    let n3 = n2 + response.satisfied_forbids.entry_seq().len();
    let n4 = n3 + response.false_forbids.entry_seq().len();
    let r = response.residuals()[i];
    if i < n0 {
        let e = response.satisfied_permits.entry_seq()[i];
        assert(r.id == e.0.text());
    } else if i < n1 {
        let e = response.false_permits.entry_seq()[i - n0];
        assert(r.id == e.0.text());
    } else if i < n2 {
        let e = response.residual_permits.entry_seq()[i - n1];
        assert(r.id == e.0.text());
    } else if i < n3 {
        let e = response.satisfied_forbids.entry_seq()[i - n2];
        assert(r.id == e.0.text());
    } else if i < n4 {
        let e = response.false_forbids.entry_seq()[i - n3];
        assert(r.id == e.0.text());
    } else {
        let e = response.residual_forbids.entry_seq()[i - n4];
        assert(r.id == e.0.text());
    }
}

/// What the response leaves of a policy is among its residuals.
pub(crate) proof fn lemma_left_at(response: PartialResponse, residual: ResidualView) -> (i: int)
    requires
        response.well_formed(),
        leaves(response, residual),
    ensures
        0 <= i < response.residuals().len(),
        response.residuals()[i] == residual,
{
    response.satisfied_permits.lemma_entries();
    response.false_permits.lemma_entries();
    response.residual_permits.lemma_entries();
    response.satisfied_forbids.lemma_entries();
    response.false_forbids.lemma_entries();
    response.residual_forbids.lemma_entries();
    let n0 = response.satisfied_permits.entry_seq().len();
    let n1 = n0 + response.false_permits.entry_seq().len();
    let n2 = n1 + response.residual_permits.entry_seq().len();
    let n3 = n2 + response.satisfied_forbids.entry_seq().len();
    let n4 = n3 + response.false_forbids.entry_seq().len();
    let id = residual.id;
    match residual.effect {
        Effect::Permit => {
            if is_satisfied(response, residual) {
                let es = response.satisfied_permits.entry_seq();
                choose|i: int| 0 <= i < es.len() && (#[trigger] es[i]).0.text() == id
            } else if is_unsatisfied(response, residual) {
                let es = response.false_permits.entry_seq();
                n0 + choose|i: int| 0 <= i < es.len() && (#[trigger] es[i]).0.text() == id
            } else {
                let es = response.residual_permits.entry_seq();
                n1 + choose|i: int| 0 <= i < es.len() && (#[trigger] es[i]).0.text() == id
            }
        },
        Effect::Forbid => {
            if is_satisfied(response, residual) {
                let es = response.satisfied_forbids.entry_seq();
                n2 + choose|i: int| 0 <= i < es.len() && (#[trigger] es[i]).0.text() == id
            } else if is_unsatisfied(response, residual) {
                let es = response.false_forbids.entry_seq();
                n3 + choose|i: int| 0 <= i < es.len() && (#[trigger] es[i]).0.text() == id
            } else {
                let es = response.residual_forbids.entry_seq();
                n4 + choose|i: int| 0 <= i < es.len() && (#[trigger] es[i]).0.text() == id
            }
        },
    }
}

/// The response has as many residuals as policies in its categories.
pub(crate) proof fn lemma_number_of_residuals(response: PartialResponse)
    requires
        response.well_formed(),
    ensures
        response.residuals().len() == number_of_policies(response),
        response.nontrivial_views().len() == response.residual_permits@.len()
            + response.residual_forbids@.len(),
        response.nontrivial_forbid_views().len() == response.residual_forbids@.len(),
{
    lemma_size(response.satisfied_permits);
    lemma_size(response.false_permits);
    lemma_size(response.residual_permits);
    lemma_size(response.satisfied_forbids);
    lemma_size(response.false_forbids);
    lemma_size(response.residual_forbids);
}

/// How many policies stand in the six categories.
pub open spec fn number_of_policies(response: PartialResponse) -> nat {
    response.satisfied_permits@.len() + response.false_permits@.len()
        + response.residual_permits@.len() + response.satisfied_forbids@.len()
        + response.false_forbids@.len() + response.residual_forbids@.len()
}

/// The policies have the given identifiers, in order: first the given number of permits, then
/// forbids.
pub open spec fn in_order(policies: Seq<Policy>, ids: Seq<Seq<char>>, permits: nat) -> bool {
    &&& policies.len() == ids.len()
    &&& forall|i: int|
        0 <= i < policies.len() ==> (#[trigger] policies[i])@.id == ids[i] && policies[i]@.effect
            == if i < permits {
            Effect::Permit
        } else {
            Effect::Forbid
        }
}

/// Of every policy of the response there is one policy whose condition is what is left of it, and
/// there are no others. Permits come before forbids; of each effect, first come the satisfied
/// policies, then those that are not satisfied, then those with a residual.
pub proof fn all_residuals_has_what_is_left_of_each_policy(
    response: PartialResponse,
    policies: Vec<Policy>,
)
    requires
        response.well_formed(),
        call_ensures(PartialResponse::all_residuals, (&response,), policies),
    ensures
        policies@.len() == number_of_policies(response),
        in_order(
            policies@,
            response.satisfied_permits.keys() + response.false_permits.keys()
                + response.residual_permits.keys() + response.satisfied_forbids.keys()
                + response.false_forbids.keys() + response.residual_forbids.keys(),
            response.satisfied_permits@.len() + response.false_permits@.len()
                + response.residual_permits@.len(),
        ),
        forall|i: int|
            0 <= i < policies@.len() ==> holds_what_is_left(response, #[trigger] policies@[i]),
        forall|residual: ResidualView| #[trigger]
            leaves(response, residual) ==> exists|i: int|
                0 <= i < policies@.len() && reads_as_residual(#[trigger] policies@[i], residual),
{
    let residuals = response.residuals();
    lemma_number_of_residuals(response);
    lemma_size(response.satisfied_permits);
    lemma_size(response.false_permits);
    lemma_size(response.residual_permits);
    lemma_read_as(policies@, residuals);
    assert forall|i: int| 0 <= i < policies@.len() implies holds_what_is_left(
        response,
        #[trigger] policies@[i],
    ) by {
        lemma_leaves(response, i);
        assert(leaves(response, residuals[i]) && reads_as_residual(policies@[i], residuals[i]));
    }
    assert forall|residual: ResidualView| #[trigger] leaves(response, residual) implies exists|
        i: int,
    | 0 <= i < policies@.len() && reads_as_residual(#[trigger] policies@[i], residual) by {
        let i = lemma_left_at(response, residual);
        assert(reads_as_residual(policies@[i], residual));
    }
}

/// Where the nontrivial residuals of a response stand.
proof fn lemma_nontrivial(response: PartialResponse)
    requires
        response.well_formed(),
    ensures
        forall|i: int|
            0 <= i < response.nontrivial_views().len() ==> has_residual(
                response,
                #[trigger] response.nontrivial_views()[i],
            ),
        forall|i: int|
            0 <= i < response.nontrivial_forbid_views().len() ==> has_residual(
                response,
                #[trigger] response.nontrivial_forbid_views()[i],
            ) && response.nontrivial_forbid_views()[i].effect == Effect::Forbid,
        forall|residual: ResidualView| #[trigger]
            has_residual(response, residual) ==> response.nontrivial_views().contains(residual),
        forall|residual: ResidualView| #[trigger]
            has_residual(response, residual) && residual.effect == Effect::Forbid
                ==> response.nontrivial_forbid_views().contains(residual),
{
    response.residual_permits.lemma_entries();
    response.residual_forbids.lemma_entries();
    let permits = response.residual_permits.entry_seq();
    let forbids = response.residual_forbids.entry_seq();
    let all = response.nontrivial_views();
    let some = response.nontrivial_forbid_views();
    assert forall|i: int| 0 <= i < some.len() implies has_residual(response, #[trigger] some[i])
        && some[i].effect == Effect::Forbid by {
        assert(some[i].id == forbids[i].0.text());
    }
    assert forall|i: int| 0 <= i < all.len() implies has_residual(response, #[trigger] all[i]) by {
        if i < permits.len() {
            assert(all[i].id == permits[i].0.text());
        } else {
            assert(all[i] == some[i - permits.len()]);
        }
    }
    assert forall|residual: ResidualView| #[trigger]
        has_residual(response, residual) implies all.contains(residual) && (residual.effect
        == Effect::Forbid ==> some.contains(residual)) by {
        let id = residual.id;
        match residual.effect {
            Effect::Permit => {
                let i = choose|i: int|
                    0 <= i < permits.len() && (#[trigger] permits[i]).0.text() == id;
                assert(all[i] == residual);
            },
            Effect::Forbid => {
                let i = choose|i: int|
                    0 <= i < forbids.len() && (#[trigger] forbids[i]).0.text() == id;
                assert(some[i] == residual);
                assert(all[permits.len() + i] == residual);
            },
        }
    }
}

/// The policies that the nontrivial residuals make are in order.
proof fn lemma_nontrivial_in_order(response: PartialResponse, policies: Seq<Policy>)
    requires
        response.well_formed(),
        policy::policy_views(policies) == model::residual_policies(response.nontrivial_views()),
    ensures
        in_order(
            policies,
            response.residual_permits.keys() + response.residual_forbids.keys(),
            response.residual_permits@.len(),
        ),
{
    lemma_size(response.residual_permits);
    lemma_read_as(policies, response.nontrivial_views());
}

/// Of every policy with a residual there is one policy whose condition is the residual, and there
/// are no others. Permits come before forbids.
pub proof fn nontrivial_residuals_has_each_residual(
    response: PartialResponse,
    policies: Vec<Policy>,
)
    requires
        response.well_formed(),
        call_ensures(PartialResponse::nontrivial_residuals, (&response,), policies),
    ensures
        policies@.len() == response.residual_permits@.len() + response.residual_forbids@.len(),
        in_order(
            policies@,
            response.residual_permits.keys() + response.residual_forbids.keys(),
            response.residual_permits@.len(),
        ),
        forall|i: int|
            0 <= i < policies@.len() ==> holds_residual(
                response,
                #[trigger] policies@[i],
                Effect::Permit,
            ) || holds_residual(response, policies@[i], Effect::Forbid),
        forall|residual: ResidualView| #[trigger]
            has_residual(response, residual) ==> exists|i: int|
                0 <= i < policies@.len() && reads_as_residual(#[trigger] policies@[i], residual),
{
    let residuals = response.nontrivial_views();
    lemma_number_of_residuals(response);
    lemma_nontrivial_in_order(response, policies@);
    lemma_nontrivial(response);
    lemma_read_as(policies@, residuals);
    assert forall|i: int| 0 <= i < policies@.len() implies holds_residual(
        response,
        #[trigger] policies@[i],
        Effect::Permit,
    ) || holds_residual(response, policies@[i], Effect::Forbid) by {
        assert(has_residual(response, residuals[i]) && reads_as_residual(
            policies@[i],
            residuals[i],
        ));
    }
    assert forall|residual: ResidualView| #[trigger]
        has_residual(response, residual) implies exists|i: int|
        0 <= i < policies@.len() && reads_as_residual(#[trigger] policies@[i], residual) by {
        let i = choose|i: int| 0 <= i < residuals.len() && residuals[i] == residual;
        assert(reads_as_residual(policies@[i], residual));
    }
}

/// The same of the forbids alone.
pub proof fn nontrival_forbids_has_each_residual_forbid(
    response: PartialResponse,
    policies: Vec<Policy>,
)
    requires
        response.well_formed(),
        call_ensures(PartialResponse::nontrival_forbids, (&response,), policies),
    ensures
        policies@.len() == response.residual_forbids@.len(),
        in_order(policies@, response.residual_forbids.keys(), 0),
        forall|i: int|
            0 <= i < policies@.len() ==> holds_residual(
                response,
                #[trigger] policies@[i],
                Effect::Forbid,
            ),
        forall|residual: ResidualView| #[trigger]
            has_residual(response, residual) && residual.effect == Effect::Forbid ==> exists|
                i: int,
            |
                0 <= i < policies@.len() && reads_as_residual(#[trigger] policies@[i], residual),
{
    let residuals = response.nontrivial_forbid_views();
    lemma_number_of_residuals(response);
    lemma_nontrivial(response);
    lemma_read_as(policies@, residuals);
    assert forall|i: int| 0 <= i < policies@.len() implies holds_residual(
        response,
        #[trigger] policies@[i],
        Effect::Forbid,
    ) by {
        assert(has_residual(response, residuals[i]) && reads_as_residual(
            policies@[i],
            residuals[i],
        ));
    }
    assert forall|residual: ResidualView| #[trigger]
        has_residual(response, residual) && residual.effect == Effect::Forbid implies exists|
        i: int,
    | 0 <= i < policies@.len() && reads_as_residual(#[trigger] policies@[i], residual) by {
        let i = choose|i: int| 0 <= i < residuals.len() && residuals[i] == residual;
        assert(reads_as_residual(policies@[i], residual));
    }
}

/// The policies that residuals make read as the residuals.
proof fn lemma_read_as(policies: Seq<Policy>, residuals: Seq<ResidualView>)
    requires
        policy::policy_views(policies) == model::residual_policies(residuals),
    ensures
        policies.len() == residuals.len(),
        forall|i: int|
            0 <= i < policies.len() ==> reads_as_residual(#[trigger] policies[i], residuals[i]),
        forall|i: int|
            0 <= i < policies.len() ==> (#[trigger] policies[i])@.id == residuals[i].id
                && policies[i]@.effect == residuals[i].effect,
{
    assert(policy::policy_views(policies).len() == residuals.len());
    assert forall|i: int| 0 <= i < policies.len() implies (#[trigger] policies[i])@.id
        == residuals[i].id && policies[i]@.effect == residuals[i].effect by {
        assert(policy::policy_views(policies)[i] == residuals[i].policy());
    }
    assert forall|i: int| 0 <= i < policies.len() implies reads_as_residual(
        #[trigger] policies[i],
        residuals[i],
    ) by {
        assert(policy::policy_views(policies)[i] == residuals[i].policy());
    }
}

/// Where no identifier stands in two categories, the condition of each policy that the residuals
/// make, whatever its form, is what a lookup of the policy's identifier gives.
pub proof fn conditions_are_what_a_lookup_gives(
    response: PartialResponse,
    policies: Vec<Policy>,
    i: int,
    id: &PolicyID,
    condition: &Expr,
    found: Option<&Expr>,
)
    requires
        response.well_formed(),
        apart(response),
        call_ensures(PartialResponse::all_residuals, (&response,), policies) || call_ensures(
            PartialResponse::nontrivial_residuals,
            (&response,),
            policies,
        ) || call_ensures(PartialResponse::nontrival_forbids, (&response,), policies),
        0 <= i < policies@.len(),
        call_ensures(Policy::id, (&policies@[i],), id),
        call_ensures(Policy::non_head_constraints, (&policies@[i],), condition),
        call_ensures(PartialResponse::get, (&response, id), found),
    ensures
        found is Some,
        found->0@ == condition@,
{
    let policy = policies@[i];
    if call_ensures(PartialResponse::all_residuals, (&response,), policies) {
        all_residuals_has_what_is_left_of_each_policy(response, policies);
    } else if call_ensures(PartialResponse::nontrivial_residuals, (&response,), policies) {
        nontrivial_residuals_has_each_residual(response, policies);
    } else {
        nontrival_forbids_has_each_residual_forbid(response, policies);
    }
    assert(holds_what_is_left(response, policy)) by {
        if !holds_what_is_left(response, policy) {
            let effect = if holds_residual(response, policy, Effect::Permit) {
                Effect::Permit
            } else {
                Effect::Forbid
            };
            let residual = choose|residual: ResidualView| #[trigger]
                has_residual(response, residual) && residual.effect == effect && reads_as_residual(
                    policy,
                    residual,
                );
            assert(leaves(response, residual));
        }
    }
    let residual = choose|residual: ResidualView| #[trigger]
        leaves(response, residual) && reads_as_residual(policy, residual);
    get_gives_what_is_left(response, *id, found);
}

/// The error says that the given expression, left of the given policy, is not a value.
pub open spec fn says_not_a_value(
    error: AuthorizationError,
    id: Seq<char>,
    expr: ExprView,
) -> bool {
    match error {
        AuthorizationError::PolicyEvaluationError { id: of, error } => of.text() == id
            && match error {
            EvaluationError::NonValue { expr: e } => e@ == expr,
            EvaluationError::Failed { message } => false,
        },
    }
}

/// The two evaluation errors are of the same kind and say the same.
pub open spec fn same_failure(left: EvaluationError, right: EvaluationError) -> bool {
    match (left, right) {
        (EvaluationError::NonValue { expr: a }, EvaluationError::NonValue { expr: b }) => a@ == b@,
        (EvaluationError::Failed { message: a }, EvaluationError::Failed { message: b }) => a@
            == b@,
        _ => false,
    }
}

/// The two errors are of policies with the same identifier, and say the same.
pub open spec fn same_error(left: AuthorizationError, right: AuthorizationError) -> bool {
    match (left, right) {
        (
            AuthorizationError::PolicyEvaluationError { id: a, error: e },
            AuthorizationError::PolicyEvaluationError { id: b, error: f },
        ) => a.text() == b.text() && same_failure(e, f),
    }
}

/// Among the errors from `start` to `end` is one that says that what is left of the given policy
/// is not a value.
pub open spec fn reports(
    errors: Seq<AuthorizationError>,
    start: int,
    end: int,
    id: Seq<char>,
    expr: ExprView,
) -> bool {
    exists|i: int| start <= i < end && says_not_a_value(#[trigger] errors[i], id, expr)
}

/// The errors of a concrete response: one for each forbid with a residual, then one for each
/// permit with a residual, each of them saying that the residual is not a value, then those that
/// the evaluation encountered, in their order.
pub open spec fn errors_are_complete(
    response: PartialResponse,
    errors: Seq<AuthorizationError>,
) -> bool {
    let forbids = response.residual_forbids@;
    let permits = response.residual_permits@;
    let n = forbids.len() as int;
    let m = n + permits.len();
    &&& errors.len() == m + response.errors@.len()
    &&& forall|id: Seq<char>| #[trigger]
        forbids.contains_key(id) ==> reports(errors, 0, n, id, forbids[id].0@)
    &&& forall|id: Seq<char>| #[trigger]
        permits.contains_key(id) ==> reports(errors, n, m, id, permits[id].0@)
    &&& forall|i: int|
        0 <= i < response.errors@.len() ==> same_error(
            errors[m + i],
            #[trigger] response.errors@[i],
        )
}

/// What the errors say where every residual counts as an error.
proof fn lemma_errors(response: PartialResponse, errors: Seq<AuthorizationError>)
    requires
        response.well_formed(),
        response::error_views(errors) == response.all_errors(),
    ensures
        errors_are_complete(response, errors),
{
    let forbids = response.residual_forbids.entry_seq();
    let permits = response.residual_permits.entry_seq();
    response.residual_forbids.lemma_entries();
    response.residual_permits.lemma_entries();
    lemma_size(response.residual_forbids);
    lemma_size(response.residual_permits);
    let views = response.all_errors();
    let n = forbids.len() as int;
    let m = n + permits.len();
    assert(response::error_views(errors).len() == errors.len());
    assert forall|i: int| 0 <= i < errors.len() implies (#[trigger] errors[i])@ == views[i] by {
        assert(response::error_views(errors)[i] == errors[i]@);
    }
    assert forall|id: Seq<char>| #[trigger]
        response.residual_forbids@.contains_key(id) implies reports(
        errors,
        0,
        n,
        id,
        response.residual_forbids@[id].0@,
    ) by {
        let i = choose|i: int| 0 <= i < forbids.len() && (#[trigger] forbids[i]).0.text() == id;
        assert(errors[i]@ == views[i]);
        assert(says_not_a_value(errors[i], id, forbids[i].1.0@));
    }
    assert forall|id: Seq<char>| #[trigger]
        response.residual_permits@.contains_key(id) implies reports(
        errors,
        n,
        m,
        id,
        response.residual_permits@[id].0@,
    ) by {
        let i = choose|i: int| 0 <= i < permits.len() && (#[trigger] permits[i]).0.text() == id;
        assert(errors[n + i]@ == views[n + i]);
        assert(says_not_a_value(errors[n + i], id, permits[i].1.0@));
    }
    assert forall|i: int| 0 <= i < response.errors@.len() implies same_error(
        errors[m + i],
        #[trigger] response.errors@[i],
    ) by {
        assert(errors[m + i]@ == views[m + i]);
        assert(views[m + i] == response.errors@[i]@);
    }
}

/// In a concrete response every residual counts as an error: the decision and the reason are those
/// where only the satisfied policies are satisfied, and the errors name each policy with a
/// residual, with its residual, beside the errors that the evaluation encountered.
pub proof fn concretize_counts_residuals_as_errors(response: PartialResponse, concrete: Response)
    requires
        response.well_formed(),
        call_ensures(PartialResponse::concretize, (response,), concrete) || call_ensures(
            <Response as From<PartialResponse>>::from,
            (response,),
            concrete,
        ),
    ensures
        concrete.decision == Decision::Allow <==> allowed(
            response.satisfied_permits@.dom(),
            response.satisfied_forbids@.dom(),
        ),
        forall|id: Seq<char>| #[trigger]
            concrete.diagnostics.reason@.contains_key(id) <==> is_reason(
                id,
                response.satisfied_permits@.dom(),
                response.satisfied_forbids@.dom(),
            ),
        errors_are_complete(response, concrete.diagnostics.errors@),
{
    lemma_errors(response, concrete.diagnostics.errors@);
    lemma_empty(response.satisfied_permits@.dom());
    lemma_empty(response.satisfied_forbids@.dom());
    let reason = concrete.diagnostics.reason@;
    assert forall|id: Seq<char>| #[trigger] reason.contains_key(id) <==> is_reason(
        id,
        response.satisfied_permits@.dom(),
        response.satisfied_forbids@.dom(),
    ) by {
        assert(reason.contains_key(id) == reason.dom().contains(id));
    }
}

/// A concrete response has the given decision and errors, and the given policies as its reason,
/// each once.
pub proof fn response_has_what_it_was_made_of(
    decision: Decision,
    reason: Vec<PolicyID>,
    errors: Vec<AuthorizationError>,
    response: Response,
)
    requires
        call_ensures(Response::new, (decision, reason, errors), response),
    ensures
        response.decision == decision,
        response.diagnostics.errors@ == errors@,
        forall|id: Seq<char>| #[trigger]
            response.diagnostics.reason@.contains_key(id) <==> exists|i: int|
                0 <= i < reason@.len() && (#[trigger] reason@[i]).text() == id,
{
    let texts = text::texts(reason@);
    assert forall|id: Seq<char>| #[trigger]
        response.diagnostics.reason@.contains_key(id) <==> exists|i: int|
            0 <= i < reason@.len() && (#[trigger] reason@[i]).text() == id by {
        assert(response.diagnostics.reason@.contains_key(id) == texts.to_set().contains(id));
        if texts.contains(id) {
            let i = choose|i: int| 0 <= i < texts.len() && texts[i] == id;
            assert(reason@[i].text() == id);
        }
        if exists|i: int| 0 <= i < reason@.len() && (#[trigger] reason@[i]).text() == id {
            let i = choose|i: int| 0 <= i < reason@.len() && (#[trigger] reason@[i]).text() == id;
            assert(texts[i] == id);
        }
    }
}

/// A partial response holds the given policies in the categories they were given for, and the
/// given errors.
pub proof fn partial_response_has_what_it_was_made_of(
    true_permits: Vec<(PolicyID, Arc<Annotations>)>,
    false_permits: Vec<(PolicyID, (ErrorState, Arc<Annotations>))>,
    residual_permits: Vec<(PolicyID, (Arc<Expr>, Arc<Annotations>))>,
    true_forbids: Vec<(PolicyID, Arc<Annotations>)>,
    false_forbids: Vec<(PolicyID, (ErrorState, Arc<Annotations>))>,
    residual_forbids: Vec<(PolicyID, (Arc<Expr>, Arc<Annotations>))>,
    errors: Vec<AuthorizationError>,
    response: PartialResponse,
)
    requires
        call_ensures(
            PartialResponse::new,
            (
                true_permits,
                false_permits,
                residual_permits,
                true_forbids,
                false_forbids,
                residual_forbids,
                errors,
            ),
            response,
        ),
    ensures
        maps::holds_the_last(response.satisfied_permits@, true_permits@),
        maps::holds_the_last(response.false_permits@, false_permits@),
        maps::holds_the_last(response.residual_permits@, residual_permits@),
        maps::holds_the_last(response.satisfied_forbids@, true_forbids@),
        maps::holds_the_last(response.false_forbids@, false_forbids@),
        maps::holds_the_last(response.residual_forbids@, residual_forbids@),
        response.errors@ == errors@,
        response.well_formed(),
{
    maps::lemma_collected(true_permits@);
    maps::lemma_collected(false_permits@);
    maps::lemma_collected(residual_permits@);
    maps::lemma_collected(true_forbids@);
    maps::lemma_collected(false_forbids@);
    maps::lemma_collected(residual_forbids@);
    maps::lemma_first_occurrences(true_permits@);
    maps::lemma_first_occurrences(false_permits@);
    maps::lemma_first_occurrences(residual_permits@);
    maps::lemma_first_occurrences(true_forbids@);
    maps::lemma_first_occurrences(false_forbids@);
    maps::lemma_first_occurrences(residual_forbids@);
}

/// A map of residuals has the same policies as another, in the same order, with the same
/// expressions and annotations.
pub open spec fn same_residuals(
    left: TextMap<PolicyID, (Arc<Expr>, Arc<Annotations>)>,
    right: TextMap<PolicyID, (Arc<Expr>, Arc<Annotations>)>,
) -> bool {
    &&& left.keys() == right.keys()
    &&& forall|id: Seq<char>| #[trigger]
        left@.contains_key(id) <==> right@.contains_key(id)
    &&& forall|id: Seq<char>| #[trigger]
        left@.contains_key(id) ==> left@[id].0@ == right@[id].0@ && left@[id].1 == right@[id].1
}

/// A copy of a partial response has the same policies in the same categories, in the same order,
/// and the same errors.
pub proof fn copy_has_the_same_policies(response: PartialResponse, copy: PartialResponse)
    requires
        call_ensures(<PartialResponse as Clone>::clone, (&response,), copy),
    ensures
        copy.satisfied_permits@ == response.satisfied_permits@,
        copy.satisfied_permits.keys() == response.satisfied_permits.keys(),
        copy.false_permits@ == response.false_permits@,
        copy.false_permits.keys() == response.false_permits.keys(),
        same_residuals(copy.residual_permits, response.residual_permits),
        copy.satisfied_forbids@ == response.satisfied_forbids@,
        copy.satisfied_forbids.keys() == response.satisfied_forbids.keys(),
        copy.false_forbids@ == response.false_forbids@,
        copy.false_forbids.keys() == response.false_forbids.keys(),
        same_residuals(copy.residual_forbids, response.residual_forbids),
        copy.errors@.len() == response.errors@.len(),
        forall|i: int|
            0 <= i < copy.errors@.len() ==> same_error(
                #[trigger] copy.errors@[i],
                response.errors@[i],
            ),
{
    lemma_same_residuals(copy.residual_permits, response.residual_permits);
    lemma_same_residuals(copy.residual_forbids, response.residual_forbids);
    assert(response::error_views(copy.errors@).len() == response::error_views(
        response.errors@,
    ).len());
    assert forall|i: int| 0 <= i < copy.errors@.len() implies same_error(
        #[trigger] copy.errors@[i],
        response.errors@[i],
    ) by {
        assert(response::error_views(copy.errors@)[i] == copy.errors@[i]@);
        assert(response::error_views(response.errors@)[i] == response.errors@[i]@);
    }
}

/// Maps of residuals with the same syntax trees have the same residuals.
proof fn lemma_same_residuals(
    left: TextMap<PolicyID, (Arc<Expr>, Arc<Annotations>)>,
    right: TextMap<PolicyID, (Arc<Expr>, Arc<Annotations>)>,
)
    requires
        left.keys() == right.keys(),
        partial_response::residual_map(left@) == partial_response::residual_map(right@),
    ensures
        same_residuals(left, right),
{
    let (a, b) = (
        partial_response::residual_map(left@),
        partial_response::residual_map(right@),
    );
    assert forall|id: Seq<char>| #[trigger] left@.contains_key(id) <==> right@.contains_key(id) by {
        assert(a.contains_key(id) == left@.contains_key(id));
        assert(b.contains_key(id) == right@.contains_key(id));
    }
    assert forall|id: Seq<char>| #[trigger] left@.contains_key(id) implies left@[id].0@
        == right@[id].0@ && left@[id].1 == right@[id].1 by {
        assert(a[id] == b[id]);
    }
}

/// The listed identifiers are the given ones, in order.
pub open spec fn lists_in_order(ids: Seq<&PolicyID>, expected: Seq<Seq<char>>) -> bool {
    &&& ids.len() == expected.len()
    &&& forall|i: int| 0 <= i < ids.len() ==> (#[trigger] ids[i]).text() == expected[i]
}

/// Permits are listed before forbids, each category in its order.
pub proof fn listings_keep_the_order(
    response: PartialResponse,
    satisfied: Vec<&PolicyID>,
    may: Vec<&PolicyID>,
    must: Vec<&PolicyID>,
    residual: Vec<&PolicyID>,
)
    requires
        response.well_formed(),
        call_ensures(PartialResponse::definitely_satisfied, (&response,), satisfied),
        call_ensures(PartialResponse::may_be_determining, (&response,), may),
        call_ensures(PartialResponse::must_be_determining, (&response,), must),
        call_ensures(PartialResponse::nontrivial_residual_ids, (&response,), residual),
    ensures
        lists_in_order(
            satisfied@,
            response.satisfied_permits.keys() + response.satisfied_forbids.keys(),
        ),
        lists_in_order(
            residual@,
            response.residual_permits.keys() + response.residual_forbids.keys(),
        ),
        lists_in_order(
            may@,
            if response.satisfied_forbids@.len() == 0 {
                response.satisfied_permits.keys() + response.residual_permits.keys()
                    + response.residual_forbids.keys()
            } else {
                response.satisfied_forbids.keys() + response.residual_forbids.keys()
            },
        ),
        lists_in_order(
            must@,
            if response.satisfied_forbids@.len() == 0 && response.residual_forbids@.len() == 0 {
                response.satisfied_permits.keys()
            } else {
                response.satisfied_forbids.keys()
            },
        ),
{
    lemma_emptiness(response.satisfied_forbids);
    lemma_emptiness(response.residual_forbids);
    assert(response@.residual_forbids.dom() =~= response.residual_forbids@.dom());
    lemma_lists_in_order(satisfied@);
    lemma_lists_in_order(may@);
    lemma_lists_in_order(must@);
    lemma_lists_in_order(residual@);
}

/// A map is empty if it has no keys.
proof fn lemma_emptiness<V>(map: TextMap<PolicyID, V>)
    requires
        map.distinct_keys(),
    ensures
        map@.len() == 0 <==> map@.dom().is_empty(),
{
    map.lemma_entries();
    lemma_size(map);
    if map.entry_seq().len() > 0 {
        assert(map@.dom().contains(map.entry_seq()[0].0.text()));
    } else {
        assert(map@.dom() =~= Set::empty());
    }
}

/// The listed identifiers are their texts, in order.
proof fn lemma_lists_in_order(ids: Seq<&PolicyID>)
    ensures
        lists_in_order(ids, text::ref_texts(ids)),
{
}

/// The policy of a record is named if and only if the record says that it errored.
pub proof fn did_error_names_the_errored(
    id: &PolicyID,
    record: &(ErrorState, Arc<Annotations>),
    named: Option<&PolicyID>,
)
    requires
        call_ensures(partial_response::did_error, ((id, record),), named),
    ensures
        named is Some <==> record.0 == ErrorState::Error,
        named is Some ==> named->0.text() == id.text(),
{
}

/// The error of an expression that is not a value holds the expression, and copies of errors say
/// the same.
pub proof fn errors_say_what_failed(
    expr: Expr,
    failure: EvaluationError,
    copy: EvaluationError,
    error: AuthorizationError,
    error_copy: AuthorizationError,
)
    requires
        call_ensures(EvaluationError::non_value, (expr,), failure),
        call_ensures(<EvaluationError as Clone>::clone, (&failure,), copy),
        call_ensures(<AuthorizationError as Clone>::clone, (&error,), error_copy),
    ensures
        failure is NonValue,
        failure->expr@ == expr@,
        same_failure(failure, copy),
        same_error(error, error_copy),
{
}

} // verus!
