//! What holds of partial responses as a whole.
//!
//! A *completion* of a partial response says of each policy with a residual whether it comes to
//! be satisfied. Whatever values the unknowns take, the outcome is that of some completion.
//!
//! The laws here speak of the model of a response. Those of the modules below speak of what the
//! library's functions give for what they are called with.

pub mod authorization;
pub mod expressions;
pub mod maps;
pub mod policies;
pub mod responses;

use vstd::prelude::*;

use crate::authorizer::Evaluation;
use crate::expr::ExprView;
use crate::model::{PartialResponseView, Standing};
use crate::partial_response::PartialResponse;
use crate::policy::{Effect, PolicyView};
use crate::response::Decision;
use crate::{model, policy};

verus! {

impl PartialResponseView {
    /// The two sets hold the permits and the forbids with a residual that come to be satisfied.
    pub open spec fn completion(self, permits: Set<Seq<char>>, forbids: Set<Seq<char>>) -> bool {
        &&& permits.subset_of(self.residual_permits.dom())
        &&& forbids.subset_of(self.residual_forbids.dom())
    }

    /// The decision in a completion.
    pub open spec fn completed_decision(
        self,
        permits: Set<Seq<char>>,
        forbids: Set<Seq<char>>,
    ) -> Decision {
        model::concrete_decision(
            self.satisfied_permits.dom().union(permits),
            self.satisfied_forbids.dom().union(forbids),
        )
    }

    /// The policies that determine the decision in a completion.
    pub open spec fn completed_determining(
        self,
        permits: Set<Seq<char>>,
        forbids: Set<Seq<char>>,
    ) -> Set<Seq<char>> {
        model::concrete_determining(
            self.satisfied_permits.dom().union(permits),
            self.satisfied_forbids.dom().union(forbids),
        )
    }

    /// No policy has a residual.
    pub open spec fn concrete(self) -> bool {
        &&& self.residual_permits.dom().is_empty()
        &&& self.residual_forbids.dom().is_empty()
    }
}

/// A response fixes a decision if and only if every completion comes to that decision.
pub proof fn decision_is_that_of_every_completion(response: PartialResponseView, decision: Decision)
    ensures
        response.decision() == Some(decision) <==> forall|
            permits: Set<Seq<char>>,
            forbids: Set<Seq<char>>,
        | #[trigger]
            response.completion(permits, forbids) ==> response.completed_decision(permits, forbids)
                == decision,
{
    let none = Set::<Seq<char>>::empty();
    let all_permits = response.residual_permits.dom();
    let all_forbids = response.residual_forbids.dom();
    let sp = response.satisfied_permits.dom();
    let sf = response.satisfied_forbids.dom();
    assert(response.completion(none, none));
    assert(response.completion(all_permits, none));
    assert(response.completion(none, all_forbids));
    assert(response.completion(all_permits, all_forbids));
    assert(sp.union(none) =~= sp && sf.union(none) =~= sf);
    lemma_union_empty(sp, all_permits);
    lemma_union_empty(sf, all_forbids);
    assert forall|permits: Set<Seq<char>>, forbids: Set<Seq<char>>| #[trigger]
        response.completion(permits, forbids) && response.decision() == Some(
            decision,
        ) implies response.completed_decision(permits, forbids) == decision by {
        lemma_union_empty(sp, permits);
        lemma_union_empty(sf, forbids);
        lemma_subset_empty(permits, all_permits);
        lemma_subset_empty(forbids, all_forbids);
    }
}

/// A response leaves the decision open if and only if some completion allows the request and some
/// completion denies it.
pub proof fn open_decision_depends_on_residuals(response: PartialResponseView)
    ensures
        response.decision() is None <==> {
            &&& exists|permits: Set<Seq<char>>, forbids: Set<Seq<char>>| #[trigger]
                response.completion(permits, forbids) && response.completed_decision(
                    permits,
                    forbids,
                ) == Decision::Allow
            &&& exists|permits: Set<Seq<char>>, forbids: Set<Seq<char>>| #[trigger]
                response.completion(permits, forbids) && response.completed_decision(
                    permits,
                    forbids,
                ) == Decision::Deny
        },
{
    decision_is_that_of_every_completion(response, Decision::Allow);
    decision_is_that_of_every_completion(response, Decision::Deny);
    assert(response.completion(Set::empty(), Set::empty()));
}

/// The policies that may be determining are those that determine the decision in some completion.
pub proof fn may_be_determining_is_exact(response: PartialResponseView, id: Seq<char>)
    ensures
        response.may_be_determining().contains(id) <==> exists|
            permits: Set<Seq<char>>,
            forbids: Set<Seq<char>>,
        | #[trigger]
            response.completion(permits, forbids) && response.completed_determining(
                permits,
                forbids,
            ).contains(id),
{
    let none = Set::<Seq<char>>::empty();
    let sp = response.satisfied_permits.dom();
    let sf = response.satisfied_forbids.dom();
    let all_permits = response.residual_permits.dom();
    let all_forbids = response.residual_forbids.dom();
    assert(response.completion(all_permits, none));
    assert(response.completion(none, all_forbids));
    assert(sf.union(none) =~= sf);
    lemma_union_empty(sf, all_forbids);
    if exists|permits: Set<Seq<char>>, forbids: Set<Seq<char>>| #[trigger]
        response.completion(permits, forbids) && response.completed_determining(
            permits,
            forbids,
        ).contains(id) {
        let (permits, forbids) = choose|permits: Set<Seq<char>>, forbids: Set<Seq<char>>| #[trigger]
            response.completion(permits, forbids) && response.completed_determining(
                permits,
                forbids,
            ).contains(id);
        lemma_union_empty(sf, forbids);
        assert(permits.contains(id) ==> all_permits.contains(id));
        assert(forbids.contains(id) ==> all_forbids.contains(id));
    }
    if response.may_be_determining().contains(id) && all_forbids.contains(id) {
        assert(!all_forbids.is_empty());
        assert(response.completed_determining(none, all_forbids).contains(id));
    }
}

/// A policy that must be determining determines the decision in every completion.
pub proof fn must_be_determining_is_sound(
    response: PartialResponseView,
    id: Seq<char>,
    permits: Set<Seq<char>>,
    forbids: Set<Seq<char>>,
)
    requires
        response.must_be_determining().contains(id),
        response.completion(permits, forbids),
    ensures
        response.completed_determining(permits, forbids).contains(id),
{
    lemma_union_empty(response.satisfied_forbids.dom(), forbids);
    lemma_subset_empty(forbids, response.residual_forbids.dom());
    if response.satisfied_forbids.dom().contains(id) {
        assert(!response.satisfied_forbids.dom().is_empty());
    }
}

/// Where no satisfied permit shares its identifier with a forbid with a residual, the policies
/// that must be determining are those that determine the decision in every completion.
pub proof fn must_be_determining_is_exact(response: PartialResponseView, id: Seq<char>)
    requires
        response.satisfied_permits.dom().disjoint(response.residual_forbids.dom()),
    ensures
        response.must_be_determining().contains(id) <==> forall|
            permits: Set<Seq<char>>,
            forbids: Set<Seq<char>>,
        | #[trigger]
            response.completion(permits, forbids) ==> response.completed_determining(
                permits,
                forbids,
            ).contains(id),
{
    let none = Set::<Seq<char>>::empty();
    let sp = response.satisfied_permits.dom();
    let sf = response.satisfied_forbids.dom();
    let all_forbids = response.residual_forbids.dom();
    assert(response.completion(none, none));
    assert(response.completion(none, all_forbids));
    assert(sp.union(none) =~= sp && sf.union(none) =~= sf);
    lemma_union_empty(sf, all_forbids);
    if response.must_be_determining().contains(id) {
        assert forall|permits: Set<Seq<char>>, forbids: Set<Seq<char>>| #[trigger]
            response.completion(permits, forbids) implies response.completed_determining(
            permits,
            forbids,
        ).contains(id) by {
            must_be_determining_is_sound(response, id, permits, forbids);
        }
    } else {
        assert(!response.completed_determining(none, none).contains(id)
            || !response.completed_determining(none, all_forbids).contains(id));
    }
}

/// A policy that must be determining is satisfied, and may be determining.
pub proof fn must_be_determining_is_satisfied(response: PartialResponseView)
    ensures
        response.must_be_determining().subset_of(response.definitely_satisfied()),
        response.must_be_determining().subset_of(response.may_be_determining()),
{
    assert forall|id: Seq<char>| response.must_be_determining().contains(
        id,
    ) implies response.may_be_determining().contains(id) by {
        if response.satisfied_forbids.dom().contains(id) {
            assert(!response.satisfied_forbids.dom().is_empty());
        }
    }
}

/// The decision and the reason of the concrete response are those of the completion in which no
/// residual comes to be satisfied. The decision is the one that the partial response fixes, if it
/// fixes one.
pub proof fn concrete_decision_agrees(response: PartialResponseView)
    ensures
        model::concrete_decision(response.satisfied_permits.dom(), response.satisfied_forbids.dom())
            == response.completed_decision(Set::empty(), Set::empty()),
        model::concrete_determining(
            response.satisfied_permits.dom(),
            response.satisfied_forbids.dom(),
        ) == response.completed_determining(Set::empty(), Set::empty()),
        response.decision() matches Some(decision) ==> decision == model::concrete_decision(
            response.satisfied_permits.dom(),
            response.satisfied_forbids.dom(),
        ),
{
    let none = Set::<Seq<char>>::empty();
    assert(response.satisfied_permits.dom().union(none) =~= response.satisfied_permits.dom());
    assert(response.satisfied_forbids.dom().union(none) =~= response.satisfied_forbids.dom());
}

/// The reason of the concrete response holds every policy that must be determining, and only
/// policies that may be determining.
pub proof fn concrete_reason_lies_between(response: PartialResponseView)
    ensures
        response.must_be_determining().subset_of(
            model::concrete_determining(
                response.satisfied_permits.dom(),
                response.satisfied_forbids.dom(),
            ),
        ),
        model::concrete_determining(
            response.satisfied_permits.dom(),
            response.satisfied_forbids.dom(),
        ).subset_of(response.may_be_determining()),
{
}

/// Without residuals a response fixes the decision, and the policies that may and that must be
/// determining are those that determine it.
pub proof fn concrete_response_is_exact(response: PartialResponseView)
    requires
        response.concrete(),
    ensures
        response.decision() == Some(
            model::concrete_decision(
                response.satisfied_permits.dom(),
                response.satisfied_forbids.dom(),
            ),
        ),
        response.may_be_determining() == model::concrete_determining(
            response.satisfied_permits.dom(),
            response.satisfied_forbids.dom(),
        ),
        response.must_be_determining() == response.may_be_determining(),
{
    assert(response.may_be_determining() =~= model::concrete_determining(
        response.satisfied_permits.dom(),
        response.satisfied_forbids.dom(),
    ));
}

/// A decision that is fixed stays fixed when residuals come to stand otherwise.
pub proof fn refinement_keeps_decision(response: PartialResponseView, refined: PartialResponseView)
    requires
        response.refined_by(refined),
        response.decision() is Some,
    ensures
        refined.decision() == response.decision(),
{
    lemma_refinement(response, refined);
    lemma_union_empty(response.satisfied_permits.dom(), response.residual_permits.dom());
    lemma_subset_empty(
        refined.satisfied_permits.dom(),
        response.satisfied_permits.dom().union(response.residual_permits.dom()),
    );
    lemma_subset_empty(refined.residual_permits.dom(), response.residual_permits.dom());
    lemma_subset_empty(response.satisfied_forbids.dom(), refined.satisfied_forbids.dom());
    lemma_subset_empty(response.satisfied_permits.dom(), refined.satisfied_permits.dom());
    lemma_subset_empty(refined.residual_forbids.dom(), response.residual_forbids.dom());
}

/// When residuals come to stand otherwise, policies that must be determining stay so, and no
/// policy comes to be possibly determining.
pub proof fn refinement_narrows_determining(
    response: PartialResponseView,
    refined: PartialResponseView,
)
    requires
        response.refined_by(refined),
    ensures
        response.must_be_determining().subset_of(refined.must_be_determining()),
        refined.may_be_determining().subset_of(response.may_be_determining()),
{
    lemma_refinement(response, refined);
    lemma_subset_empty(response.satisfied_forbids.dom(), refined.satisfied_forbids.dom());
    lemma_subset_empty(refined.residual_forbids.dom(), response.residual_forbids.dom());
}

/// When no residual is left, what has become of a response is one of its completions: the
/// decision and the determining policies are those of the completion.
pub proof fn refinement_without_residuals_is_completion(
    response: PartialResponseView,
    refined: PartialResponseView,
)
    requires
        response.refined_by(refined),
        refined.concrete(),
    ensures
        exists|permits: Set<Seq<char>>, forbids: Set<Seq<char>>| #[trigger]
            response.completion(permits, forbids) && refined.decision() == Some(
                response.completed_decision(permits, forbids),
            ) && refined.must_be_determining() == response.completed_determining(permits, forbids),
{
    lemma_refinement(response, refined);
    concrete_response_is_exact(refined);
    let permits = refined.satisfied_permits.dom().intersect(response.residual_permits.dom());
    let forbids = refined.satisfied_forbids.dom().intersect(response.residual_forbids.dom());
    assert(response.completion(permits, forbids));
    assert(response.satisfied_permits.dom().union(permits) =~= refined.satisfied_permits.dom());
    assert(response.satisfied_forbids.dom().union(forbids) =~= refined.satisfied_forbids.dom());
}

/// If the evaluation leaves no residual, the response is concrete: it fixes the decision.
pub proof fn full_evaluation_decides(policies: Seq<PolicyView>, outcomes: Seq<Evaluation>)
    requires
        policies.len() == outcomes.len(),
        forall|i: int| 0 <= i < outcomes.len() ==> !(#[trigger] outcomes[i] is Residual),
    ensures
        PartialResponseView::classify(policies, outcomes).concrete(),
        PartialResponseView::classify(policies, outcomes).decision() is Some,
{
    let response = PartialResponseView::classify(policies, outcomes);
    assert forall|effect: Effect, id: Seq<char>|
        !(#[trigger] response.ids(effect, Standing::Residual).contains(id)) by {
        model::lemma_classify_ids(policies, outcomes, effect, Standing::Residual, id);
    }
    assert forall|id: Seq<char>| !response.residual_permits.dom().contains(id) by {
        assert(!response.ids(Effect::Permit, Standing::Residual).contains(id));
    }
    assert forall|id: Seq<char>| !response.residual_forbids.dom().contains(id) by {
        assert(!response.ids(Effect::Forbid, Standing::Residual).contains(id));
    }
    concrete_response_is_exact(response);
}

/// A lookup finds what is left of a policy if and only if the policy stands in some category.
pub proof fn get_finds_every_policy(response: PartialResponseView, id: Seq<char>)
    ensures
        response.get(id) is Some <==> exists|effect: Effect, standing: Standing| #[trigger]
            response.ids(effect, standing).contains(id),
{
    if response.get(id) is Some {
        assert({
            ||| response.ids(Effect::Permit, Standing::Satisfied).contains(id)
            ||| response.ids(Effect::Permit, Standing::False).contains(id)
            ||| response.ids(Effect::Permit, Standing::Residual).contains(id)
            ||| response.ids(Effect::Forbid, Standing::Satisfied).contains(id)
            ||| response.ids(Effect::Forbid, Standing::False).contains(id)
            ||| response.ids(Effect::Forbid, Standing::Residual).contains(id)
        });
    }
}

/// Where no two categories share an identifier, a lookup gives the same of a policy as the
/// sequence of all residuals.
pub proof fn get_agrees_with_residuals(response: PartialResponse, i: int)
    requires
        response.well_formed(),
        response@.disjoint(),
        0 <= i < response.residuals().len(),
    ensures
        response@.get(response.residuals()[i].id) == Some(response.residuals()[i].expr),
{
    let effect = response.residuals()[i].effect;
    let id = response.residuals()[i].id;
    let view = response@;
    let standing = response.lemma_residual_standing(i);
    assert forall|e: Effect, s: Standing| #[trigger] view.ids(e, s).contains(id) implies e == effect
        && s == standing by {}
    assert(view.ids(Effect::Permit, Standing::Satisfied).contains(id)
        == view.satisfied_permits.contains_key(id));
    assert(view.ids(Effect::Permit, Standing::False).contains(id)
        == view.false_permits.contains_key(id));
    assert(view.ids(Effect::Permit, Standing::Residual).contains(id)
        == view.residual_permits.contains_key(id));
    assert(view.ids(Effect::Forbid, Standing::Satisfied).contains(id)
        == view.satisfied_forbids.contains_key(id));
    assert(view.ids(Effect::Forbid, Standing::False).contains(id)
        == view.false_forbids.contains_key(id));
}

/// The nontrivial residuals are among all residuals.
pub proof fn nontrivial_residuals_are_residuals(response: PartialResponse, i: int)
    requires
        0 <= i < response.nontrivial_views().len(),
    ensures
        response.residuals().contains(response.nontrivial_views()[i]),
{
    let permits = response.nontrivial_permit_views().len();
    let n = response.satisfied_permits.entry_seq().len() + response.false_permits.entry_seq().len();
    let m = response.satisfied_forbids.entry_seq().len() + response.false_forbids.entry_seq().len();
    if i < permits {
        assert(response.residuals()[n + i] == response.nontrivial_views()[i]);
    } else {
        assert(response.residuals()[n + m + i] == response.nontrivial_views()[i]);
    }
}

/// The policies with a nontrivial residual are those that the identifiers of nontrivial residuals
/// name, in the same order.
pub proof fn nontrivial_residuals_have_the_nontrivial_ids(response: PartialResponse)
    ensures
        policy::policy_ids(model::residual_policies(response.nontrivial_views()))
            == response.residual_permits.keys() + response.residual_forbids.keys(),
{
    assert(policy::policy_ids(model::residual_policies(response.nontrivial_views()))
        =~= response.residual_permits.keys() + response.residual_forbids.keys());
}

/// Substituting nothing leaves an expression as it is.
pub proof fn substituting_nothing_is_identity(expr: ExprView)
    ensures
        expr.substitute(Map::empty()) == expr,
    decreases expr,
{
    match expr {
        ExprView::Lit(_) => {},
        ExprView::Var(_) => {},
        ExprView::Unknown(_) => {},
        ExprView::If(a, b, c) => {
            substituting_nothing_is_identity(*a);
            substituting_nothing_is_identity(*b);
            substituting_nothing_is_identity(*c);
        },
        ExprView::And(a, b) => {
            substituting_nothing_is_identity(*a);
            substituting_nothing_is_identity(*b);
        },
        ExprView::Or(a, b) => {
            substituting_nothing_is_identity(*a);
            substituting_nothing_is_identity(*b);
        },
        ExprView::UnaryApp(_, a) => {
            substituting_nothing_is_identity(*a);
        },
        ExprView::BinaryApp(_, a, b) => {
            substituting_nothing_is_identity(*a);
            substituting_nothing_is_identity(*b);
        },
        ExprView::GetAttr(a, _) => {
            substituting_nothing_is_identity(*a);
        },
        ExprView::HasAttr(a, _) => {
            substituting_nothing_is_identity(*a);
        },
        ExprView::Like(a, _) => {
            substituting_nothing_is_identity(*a);
        },
        ExprView::Is(a, _) => {
            substituting_nothing_is_identity(*a);
        },
        ExprView::ExtensionFunctionApp(_, args) => {
            assert forall|i: int| 0 <= i < args.len() implies (#[trigger] args[i]).substitute(
                Map::empty(),
            ) == args[i] by {
                substituting_nothing_is_identity(args[i]);
            }
            assert(expr.substitute(Map::empty())->ExtensionFunctionApp_1 =~= args);
        },
        ExprView::SetOf(elements) => {
            assert forall|i: int|
                0 <= i < elements.len() implies (#[trigger] elements[i]).substitute(Map::empty())
                == elements[i] by {
                substituting_nothing_is_identity(elements[i]);
            }
            assert(expr.substitute(Map::empty())->SetOf_0 =~= elements);
        },
        ExprView::Record(attrs) => {
            assert forall|i: int| 0 <= i < attrs.len() implies (#[trigger] attrs[i]).1.substitute(
                Map::empty(),
            ) == attrs[i].1 by {
                substituting_nothing_is_identity(attrs[i].1);
            }
            assert(expr.substitute(Map::empty())->Record_0 =~= attrs);
        },
    }
}

/// A union is empty if both parts are.
proof fn lemma_union_empty<T>(left: Set<T>, right: Set<T>)
    ensures
        left.union(right).is_empty() <==> left.is_empty() && right.is_empty(),
{
    if left.union(right).is_empty() {
        assert forall|x: T| !left.contains(x) && !right.contains(x) by {
            assert(!left.union(right).contains(x));
        }
    }
}

/// A part of an empty set is empty.
proof fn lemma_subset_empty<T>(part: Set<T>, whole: Set<T>)
    requires
        part.subset_of(whole),
    ensures
        whole.is_empty() ==> part.is_empty(),
{
}

/// Refinement, by the sets of the identifiers.
proof fn lemma_refinement(response: PartialResponseView, refined: PartialResponseView)
    requires
        response.refined_by(refined),
    ensures
        response.satisfied_permits.dom().subset_of(refined.satisfied_permits.dom()),
        response.satisfied_forbids.dom().subset_of(refined.satisfied_forbids.dom()),
        refined.residual_permits.dom().subset_of(response.residual_permits.dom()),
        refined.residual_forbids.dom().subset_of(response.residual_forbids.dom()),
        refined.satisfied_permits.dom().subset_of(
            response.satisfied_permits.dom().union(response.residual_permits.dom()),
        ),
        refined.satisfied_forbids.dom().subset_of(
            response.satisfied_forbids.dom().union(response.residual_forbids.dom()),
        ),
{
    assert forall|id: Seq<char>|
        {
            &&& response.satisfied_permits.dom().contains(id)
                ==> refined.satisfied_permits.dom().contains(id)
            &&& response.satisfied_forbids.dom().contains(id)
                ==> refined.satisfied_forbids.dom().contains(id)
            &&& refined.residual_permits.dom().contains(id)
                ==> response.residual_permits.dom().contains(id)
            &&& refined.residual_forbids.dom().contains(id)
                ==> response.residual_forbids.dom().contains(id)
            &&& refined.satisfied_permits.dom().contains(id)
                ==> response.satisfied_permits.dom().union(
                response.residual_permits.dom(),
            ).contains(id)
            &&& refined.satisfied_forbids.dom().contains(id)
                ==> response.satisfied_forbids.dom().union(
                response.residual_forbids.dom(),
            ).contains(id)
        } by {
        assert(response.refined_at(refined, Effect::Permit, id));
        assert(response.refined_at(refined, Effect::Forbid, id));
    }
}

} // verus!
