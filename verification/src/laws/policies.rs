//! What holds of policies and of sets of policies.

use smol_str::SmolStr;
use std::sync::Arc;
use vstd::prelude::*;

use crate::expr::{Expr, ExprView};
use crate::policy;
use crate::policy::{
    ActionConstraint, Annotations, Effect, Policy, PolicySet, PolicySetError, PrincipalConstraint,
    PrincipalOrResourceConstraint, ResourceConstraint,
};
use crate::policy_id::PolicyID;
use crate::residual;
use crate::residual::PolicyPrototype;
use crate::text::TextKey;

verus! {

/// What is read off the policy is the given effect, identifier, condition and annotations, and it
/// applies to every principal, action and resource.
pub open spec fn reads_as(
    policy: Policy,
    effect: Effect,
    id: Seq<char>,
    condition: ExprView,
    annotations: Arc<Annotations>,
) -> bool {
    &&& forall|x: Effect| #[trigger] call_ensures(Policy::effect, (&policy,), x) ==> x == effect
    &&& forall|x: &PolicyID| #[trigger] call_ensures(Policy::id, (&policy,), x) ==> x.text() == id
    &&& forall|x: &Expr| #[trigger]
        call_ensures(Policy::non_head_constraints, (&policy,), x) ==> x@ == condition
    &&& forall|x: &Arc<Annotations>| #[trigger]
        call_ensures(Policy::annotations_arc, (&policy,), x) ==> *x == annotations
    &&& forall|x: &Vec<(SmolStr, SmolStr)>| #[trigger]
        call_ensures(Policy::annotations, (&policy,), x) ==> x@ == annotations.entries.entry_seq()
    &&& forall|x: &PrincipalConstraint| #[trigger]
        call_ensures(Policy::principal_constraint, (&policy,), x) ==> x.constraint
            == PrincipalOrResourceConstraint::Any
    &&& forall|x: &ActionConstraint| #[trigger]
        call_ensures(Policy::action_constraint, (&policy,), x) ==> *x == ActionConstraint::Any
    &&& forall|x: &ResourceConstraint| #[trigger]
        call_ensures(Policy::resource_constraint, (&policy,), x) ==> x.constraint
            == PrincipalOrResourceConstraint::Any
}

/// A policy that is made of a condition has that condition, whatever its form, the given effect,
/// identifier and annotations, and no other constraint.
pub proof fn policy_reads_as_it_was_made(
    effect: Effect,
    expr: Arc<Expr>,
    id: PolicyID,
    annotations: Arc<Annotations>,
    policy: Policy,
)
    requires
        call_ensures(Policy::from_when_clause_annos, (effect, expr, id, annotations), policy),
    ensures
        reads_as(policy, effect, id.text(), expr@, annotations),
{
}

/// A policy that is made of a condition alone has that condition, and no annotation.
pub proof fn policy_has_no_annotation_unless_given(
    effect: Effect,
    expr: Expr,
    id: PolicyID,
    policy: Policy,
    annotations: &Arc<Annotations>,
    pairs: &Vec<(SmolStr, SmolStr)>,
)
    requires
        call_ensures(Policy::from_when_clause, (effect, expr, id), policy),
        call_ensures(Policy::annotations_arc, (&policy,), annotations),
        call_ensures(Policy::annotations, (&policy,), pairs),
    ensures
        reads_as(policy, effect, id.text(), expr@, *annotations),
        pairs@.len() == 0,
{
}

/// A policy that is built from a prototype has the prototype's parts.
pub proof fn policy_has_the_parts_of_its_prototype(prototype: PolicyPrototype<'_>, policy: Policy)
    requires
        call_ensures(residual::construct_policy, (prototype,), policy),
    ensures
        reads_as(policy, prototype.0, prototype.1.text(), prototype.2@, *prototype.3),
{
}

/// Policies make a set, in their order, if and only if no two of them have the same identifier.
/// Otherwise the error names the first identifier that an earlier policy has.
pub proof fn policy_set_holds_distinct_policies(
    policies: Vec<Policy>,
    set: Result<PolicySet, PolicySetError>,
)
    requires
        call_ensures(PolicySet::try_from_iter, (policies,), set),
    ensures
        set is Ok <==> forall|i: int, j: int|
            #![trigger policies@[i], policies@[j]]
            0 <= i < j < policies@.len() ==> policies@[i]@.id != policies@[j]@.id,
        set matches Ok(s) ==> forall|listed: &Vec<Policy>| #[trigger]
            call_ensures(PolicySet::policies, (&s,), listed) ==> listed@ == policies@,
        set matches Err(PolicySetError::Occupied { id }) ==> exists|i: int, j: int|
            #![trigger policies@[i], policies@[j]]
            {
                &&& 0 <= i < j < policies@.len()
                &&& policies@[i]@.id == id.text() && policies@[j]@.id == id.text()
                &&& forall|k: int, l: int|
                    #![trigger policies@[k], policies@[l]]
                    0 <= k < l < j ==> policies@[k]@.id != policies@[l]@.id
            },
{
    let ids = policy::policy_ids(policy::policy_views(policies@));
    assert forall|i: int| 0 <= i < policies@.len() implies #[trigger] ids[i] == policies@[i]@.id by {}
    if set is Ok {
        assert forall|i: int, j: int| #![trigger policies@[i], policies@[j]]
            0 <= i < j < policies@.len() implies policies@[i]@.id != policies@[j]@.id by {
            assert(ids[i] != ids[j]);
        }
    } else {
        let id = set->Err_0->id;
        let j = choose|j: int| #[trigger]
            policy::repeats_at(ids, j) && ids[j] == id.text() && ids.take(j).no_duplicates();
        let i = choose|i: int| 0 <= i < j && #[trigger] ids.take(j)[i] == ids[j];
        assert(ids.take(j)[i] == ids[i]);
        assert(policies@[i]@.id == id.text() && policies@[j]@.id == id.text());
        assert forall|k: int, l: int| #![trigger policies@[k], policies@[l]]
            0 <= k < l < j implies policies@[k]@.id != policies@[l]@.id by {
            assert(ids.take(j)[k] == ids[k] && ids.take(j)[l] == ids[l]);
        }
    }
}

} // verus!
