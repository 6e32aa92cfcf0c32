//! Policies, and sets of policies with distinct identifiers.

use smol_str::SmolStr;
use std::sync::Arc;
use vstd::prelude::*;

use crate::expr::{EntityUID, Expr, ExprView};
use crate::policy_id::PolicyID;
use crate::text::{TextKey, TextMap};

verus! {

/// What a policy does to a request that satisfies it.
#[derive(Debug, Clone, Copy, PartialEq, Eq, Hash, Structural)]
pub enum Effect {
    /// The policy permits the request
    Permit,
    /// The policy forbids the request
    Forbid,
}

/// The annotations of a policy: a text for each annotation name. They do not bear on
/// authorization.
#[derive(Debug, PartialEq, Eq)]
pub struct Annotations {
    /// The annotations
    pub entries: TextMap<SmolStr, SmolStr>,
}

impl Default for Annotations {
    /// No annotations.
    fn default() -> (annotations: Self)
        ensures
            annotations.entries.entry_seq() == Seq::<(SmolStr, SmolStr)>::empty(),
            annotations.entries@ == Map::<Seq<char>, SmolStr>::empty(),
    {
        Annotations { entries: TextMap::default() }
    }
}

/// A constraint on the principal or the resource of a request.
#[derive(Debug, PartialEq, Eq)]
pub enum PrincipalOrResourceConstraint {
    /// Every entity
    Any,
    /// The entity itself and its descendants
    In(EntityUID),
    /// The entity itself
    Eq(EntityUID),
}

/// A constraint on the principal of a request.
#[derive(Debug, PartialEq, Eq)]
pub struct PrincipalConstraint {
    /// The constraint
    pub constraint: PrincipalOrResourceConstraint,
}

impl PrincipalConstraint {
    /// The constraint that every principal meets.
    pub fn any() -> (constraint: Self)
        ensures
            constraint.constraint is Any,
    {
        PrincipalConstraint { constraint: PrincipalOrResourceConstraint::Any }
    }
}

/// A constraint on the resource of a request.
#[derive(Debug, PartialEq, Eq)]
pub struct ResourceConstraint {
    /// The constraint
    pub constraint: PrincipalOrResourceConstraint,
}

impl ResourceConstraint {
    /// The constraint that every resource meets.
    pub fn any() -> (constraint: Self)
        ensures
            constraint.constraint is Any,
    {
        ResourceConstraint { constraint: PrincipalOrResourceConstraint::Any }
    }
}

/// A constraint on the action of a request.
#[derive(Debug, PartialEq, Eq)]
pub enum ActionConstraint {
    /// Every action
    Any,
    /// The given actions and their descendants
    In(Vec<EntityUID>),
    /// The given action
    Eq(EntityUID),
}

/// A policy.
#[derive(Debug, PartialEq, Eq)]
pub struct Policy {
    effect: Effect,
    id: PolicyID,
    principal_constraint: PrincipalConstraint,
    action_constraint: ActionConstraint,
    resource_constraint: ResourceConstraint,
    non_head_constraints: Arc<Expr>,
    annotations: Arc<Annotations>,
}

/// What a [`Policy`] is made of.
pub struct PolicyView {
    /// The effect
    pub effect: Effect,
    /// The text of the identifier
    pub id: Seq<char>,
    /// The constraint on the principal
    pub principal_constraint: PrincipalConstraint,
    /// The constraint on the action
    pub action_constraint: ActionConstraint,
    /// The constraint on the resource
    pub resource_constraint: ResourceConstraint,
    /// The condition
    pub non_head_constraints: ExprView,
    /// The annotations
    pub annotations: Arc<Annotations>,
}

impl PolicyView {
    /// The policy that applies to every principal, action and resource, under the condition
    /// `expr`.
    pub open spec fn from_when_clause(
        effect: Effect,
        expr: ExprView,
        id: Seq<char>,
        annotations: Arc<Annotations>,
    ) -> PolicyView {
        PolicyView {
            effect,
            id,
            principal_constraint: PrincipalConstraint {
                constraint: PrincipalOrResourceConstraint::Any,
            },
            action_constraint: ActionConstraint::Any,
            resource_constraint: ResourceConstraint {
                constraint: PrincipalOrResourceConstraint::Any,
            },
            non_head_constraints: expr,
            annotations,
        }
    }
}

impl View for Policy {
    type V = PolicyView;

    closed spec fn view(&self) -> PolicyView {
        PolicyView {
            effect: self.effect,
            id: self.id.text(),
            principal_constraint: self.principal_constraint,
            action_constraint: self.action_constraint,
            resource_constraint: self.resource_constraint,
            non_head_constraints: self.non_head_constraints@,
            annotations: self.annotations,
        }
    }
}

/// The views of several policies, in order.
pub open spec fn policy_views(policies: Seq<Policy>) -> Seq<PolicyView> {
    policies.map_values(|p: Policy| p@)
}

/// The identifiers of several policies, in order.
pub open spec fn policy_ids(policies: Seq<PolicyView>) -> Seq<Seq<char>> {
    policies.map_values(|p: PolicyView| p.id)
}

impl Policy {
    /// The policy that applies to every principal, action and resource, under the condition
    /// `expr`, without annotations.
    pub fn from_when_clause(effect: Effect, expr: Expr, id: PolicyID) -> (policy: Self)
        ensures
            policy@ == PolicyView::from_when_clause(
                effect,
                expr@,
                id.text(),
                policy@.annotations,
            ),
            policy@.annotations.entries@ == Map::<Seq<char>, SmolStr>::empty(),
            policy@.annotations.entries.entry_seq() == Seq::<(SmolStr, SmolStr)>::empty(),
    {
        Self::from_when_clause_annos(effect, Arc::new(expr), id, Arc::new(Annotations::default()))
    }

    /// The policy that applies to every principal, action and resource, under the condition
    /// `expr`, with the given annotations.
    pub fn from_when_clause_annos(
        effect: Effect,
        expr: Arc<Expr>,
        id: PolicyID,
        annotations: Arc<Annotations>,
    ) -> (policy: Self)
        ensures
            policy@ == PolicyView::from_when_clause(effect, expr@, id.text(), annotations),
    {
        Policy {
            effect,
            id,
            principal_constraint: PrincipalConstraint::any(),
            action_constraint: ActionConstraint::Any,
            resource_constraint: ResourceConstraint::any(),
            non_head_constraints: expr,
            annotations,
        }
    }

    /// The effect of the policy.
    pub fn effect(&self) -> (effect: Effect)
        ensures
            effect == self@.effect,
    {
        self.effect
    }

    /// The identifier of the policy.
    pub fn id(&self) -> (id: &PolicyID)
        ensures
            id.text() == self@.id,
    {
        &self.id
    }

    /// The constraint on the principal.
    pub fn principal_constraint(&self) -> (constraint: &PrincipalConstraint)
        ensures
            *constraint == self@.principal_constraint,
    {
        &self.principal_constraint
    }

    /// The constraint on the action.
    pub fn action_constraint(&self) -> (constraint: &ActionConstraint)
        ensures
            *constraint == self@.action_constraint,
    {
        &self.action_constraint
    }

    /// The constraint on the resource.
    pub fn resource_constraint(&self) -> (constraint: &ResourceConstraint)
        ensures
            *constraint == self@.resource_constraint,
    {
        &self.resource_constraint
    }

    /// The condition of the policy, which holds on top of the three constraints.
    pub fn non_head_constraints(&self) -> (expr: &Expr)
        ensures
            expr@ == self@.non_head_constraints,
    {
        &self.non_head_constraints
    }

    /// The annotations of the policy, as pairs of a name and a text.
    pub fn annotations(&self) -> (annotations: &Vec<(SmolStr, SmolStr)>)
        ensures
            annotations@ == self@.annotations.entries.entry_seq(),
    {
        self.annotations.entries.entries()
    }

    /// The annotations of the policy, shared.
    pub fn annotations_arc(&self) -> (annotations: &Arc<Annotations>)
        ensures
            *annotations == self@.annotations,
    {
        &self.annotations
    }
}

/// Why several policies do not make a set.
#[derive(Debug, PartialEq, Eq)]
pub enum PolicySetError {
    /// An earlier policy has the same identifier
    Occupied {
        /// The identifier
        id: PolicyID,
    },
}

/// The identifier at position `i` occurs at an earlier position.
pub open spec fn repeats_at(ids: Seq<Seq<char>>, i: int) -> bool {
    0 <= i < ids.len() && ids.take(i).contains(ids[i])
}

/// Policies with distinct identifiers.
#[derive(Debug)]
pub struct PolicySet {
    policies: Vec<Policy>,
}

impl View for PolicySet {
    type V = Seq<Policy>;

    closed spec fn view(&self) -> Seq<Policy> {
        self.policies@
    }
}

impl PolicySet {
    #[verifier::type_invariant]
    spec fn distinct_ids(self) -> bool {
        policy_ids(policy_views(self.policies@)).no_duplicates()
    }

    /// The set of the given policies, if their identifiers are distinct. Otherwise the error
    /// names the first identifier that an earlier policy has.
    pub fn try_from_iter(policies: Vec<Policy>) -> (set: Result<Self, PolicySetError>)
        ensures
            match set {
                Ok(set) => set@ == policies@ && policy_ids(
                    policy_views(policies@),
                ).no_duplicates(),
                Err(PolicySetError::Occupied { id }) => {
                    let ids = policy_ids(policy_views(policies@));
                    exists|i: int| #[trigger]
                        repeats_at(ids, i) && ids[i] == id.text() && ids.take(i).no_duplicates()
                },
            },
            set is Ok <==> policy_ids(policy_views(policies@)).no_duplicates(),
    {
        let ghost ids = policy_ids(policy_views(policies@));
        let mut i: usize = 0;
        while i < policies.len()
            invariant
                i <= policies.len(),
                ids == policy_ids(policy_views(policies@)),
                ids.take(i as int).no_duplicates(),
            decreases policies.len() - i,
        {
            let mut j: usize = 0;
            while j < i
                invariant
                    j <= i < policies.len(),
                    ids == policy_ids(policy_views(policies@)),
                    ids.take(i as int).no_duplicates(),
                    forall|k: int| 0 <= k < j ==> ids[k] != ids[i as int],
                decreases i - j,
            {
                if policies[j].id.same_text(&policies[i].id) {
                    proof {
                        assert(ids.take(i as int)[j as int] == ids[i as int]);
                        assert(repeats_at(ids, i as int));
                        assert(ids[i as int] == ids[j as int] && i != j);
                        assert(!ids.no_duplicates());
                    }
                    return Err(PolicySetError::Occupied { id: policies[i].id.clone() });
                }
                j += 1;
            }
            assert(ids.take(i + 1) =~= ids.take(i as int).push(ids[i as int]));
            i += 1;
        }
        assert(ids.take(i as int) =~= ids);
        Ok(PolicySet { policies })
    }

    /// The policies of the set. Their identifiers are distinct.
    pub fn policies(&self) -> (policies: &Vec<Policy>)
        ensures
            policies@ == self@,
            policy_ids(policy_views(policies@)).no_duplicates(),
    {
        proof {
            use_type_invariant(self);
        }
        &self.policies
    }
}

} // verus!
