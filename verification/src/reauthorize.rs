//! Authorizing the policies of a partial response again.

use smol_str::SmolStr;
use vstd::prelude::*;

use crate::authorizer::{Authorizer, Evaluation};
use crate::expr::Value;
use crate::model::{PartialResponseView, Standing};
use crate::partial_response::PartialResponse;
use crate::policy::{Effect, Policy, PolicySet, PolicySetError, PolicyView};
use crate::residual::map_unknowns;
use crate::text::{TextKey, TextMap};
use crate::{model, policy, residual, text};

verus! {

impl PartialResponse {
    /// No category has two entries with the same identifier. Every response that is built has
    /// this.
    pub open spec fn well_formed(&self) -> bool {
        &&& self.satisfied_permits.distinct_keys()
        &&& self.false_permits.distinct_keys()
        &&& self.residual_permits.distinct_keys()
        &&& self.satisfied_forbids.distinct_keys()
        &&& self.false_forbids.distinct_keys()
        &&& self.residual_forbids.distinct_keys()
    }

    /// The identifiers of all policies are distinct if and only if no two categories share one.
    pub proof fn lemma_disjoint(&self)
        requires
            self.well_formed(),
        ensures
            self.all_ids().no_duplicates() <==> self@.disjoint(),
    {
        let k0 = self.satisfied_permits.keys();
        let k1 = self.false_permits.keys();
        let k2 = self.residual_permits.keys();
        let k3 = self.satisfied_forbids.keys();
        let k4 = self.false_forbids.keys();
        let k5 = self.residual_forbids.keys();
        self.satisfied_permits.lemma_entries();
        self.false_permits.lemma_entries();
        self.residual_permits.lemma_entries();
        self.satisfied_forbids.lemma_entries();
        self.false_forbids.lemma_entries();
        self.residual_forbids.lemma_entries();
        lemma_no_duplicates_of_sum(k0, k1);
        lemma_no_duplicates_of_sum(k0 + k1, k2);
        lemma_no_duplicates_of_sum(k0 + k1 + k2, k3);
        lemma_no_duplicates_of_sum(k0 + k1 + k2 + k3, k4);
        lemma_no_duplicates_of_sum(k0 + k1 + k2 + k3 + k4, k5);
        text::lemma_to_set_of_sum(k0, k1);
        text::lemma_to_set_of_sum(k0 + k1, k2);
        text::lemma_to_set_of_sum(k0 + k1 + k2, k3);
        text::lemma_to_set_of_sum(k0 + k1 + k2 + k3, k4);
        let v = self@;
        assert(v.ids(Effect::Permit, Standing::Satisfied) == k0.to_set());
        assert(v.ids(Effect::Permit, Standing::False) == k1.to_set());
        assert(v.ids(Effect::Permit, Standing::Residual) == k2.to_set());
        assert(v.ids(Effect::Forbid, Standing::Satisfied) == k3.to_set());
        assert(v.ids(Effect::Forbid, Standing::False) == k4.to_set());
        assert(v.ids(Effect::Forbid, Standing::Residual) == k5.to_set());
    }

    /// The identifiers of all policies: those of the permits, then those of the forbids.
    pub open spec fn all_ids(&self) -> Seq<Seq<char>> {
        self.satisfied_permits.keys() + self.false_permits.keys() + self.residual_permits.keys()
            + self.satisfied_forbids.keys() + self.false_forbids.keys()
            + self.residual_forbids.keys()
    }

    /// Every policy with its residual as its condition, with values in the place of unknowns.
    pub open spec fn substituted_policies(&self, mapping: Map<Seq<char>, Value>) -> Seq<
        PolicyView,
    > {
        model::residual_policies(model::substitute_residuals(self.residuals(), mapping))
    }

    /// The set of all policies, each with its residual as its condition, with the mapped values
    /// in the place of unknowns.
    pub fn all_policies(&self, mapping: &TextMap<SmolStr, Value>) -> (set: Result<
        PolicySet,
        PolicySetError,
    >)
        ensures
            match set {
                Ok(set) => policy::policy_views(set@) == self.substituted_policies(mapping@),
                Err(PolicySetError::Occupied { id }) => exists|i: int| #[trigger]
                    policy::repeats_at(self.all_ids(), i) && self.all_ids()[i] == id.text()
                        && self.all_ids().take(i).no_duplicates(),
            },
            set is Ok <==> self.all_ids().no_duplicates(),
    {
        let mut prototypes = self.all_permit_residuals();
        let mut forbids = self.all_forbid_residuals();
        let ghost (left, right) = (prototypes@, forbids@);
        prototypes.append(&mut forbids);
        assert(residual::prototype_views(prototypes@) =~= residual::prototype_views(left)
            + residual::prototype_views(right));
        let mut policies: Vec<Policy> = Vec::new();
        let mut i: usize = 0;
        while i < prototypes.len()
            invariant
                i <= prototypes.len(),
                policies.len() == i,
                forall|j: int|
                    0 <= j < i ==> (#[trigger] policies@[j])@ == residual::prototype_view(
                        prototypes@[j],
                    ).substitute(mapping@).policy(),
            decreases prototypes.len() - i,
        {
            policies.push(map_unknowns(mapping, prototypes[i]));
            i += 1;
        }
        proof {
            assert(policy::policy_views(policies@) =~= self.substituted_policies(mapping@));
            self.lemma_policy_ids(mapping@);
        }
        PolicySet::try_from_iter(policies)
    }

    /// Substitution keeps the identifiers of the policies and their order.
    pub proof fn lemma_policy_ids(&self, mapping: Map<Seq<char>, Value>)
        ensures
            policy::policy_ids(self.substituted_policies(mapping)) == self.all_ids(),
            policy::policy_ids(model::residual_policies(self.residuals())) == self.all_ids(),
    {
        assert(policy::policy_ids(self.substituted_policies(mapping)) =~= self.all_ids());
        assert(policy::policy_ids(model::residual_policies(self.residuals())) =~= self.all_ids());
    }

    /// The residual at position `i` is that of a policy that stands as given: a trivial one unless
    /// the policy has a nontrivial residual.
    pub open spec fn residual_at(
        &self,
        i: int,
        effect: Effect,
        standing: Standing,
        id: Seq<char>,
    ) -> bool {
        &&& 0 <= i < self.residuals().len()
        &&& self.residuals()[i].effect == effect
        &&& self.residuals()[i].id == id
        &&& standing is Satisfied ==> self.residuals()[i].expr == model::bool_expr(true)
        &&& standing is False ==> self.residuals()[i].expr == model::bool_expr(false)
        &&& standing is Residual && effect is Permit ==> self.residuals()[i].expr
            == self@.residual_permits[id].0
        &&& standing is Residual && effect is Forbid ==> self.residuals()[i].expr
            == self@.residual_forbids[id].0
    }

    /// There is a residual for every policy of the response.
    proof fn lemma_residual_of(&self, effect: Effect, standing: Standing, id: Seq<char>) -> (i: int)
        requires
            self.well_formed(),
            self@.ids(effect, standing).contains(id),
        ensures
            self.residual_at(i, effect, standing, id),
    {
        let n0 = self.satisfied_permits.entry_seq().len();
        let n1 = self.false_permits.entry_seq().len();
        let n2 = self.residual_permits.entry_seq().len();
        let n3 = self.satisfied_forbids.entry_seq().len();
        let n4 = self.false_forbids.entry_seq().len();
        match (effect, standing) {
            (Effect::Permit, Standing::Satisfied) => {
                self.satisfied_permits.lemma_entries();
                let entries = self.satisfied_permits.entry_seq();
                choose|i: int| 0 <= i < entries.len() && (#[trigger] entries[i]).0.text() == id
            },
            (Effect::Permit, Standing::False) => {
                self.false_permits.lemma_entries();
                let entries = self.false_permits.entry_seq();
                n0 + choose|i: int| 0 <= i < entries.len() && (#[trigger] entries[i]).0.text() == id
            },
            (Effect::Permit, Standing::Residual) => {
                self.residual_permits.lemma_entries();
                let entries = self.residual_permits.entry_seq();
                n0 + n1 + choose|i: int|
                    0 <= i < entries.len() && (#[trigger] entries[i]).0.text() == id
            },
            (Effect::Forbid, Standing::Satisfied) => {
                self.satisfied_forbids.lemma_entries();
                let entries = self.satisfied_forbids.entry_seq();
                n0 + n1 + n2 + choose|i: int|
                    0 <= i < entries.len() && (#[trigger] entries[i]).0.text() == id
            },
            (Effect::Forbid, Standing::False) => {
                self.false_forbids.lemma_entries();
                let entries = self.false_forbids.entry_seq();
                n0 + n1 + n2 + n3 + choose|i: int|
                    0 <= i < entries.len() && (#[trigger] entries[i]).0.text() == id
            },
            (Effect::Forbid, Standing::Residual) => {
                self.residual_forbids.lemma_entries();
                let entries = self.residual_forbids.entry_seq();
                n0 + n1 + n2 + n3 + n4 + choose|i: int|
                    0 <= i < entries.len() && (#[trigger] entries[i]).0.text() == id
            },
        }
    }

    /// Every residual is that of a policy of the response.
    pub proof fn lemma_residual_standing(&self, i: int) -> (standing: Standing)
        requires
            self.well_formed(),
            0 <= i < self.residuals().len(),
        ensures
            self@.ids(self.residuals()[i].effect, standing).contains(self.residuals()[i].id),
            self.residual_at(i, self.residuals()[i].effect, standing, self.residuals()[i].id),
    {
        self.satisfied_permits.lemma_entries();
        self.false_permits.lemma_entries();
        self.residual_permits.lemma_entries();
        self.satisfied_forbids.lemma_entries();
        self.false_forbids.lemma_entries();
        self.residual_forbids.lemma_entries();
        let n0 = self.satisfied_permits.entry_seq().len();
        let n1 = n0 + self.false_permits.entry_seq().len();
        let n2 = n1 + self.residual_permits.entry_seq().len();
        let n3 = n2 + self.satisfied_forbids.entry_seq().len();
        let n4 = n3 + self.false_forbids.entry_seq().len();
        if i < n0 {
            assert(self.residuals()[i].id == self.satisfied_permits.entry_seq()[i].0.text());
            Standing::Satisfied
        } else if i < n1 {
            assert(self.residuals()[i].id == self.false_permits.entry_seq()[i - n0].0.text());
            Standing::False
        } else if i < n2 {
            assert(self.residuals()[i].id == self.residual_permits.entry_seq()[i - n1].0.text());
            Standing::Residual
        } else if i < n3 {
            assert(self.residuals()[i].id == self.satisfied_forbids.entry_seq()[i - n2].0.text());
            Standing::Satisfied
        } else if i < n4 {
            assert(self.residuals()[i].id == self.false_forbids.entry_seq()[i - n3].0.text());
            Standing::False
        } else {
            assert(self.residuals()[i].id == self.residual_forbids.entry_seq()[i - n4].0.text());
            Standing::Residual
        }
    }

    /// Where the evaluator decides literals, authorizing the policies again leaves every policy
    /// standing as it does, but for those with a residual.
    proof fn lemma_refined<R, S, F: Fn(&R, &S, &Policy) -> Evaluation>(
        &self,
        mapping: Map<Seq<char>, Value>,
        auth: &Authorizer<F>,
        r: R,
        es: &S,
        policies: Seq<Policy>,
        outcomes: Seq<Evaluation>,
    )
        requires
            self.well_formed(),
            policy::policy_views(policies) == self.substituted_policies(mapping),
            auth.evaluates(r, es, policies, outcomes),
            auth.decides_literals(r, es),
        ensures
            self@.refined_by(
                PartialResponseView::classify(self.substituted_policies(mapping), outcomes),
            ),
            forall|j: int|
                0 <= j < PartialResponseView::classify(
                    self.substituted_policies(mapping),
                    outcomes,
                ).errors.len() ==> self@.nontrivial_residual_ids().contains(
                    (#[trigger] PartialResponseView::classify(
                        self.substituted_policies(mapping),
                        outcomes,
                    ).errors[j])->id,
                ),
    {
        let views = self.substituted_policies(mapping);
        let new = PartialResponseView::classify(views, outcomes);
        let residuals = self.residuals();
        assert(views.len() == residuals.len() && policies.len() == views.len());
        assert forall|i: int, standing: Standing|
            0 <= i < views.len() && #[trigger] self.residual_at(
                i,
                residuals[i].effect,
                standing,
                residuals[i].id,
            ) && !(standing is Residual) implies outcomes[i] == Evaluation::Value(
            standing is Satisfied,
        ) by {
            assert(policies[i]@ == views[i]);
            assert(views[i] == residuals[i].substitute(mapping).policy());
            assert(residuals[i].expr == model::bool_expr(standing is Satisfied));
            assert(call_ensures(auth.evaluate, (&r, es, &policies[i]), outcomes[i]));
        }
        assert forall|j: int|
            0 <= j < new.errors.len() implies self@.nontrivial_residual_ids().contains(
            (#[trigger] new.errors[j])->id,
        ) by {
            let i = model::lemma_classify_errors(views, outcomes, j);
            assert(views[i] == residuals[i].substitute(mapping).policy());
            let standing = self.lemma_residual_standing(i);
            assert(self.residual_at(i, residuals[i].effect, standing, residuals[i].id));
            assert(standing is Residual);
        }
        assert forall|effect: Effect, id: Seq<char>| #[trigger]
            self@.refined_at(new, effect, id) by {
            model::lemma_classify_ids(views, outcomes, effect, Standing::Satisfied, id);
            model::lemma_classify_ids(views, outcomes, effect, Standing::False, id);
            model::lemma_classify_ids(views, outcomes, effect, Standing::Residual, id);
            if self@.ids(effect, Standing::Satisfied).contains(id) {
                let i = self.lemma_residual_of(effect, Standing::Satisfied, id);
                assert(views[i].id == id && views[i].effect == effect);
            }
            if self@.ids(effect, Standing::False).contains(id) {
                let i = self.lemma_residual_of(effect, Standing::False, id);
                assert(views[i].id == id && views[i].effect == effect);
            }
            if self@.ids(effect, Standing::Residual).contains(id) {
                let i = self.lemma_residual_of(effect, Standing::Residual, id);
                assert(views[i].id == id && views[i].effect == effect);
            }
            assert forall|now: Standing| #[trigger] new.ids(effect, now).contains(id) implies
                self@.ids(effect, now).contains(id) || self@.ids(
                effect,
                Standing::Residual,
            ).contains(id) by {
                model::lemma_classify_ids(views, outcomes, effect, now, id);
                let i = choose|i: int|
                    #![trigger views[i]]
                    0 <= i < views.len() && views[i].id == id && views[i].effect == effect
                        && Standing::of(outcomes[i]) == now;
                assert(views[i] == residuals[i].substitute(mapping).policy());
                let standing = self.lemma_residual_standing(i);
                assert(self.residual_at(i, residuals[i].effect, standing, residuals[i].id));
            }
        }
    }

    /// Authorizes the policies again, each with its residual as its condition and the mapped
    /// values in the place of unknowns. The authorizer evaluates them for the given request and
    /// entities. It fails if two categories of the response share an identifier.
    pub fn reauthorize<R, S, F: Fn(&R, &S, &Policy) -> Evaluation>(
        &self,
        mapping: &TextMap<SmolStr, Value>,
        auth: &Authorizer<F>,
        r: R,
        es: &S,
    ) -> (response: Result<Self, PolicySetError>)
        requires
            auth.total(r, es),
        ensures
            match response {
                Ok(response) => exists|policies: Seq<Policy>, outcomes: Seq<Evaluation>|
                    #![trigger auth.evaluates(r, es, policies, outcomes)]
                    {
                        &&& policy::policy_views(policies) == self.substituted_policies(mapping@)
                        &&& auth.evaluates(r, es, policies, outcomes)
                        &&& response@ == PartialResponseView::classify(
                            self.substituted_policies(mapping@),
                            outcomes,
                        )
                    },
                Err(PolicySetError::Occupied { id }) => exists|i: int| #[trigger]
                    policy::repeats_at(self.all_ids(), i) && self.all_ids()[i] == id.text()
                        && self.all_ids().take(i).no_duplicates(),
            },
            response is Ok <==> self.all_ids().no_duplicates(),
            response is Ok <==> self@.disjoint(),
            response matches Ok(new) ==> new@.disjoint() && new.well_formed(),
            response matches Ok(new) ==> (auth.decides_literals(r, es) ==> {
                &&& self@.refined_by(new@)
                &&& forall|j: int|
                    0 <= j < new@.errors.len() ==> self@.nontrivial_residual_ids().contains(
                        (#[trigger] new@.errors[j])->id,
                    )
            }),
    {
        let set = self.all_policies(mapping);
        proof {
            use_type_invariant(&self.satisfied_permits);
            use_type_invariant(&self.false_permits);
            use_type_invariant(&self.residual_permits);
            use_type_invariant(&self.satisfied_forbids);
            use_type_invariant(&self.false_forbids);
            use_type_invariant(&self.residual_forbids);
            self.lemma_disjoint();
        }
        match set {
            Ok(policies) => {
                let response = auth.is_authorized_core(r, &policies, es);
                proof {
                    if auth.decides_literals(r, es) {
                        let outcomes = choose|outcomes: Seq<Evaluation>|
                            #![trigger auth.evaluates(r, es, policies@, outcomes)]
                            auth.evaluates(r, es, policies@, outcomes) && response@
                                == PartialResponseView::classify(
                                policy::policy_views(policies@),
                                outcomes,
                            );
                        self.lemma_refined(mapping@, auth, r, es, policies@, outcomes);
                    }
                }
                Ok(response)
            },
            Err(error) => Err(error),
        }
    }
}

/// A concatenation has no duplicates if neither part has any and they share no element.
proof fn lemma_no_duplicates_of_sum<T>(left: Seq<T>, right: Seq<T>)
    ensures
        (left + right).no_duplicates() <==> left.no_duplicates() && right.no_duplicates()
            && left.to_set().disjoint(right.to_set()),
{
    let sum = left + right;
    if sum.no_duplicates() {
        assert forall|i: int, j: int|
            0 <= i < left.len() && 0 <= j < left.len() && i != j implies left[i] != left[j] by {
            assert(sum[i] == left[i] && sum[j] == left[j]);
        }
        assert forall|i: int, j: int|
            0 <= i < right.len() && 0 <= j < right.len() && i != j implies right[i] != right[j] by {
            assert(sum[left.len() + i] == right[i] && sum[left.len() + j] == right[j]);
        }
        assert forall|x: T| !(left.to_set().contains(x) && right.to_set().contains(x)) by {
            if left.contains(x) && right.contains(x) {
                let i = choose|i: int| 0 <= i < left.len() && left[i] == x;
                let j = choose|j: int| 0 <= j < right.len() && right[j] == x;
                assert(sum[i] == x && sum[left.len() + j] == x);
            }
        }
    }
    if left.no_duplicates() && right.no_duplicates() && left.to_set().disjoint(right.to_set()) {
        assert forall|i: int, j: int|
            0 <= i < sum.len() && 0 <= j < sum.len() && i != j implies sum[i] != sum[j] by {
            if i < left.len() && j >= left.len() {
                assert(left.to_set().contains(sum[i]));
                assert(right[j - left.len()] == sum[j]);
                assert(right.to_set().contains(sum[j]));
            }
            if j < left.len() && i >= left.len() {
                assert(left.to_set().contains(sum[j]));
                assert(right[i - left.len()] == sum[i]);
                assert(right.to_set().contains(sum[i]));
            }
        }
    }
}

} // verus!
