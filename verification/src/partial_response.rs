//! Partial responses: what is known of the response to a request.

use std::sync::Arc;
use vstd::prelude::*;

use crate::expr::{Expr, ExprView};
use crate::model::{PartialResponseView, ResidualView};
use crate::policy::{Annotations, Effect, Policy};
use crate::policy_id::PolicyID;
use crate::response::{
    AuthorizationError, AuthorizationErrorView, Decision, EvaluationError, EvaluationErrorView,
    Response,
};
use crate::residual::{construct_policies, nontrivial, PolicyPrototype, TrivialExprs};
use crate::text::{Duplicate, TextKey, TextMap};
use crate::{model, policy, residual, response, text};

verus! {

/// Whether a policy is not satisfied because it evaluates to `false`, or because it errored.
#[derive(Debug, Clone, Copy, PartialEq, Eq, PartialOrd, Ord, Hash, Structural)]
pub enum ErrorState {
    /// The policy did not error
    NoError,
    /// The policy did error
    Error,
}

/// A partially evaluated authorization response. It sorts the policies, by effect, into those that
/// were satisfied, those that were not, and those of which a residual is left. It also holds the
/// errors that were encountered during evaluation.
#[derive(Debug, PartialEq, Eq)]
pub struct PartialResponse {
    /// The [`Effect::Permit`] policies that were satisfied
    pub satisfied_permits: TextMap<PolicyID, Arc<Annotations>>,
    /// The [`Effect::Permit`] policies that were not satisfied
    pub false_permits: TextMap<PolicyID, (ErrorState, Arc<Annotations>)>,
    /// The [`Effect::Permit`] policies that evaluated to a residual
    pub residual_permits: TextMap<PolicyID, (Arc<Expr>, Arc<Annotations>)>,
    /// The [`Effect::Forbid`] policies that were satisfied
    pub satisfied_forbids: TextMap<PolicyID, Arc<Annotations>>,
    /// The [`Effect::Forbid`] policies that were not satisfied
    pub false_forbids: TextMap<PolicyID, (ErrorState, Arc<Annotations>)>,
    /// The [`Effect::Forbid`] policies that evaluated to a residual
    pub residual_forbids: TextMap<PolicyID, (Arc<Expr>, Arc<Annotations>)>,
    /// The errors encountered during evaluation
    pub errors: Vec<AuthorizationError>,
    /// The expressions `true` and `false`
    pub trivial: TrivialExprs,
}

/// A map of residuals, with each expression as its syntax tree.
pub open spec fn residual_map(map: Map<Seq<char>, (Arc<Expr>, Arc<Annotations>)>) -> Map<
    Seq<char>,
    (ExprView, Arc<Annotations>),
> {
    map.map_values(|v: (Arc<Expr>, Arc<Annotations>)| (v.0@, v.1))
}

/// Inserting a residual inserts its syntax tree.
pub proof fn lemma_residual_map_insert(
    map: Map<Seq<char>, (Arc<Expr>, Arc<Annotations>)>,
    id: Seq<char>,
    residual: (Arc<Expr>, Arc<Annotations>),
)
    ensures
        residual_map(map.insert(id, residual)) == residual_map(map).insert(
            id,
            (residual.0@, residual.1),
        ),
{
    assert(residual_map(map.insert(id, residual)) =~= residual_map(map).insert(
        id,
        (residual.0@, residual.1),
    ));
}

impl View for PartialResponse {
    type V = PartialResponseView;

    open spec fn view(&self) -> PartialResponseView {
        PartialResponseView {
            satisfied_permits: self.satisfied_permits@,
            false_permits: self.false_permits@,
            residual_permits: residual_map(self.residual_permits@),
            satisfied_forbids: self.satisfied_forbids@,
            false_forbids: self.false_forbids@,
            residual_forbids: residual_map(self.residual_forbids@),
            errors: response::error_views(self.errors@),
        }
    }
}

impl Duplicate for ErrorState {
    fn duplicate(&self) -> (copy: Self) {
        *self
    }
}

impl Clone for PartialResponse {
    fn clone(&self) -> (copy: Self)
        ensures
            copy@ == self@,
            copy.satisfied_permits.keys() == self.satisfied_permits.keys(),
            copy.false_permits.keys() == self.false_permits.keys(),
            copy.residual_permits.keys() == self.residual_permits.keys(),
            copy.satisfied_forbids.keys() == self.satisfied_forbids.keys(),
            copy.false_forbids.keys() == self.false_forbids.keys(),
            copy.residual_forbids.keys() == self.residual_forbids.keys(),
            copy.trivial.true_view() == self.trivial.true_view(),
            copy.trivial.false_view() == self.trivial.false_view(),
    {
        let mut errors: Vec<AuthorizationError> = Vec::new();
        let mut i: usize = 0;
        while i < self.errors.len()
            invariant
                i <= self.errors.len(),
                errors.len() == i,
                forall|j: int| 0 <= j < i ==> (#[trigger] errors@[j])@ == self.errors@[j]@,
            decreases self.errors.len() - i,
        {
            errors.push(self.errors[i].clone());
            i += 1;
        }
        assert(response::error_views(errors@) =~= response::error_views(self.errors@));
        PartialResponse {
            satisfied_permits: self.satisfied_permits.clone(),
            false_permits: self.false_permits.clone(),
            residual_permits: self.residual_permits.clone(),
            satisfied_forbids: self.satisfied_forbids.clone(),
            false_forbids: self.false_forbids.clone(),
            residual_forbids: self.residual_forbids.clone(),
            errors,
            trivial: self.trivial.clone(),
        }
    }
}

impl PartialResponse {
    /// A partial response from the policies of each category. Where an identifier occurs twice
    /// in one category, its last occurrence stands.
    pub fn new(
        true_permits: Vec<(PolicyID, Arc<Annotations>)>,
        false_permits: Vec<(PolicyID, (ErrorState, Arc<Annotations>))>,
        residual_permits: Vec<(PolicyID, (Arc<Expr>, Arc<Annotations>))>,
        true_forbids: Vec<(PolicyID, Arc<Annotations>)>,
        false_forbids: Vec<(PolicyID, (ErrorState, Arc<Annotations>))>,
        residual_forbids: Vec<(PolicyID, (Arc<Expr>, Arc<Annotations>))>,
        errors: Vec<AuthorizationError>,
    ) -> (response: Self)
        ensures
            response.satisfied_permits@ == text::collected(true_permits@),
            response.satisfied_permits.keys() == text::first_occurrences(true_permits@),
            response.false_permits@ == text::collected(false_permits@),
            response.false_permits.keys() == text::first_occurrences(false_permits@),
            response.residual_permits@ == text::collected(residual_permits@),
            response.residual_permits.keys() == text::first_occurrences(residual_permits@),
            response.satisfied_forbids@ == text::collected(true_forbids@),
            response.satisfied_forbids.keys() == text::first_occurrences(true_forbids@),
            response.false_forbids@ == text::collected(false_forbids@),
            response.false_forbids.keys() == text::first_occurrences(false_forbids@),
            response.residual_forbids@ == text::collected(residual_forbids@),
            response.residual_forbids.keys() == text::first_occurrences(residual_forbids@),
            response.errors == errors,
            response.trivial.true_view() == model::bool_expr(true),
            response.trivial.false_view() == model::bool_expr(false),
            response.well_formed(),
    {
        let response = PartialResponse {
            satisfied_permits: TextMap::from_pairs(true_permits),
            false_permits: TextMap::from_pairs(false_permits),
            residual_permits: TextMap::from_pairs(residual_permits),
            satisfied_forbids: TextMap::from_pairs(true_forbids),
            false_forbids: TextMap::from_pairs(false_forbids),
            residual_forbids: TextMap::from_pairs(residual_forbids),
            errors,
            trivial: TrivialExprs::new(),
        };
        proof {
            use_type_invariant(&response.satisfied_permits);
            use_type_invariant(&response.false_permits);
            use_type_invariant(&response.residual_permits);
            use_type_invariant(&response.satisfied_forbids);
            use_type_invariant(&response.false_forbids);
            use_type_invariant(&response.residual_forbids);
        }
        response
    }

    /// The decision that the response fixes. `None` says that the decision depends on residuals.
    pub fn decision(&self) -> (decision: Option<Decision>)
        ensures
            decision == self@.decision(),
    {
        match (
            !self.satisfied_forbids.is_empty(),
            !self.satisfied_permits.is_empty(),
            !self.residual_permits.is_empty(),
            !self.residual_forbids.is_empty(),
        ) {
            // A satisfied forbid denies
            (true, _, _, _) => Some(Decision::Deny),
            // Without a permit that is or may be satisfied, the default is to deny
            (_, false, false, _) => Some(Decision::Deny),
            // A forbid that may be satisfied overrides every permit if it is
            (false, _, _, true) => None,
            // Only permits that may be satisfied, and no forbid
            (false, false, true, false) => None,
            // A satisfied permit, and no forbid that is or may be satisfied
            (false, true, _, false) => Some(Decision::Allow),
        }
    }

    /// The [`Effect::Permit`] policies that are satisfied.
    pub fn definitely_satisfied_permits(&self) -> (ids: Vec<&PolicyID>)
        ensures
            text::ref_texts(ids@) == self.satisfied_permits.keys(),
            text::ref_texts(ids@).to_set() == self@.satisfied_permits.dom(),
    {
        ids_of(&self.satisfied_permits)
    }

    /// The [`Effect::Forbid`] policies that are satisfied.
    pub fn definitely_satisfied_forbids(&self) -> (ids: Vec<&PolicyID>)
        ensures
            text::ref_texts(ids@) == self.satisfied_forbids.keys(),
            text::ref_texts(ids@).to_set() == self@.satisfied_forbids.dom(),
    {
        ids_of(&self.satisfied_forbids)
    }

    /// The policies that are satisfied: the permits, then the forbids.
    pub fn definitely_satisfied(&self) -> (ids: Vec<&PolicyID>)
        ensures
            text::ref_texts(ids@) == self.satisfied_permits.keys() + self.satisfied_forbids.keys(),
            text::ref_texts(ids@).to_set() == self@.definitely_satisfied(),
    {
        chain(self.definitely_satisfied_permits(), self.definitely_satisfied_forbids())
    }

    /// The policies whose evaluation failed: the permits, then the forbids.
    pub fn definitely_errored(&self) -> (ids: Vec<&PolicyID>)
        ensures
            text::ref_texts(ids@) == errored_ids(self.false_permits.entry_seq()) + errored_ids(
                self.false_forbids.entry_seq(),
            ),
            forall|id: Seq<char>| #[trigger]
                text::ref_texts(ids@).contains(id) <==> self@.errored(id),
    {
        let permits = errored(&self.false_permits);
        let forbids = errored(&self.false_forbids);
        let ghost (left, right) = (text::ref_texts(permits@), text::ref_texts(forbids@));
        let ids = chain(permits, forbids);
        proof {
            text::lemma_to_set_of_sum(left, right);
            assert forall|id: Seq<char>| #[trigger]
                text::ref_texts(ids@).contains(id) <==> self@.errored(id) by {
                assert((left + right).to_set().contains(id) <==> left.to_set().contains(id)
                    || right.to_set().contains(id));
            }
        }
        ids
    }

    /// An over-approximation of the policies that determine the decision: every policy that
    /// determines it for some substitution of the unknowns.
    pub fn may_be_determining(&self) -> (ids: Vec<&PolicyID>)
        ensures
            text::ref_texts(ids@) == if self@.satisfied_forbids.dom().is_empty() {
                self.satisfied_permits.keys() + self.residual_permits.keys()
                    + self.residual_forbids.keys()
            } else {
                self.satisfied_forbids.keys() + self.residual_forbids.keys()
            },
            text::ref_texts(ids@).to_set() == self@.may_be_determining(),
    {
        if self.satisfied_forbids.is_empty() {
            // No forbid is satisfied: whatever is or may be satisfied
            chain(
                chain(self.definitely_satisfied_permits(), ids_of(&self.residual_permits)),
                ids_of(&self.residual_forbids),
            )
        } else {
            // A forbid is satisfied: only forbids that are or may be satisfied
            chain(self.definitely_satisfied_forbids(), ids_of(&self.residual_forbids))
        }
    }

    /// An under-approximation of the policies that determine the decision: policies that
    /// determine it for every substitution of the unknowns.
    pub fn must_be_determining(&self) -> (ids: Vec<&PolicyID>)
        ensures
            text::ref_texts(ids@) == if self@.satisfied_forbids.dom().is_empty()
                && self@.residual_forbids.dom().is_empty() {
                self.satisfied_permits.keys()
            } else {
                self.satisfied_forbids.keys()
            },
            text::ref_texts(ids@).to_set() == self@.must_be_determining(),
    {
        // Without a forbid that is or may be satisfied, the satisfied permits
        if self.satisfied_forbids.is_empty() && self.residual_forbids.is_empty() {
            self.definitely_satisfied_permits()
        } else {
            // Otherwise the satisfied forbids
            self.definitely_satisfied_forbids()
        }
    }

    /// The identifiers of the policies with a nontrivial residual (one other than `true` and
    /// `false`): the permits, then the forbids.
    pub fn nontrivial_residual_ids(&self) -> (ids: Vec<&PolicyID>)
        ensures
            text::ref_texts(ids@) == self.residual_permits.keys() + self.residual_forbids.keys(),
            text::ref_texts(ids@).to_set() == self@.nontrivial_residual_ids(),
    {
        chain(ids_of(&self.residual_permits), ids_of(&self.residual_forbids))
    }

    /// The nontrivial residuals of the permits.
    pub open spec fn nontrivial_permit_views(&self) -> Seq<ResidualView> {
        residual::nontrivial_residuals_of(Effect::Permit, self.residual_permits.entry_seq())
    }

    /// The nontrivial residuals of the forbids.
    pub open spec fn nontrivial_forbid_views(&self) -> Seq<ResidualView> {
        residual::nontrivial_residuals_of(Effect::Forbid, self.residual_forbids.entry_seq())
    }

    /// The nontrivial residuals: those of the permits, then those of the forbids.
    pub open spec fn nontrivial_views(&self) -> Seq<ResidualView> {
        self.nontrivial_permit_views() + self.nontrivial_forbid_views()
    }

    /// The policies with a nontrivial residual (one other than `true` and `false`) as their
    /// condition: the permits, then the forbids.
    pub fn nontrivial_residuals(&self) -> (policies: Vec<Policy>)
        ensures
            policy::policy_views(policies@) == model::residual_policies(self.nontrivial_views()),
    {
        let mut policies = self.nontrival_permits();
        let mut forbids = self.nontrival_forbids();
        let ghost (left, right) = (policies@, forbids@);
        policies.append(&mut forbids);
        assert(policy::policy_views(policies@) =~= policy::policy_views(left)
            + policy::policy_views(right));
        assert(policy::policy_views(policies@) =~= model::residual_policies(
            self.nontrivial_views(),
        ));
        policies
    }

    /// The [`Effect::Permit`] policies with a nontrivial residual as their condition.
    fn nontrival_permits(&self) -> (policies: Vec<Policy>)
        ensures
            policy::policy_views(policies@) == model::residual_policies(
                self.nontrivial_permit_views(),
            ),
    {
        construct_policies(&nontrivial(Effect::Permit, &self.residual_permits))
    }

    /// The [`Effect::Forbid`] policies with a nontrivial residual as their condition.
    pub fn nontrival_forbids(&self) -> (policies: Vec<Policy>)
        ensures
            policy::policy_views(policies@) == model::residual_policies(
                self.nontrivial_forbid_views(),
            ),
    {
        construct_policies(&nontrivial(Effect::Forbid, &self.residual_forbids))
    }

    /// The residuals of the permits: first those of the satisfied ones, then those of the ones
    /// that are not satisfied, then the nontrivial ones.
    pub open spec fn permit_residuals(&self) -> Seq<ResidualView> {
        residual::satisfied_residuals_of(Effect::Permit, self.satisfied_permits.entry_seq())
            + residual::false_residuals_of(Effect::Permit, self.false_permits.entry_seq())
            + self.nontrivial_permit_views()
    }

    /// The residuals of the forbids: first those of the satisfied ones, then those of the ones
    /// that are not satisfied, then the nontrivial ones.
    pub open spec fn forbid_residuals(&self) -> Seq<ResidualView> {
        residual::satisfied_residuals_of(Effect::Forbid, self.satisfied_forbids.entry_seq())
            + residual::false_residuals_of(Effect::Forbid, self.false_forbids.entry_seq())
            + self.nontrivial_forbid_views()
    }

    /// The residuals of all policies: the permits, then the forbids.
    pub open spec fn residuals(&self) -> Seq<ResidualView> {
        self.permit_residuals() + self.forbid_residuals()
    }

    /// Every policy with its residual as its condition, trivial residuals included: the permits,
    /// then the forbids.
    pub fn all_residuals(&self) -> (policies: Vec<Policy>)
        ensures
            policy::policy_views(policies@) == model::residual_policies(self.residuals()),
    {
        let mut prototypes = self.all_permit_residuals();
        let mut forbids = self.all_forbid_residuals();
        let ghost (left, right) = (prototypes@, forbids@);
        prototypes.append(&mut forbids);
        assert(residual::prototype_views(prototypes@) =~= residual::prototype_views(left)
            + residual::prototype_views(right));
        construct_policies(&prototypes)
    }

    /// The residuals of the [`Effect::Permit`] policies, trivial ones included.
    pub(crate) fn all_permit_residuals(&self) -> (prototypes: Vec<PolicyPrototype<'_>>)
        ensures
            residual::prototype_views(prototypes@) == self.permit_residuals(),
    {
        let mut prototypes = self.trivial.satisfied(Effect::Permit, &self.satisfied_permits);
        let mut falses = self.trivial.unsatisfied(Effect::Permit, &self.false_permits);
        let mut nontrivial = nontrivial(Effect::Permit, &self.residual_permits);
        let ghost (p, f, n) = (prototypes@, falses@, nontrivial@);
        prototypes.append(&mut falses);
        prototypes.append(&mut nontrivial);
        assert(residual::prototype_views(prototypes@) =~= residual::prototype_views(p)
            + residual::prototype_views(f) + residual::prototype_views(n));
        prototypes
    }

    /// The residuals of the [`Effect::Forbid`] policies, trivial ones included.
    pub(crate) fn all_forbid_residuals(&self) -> (prototypes: Vec<PolicyPrototype<'_>>)
        ensures
            residual::prototype_views(prototypes@) == self.forbid_residuals(),
    {
        let mut prototypes = self.trivial.satisfied(Effect::Forbid, &self.satisfied_forbids);
        let mut falses = self.trivial.unsatisfied(Effect::Forbid, &self.false_forbids);
        let mut nontrivial = nontrivial(Effect::Forbid, &self.residual_forbids);
        let ghost (p, f, n) = (prototypes@, falses@, nontrivial@);
        prototypes.append(&mut falses);
        prototypes.append(&mut nontrivial);
        assert(residual::prototype_views(prototypes@) =~= residual::prototype_views(p)
            + residual::prototype_views(f) + residual::prototype_views(n));
        prototypes
    }

    /// What the errors are once every residual counts as an error: those of the forbids, then
    /// those of the permits, then the errors that the evaluation encountered.
    pub open spec fn all_errors(&self) -> Seq<AuthorizationErrorView> {
        non_value_errors(self.residual_forbids.entry_seq()) + non_value_errors(
            self.residual_permits.entry_seq(),
        ) + response::error_views(self.errors@)
    }

    /// All errors, where every residual counts as an error.
    fn errors(self) -> (errors: Vec<AuthorizationError>)
        ensures
            response::error_views(errors@) == self.all_errors(),
    {
        let mut errors = non_values(&self.residual_forbids);
        let mut permits = non_values(&self.residual_permits);
        let mut encountered = self.errors;
        let ghost (f, p, e) = (errors@, permits@, encountered@);
        errors.append(&mut permits);
        errors.append(&mut encountered);
        assert(response::error_views(errors@) =~= response::error_views(f) + response::error_views(
            p,
        ) + response::error_views(e));
        errors
    }

    /// Converts the response into a concrete one. All residuals are treated as errors: a policy
    /// with a residual is not satisfied, and the satisfied policies determine the decision.
    pub fn concretize(self) -> (response: Response)
        ensures
            response.decision == model::concrete_decision(
                self@.satisfied_permits.dom(),
                self@.satisfied_forbids.dom(),
            ),
            response.diagnostics.reason@.dom() == model::concrete_determining(
                self@.satisfied_permits.dom(),
                self@.satisfied_forbids.dom(),
            ),
            response::error_views(response.diagnostics.errors@) == self.all_errors(),
    {
        Response::from(self)
    }

    /// What is left of the policy with the given identifier, if the response has it.
    pub fn get(&self, id: &PolicyID) -> (expr: Option<&Expr>)
        ensures
            match expr {
                Some(e) => self@.get(id.text()) == Some(e@),
                None => self@.get(id.text()) is None,
            },
    {
        match self.get_true(id) {
            Some(expr) => Some(expr),
            None => match self.get_false(id) {
                Some(expr) => Some(expr),
                None => self.get_residual(id),
            },
        }
    }

    /// The expression `true`, if the policy is satisfied.
    fn get_true(&self, id: &PolicyID) -> (expr: Option<&Expr>)
        ensures
            expr is Some <==> self@.satisfied_permits.contains_key(id.text())
                || self@.satisfied_forbids.contains_key(id.text()),
            expr matches Some(e) ==> e@ == model::bool_expr(true),
    {
        if self.satisfied_permits.get(id).is_some() || self.satisfied_forbids.get(id).is_some() {
            Some(self.trivial.true_expr())
        } else {
            None
        }
    }

    /// The expression `false`, if the policy is not satisfied.
    fn get_false(&self, id: &PolicyID) -> (expr: Option<&Expr>)
        ensures
            expr is Some <==> self@.false_permits.contains_key(id.text())
                || self@.false_forbids.contains_key(id.text()),
            expr matches Some(e) ==> e@ == model::bool_expr(false),
    {
        if self.false_permits.get(id).is_some() || self.false_forbids.get(id).is_some() {
            Some(self.trivial.false_expr())
        } else {
            None
        }
    }

    /// The nontrivial residual of the policy, if it has one.
    fn get_residual(&self, id: &PolicyID) -> (expr: Option<&Expr>)
        ensures
            match expr {
                Some(e) => {
                    ||| self@.residual_permits.contains_key(id.text()) && e@
                        == self@.residual_permits[id.text()].0
                    ||| !self@.residual_permits.contains_key(id.text())
                        && self@.residual_forbids.contains_key(id.text()) && e@
                        == self@.residual_forbids[id.text()].0
                },
                None => !self@.residual_permits.contains_key(id.text())
                    && !self@.residual_forbids.contains_key(id.text()),
            },
    {
        match self.residual_permits.get(id) {
            Some((expr, _)) => Some(&**expr),
            None => match self.residual_forbids.get(id) {
                Some((expr, _)) => Some(&**expr),
                None => None,
            },
        }
    }
}

/// Extracts the first element of a pair.
fn first<A, B>(pair: (A, B)) -> (element: A)
    ensures
        element == pair.0,
{
    pair.0
}

/// The keys of a map, in order.
fn ids_of<V>(map: &TextMap<PolicyID, V>) -> (ids: Vec<&PolicyID>)
    ensures
        text::ref_texts(ids@) == map.keys(),
        text::ref_texts(ids@).no_duplicates(),
        text::ref_texts(ids@).to_set() == map@.dom(),
{
    let entries = map.entries();
    let mut ids: Vec<&PolicyID> = Vec::new();
    let mut i: usize = 0;
    while i < entries.len()
        invariant
            i <= entries.len(),
            ids.len() == i,
            forall|j: int| 0 <= j < i ==> (#[trigger] ids@[j]).text() == entries@[j].0.text(),
        decreases entries.len() - i,
    {
        ids.push(first((&entries[i].0, &entries[i].1)));
        i += 1;
    }
    assert(text::ref_texts(ids@) =~= map.keys());
    ids
}

/// The identifiers of `head`, then those of `tail`.
fn chain<'a>(head: Vec<&'a PolicyID>, tail: Vec<&'a PolicyID>) -> (ids: Vec<&'a PolicyID>)
    ensures
        ids@ == head@ + tail@,
        text::ref_texts(ids@) == text::ref_texts(head@) + text::ref_texts(tail@),
        text::ref_texts(ids@).to_set() == text::ref_texts(head@).to_set().union(
            text::ref_texts(tail@).to_set(),
        ),
{
    let mut ids = head;
    let mut tail = tail;
    let ghost (left, right) = (text::ref_texts(head@), text::ref_texts(tail@));
    ids.append(&mut tail);
    proof {
        assert(text::ref_texts(ids@) =~= left + right);
        text::lemma_to_set_of_sum(left, right);
    }
    ids
}

/// The identifier of a policy that is not satisfied, if it errored.
pub fn did_error<'a>(record: (&'a PolicyID, &(ErrorState, Arc<Annotations>))) -> (id: Option<
    &'a PolicyID,
>)
    ensures
        id == match record.1.0 {
            ErrorState::NoError => None::<&'a PolicyID>,
            ErrorState::Error => Some(record.0),
        },
{
    let (id, (state, _)) = record;
    match *state {
        ErrorState::NoError => None,
        ErrorState::Error => Some(id),
    }
}

/// The entry is that of a policy that errored.
pub open spec fn is_errored(entry: (PolicyID, (ErrorState, Arc<Annotations>))) -> bool {
    entry.1.0 is Error
}

/// Of several policies that are not satisfied, the identifiers of those that errored, in order.
pub open spec fn errored_ids(entries: Seq<(PolicyID, (ErrorState, Arc<Annotations>))>) -> Seq<
    Seq<char>,
> {
    text::pair_texts(
        entries.filter(|e: (PolicyID, (ErrorState, Arc<Annotations>))| is_errored(e)),
    )
}

/// An identifier is among the errored ones if and only if an entry says so.
proof fn lemma_errored_ids(
    entries: Seq<(PolicyID, (ErrorState, Arc<Annotations>))>,
    id: Seq<char>,
)
    ensures
        errored_ids(entries).contains(id) <==> exists|i: int|
            0 <= i < entries.len() && (#[trigger] entries[i]).0.text() == id && is_errored(
                entries[i],
            ),
{
    let pred = |e: (PolicyID, (ErrorState, Arc<Annotations>))| is_errored(e);
    let kept = entries.filter(pred);
    if errored_ids(entries).contains(id) {
        let j = choose|j: int| 0 <= j < kept.len() && errored_ids(entries)[j] == id;
        entries.lemma_filter_pred(pred, j);
        assert(kept.contains(kept[j]));
        entries.lemma_filter_contains_rev(pred, kept[j]);
        let i = choose|i: int| 0 <= i < entries.len() && entries[i] == kept[j];
        assert(entries[i].0.text() == id);
    }
    if exists|i: int|
        0 <= i < entries.len() && (#[trigger] entries[i]).0.text() == id && is_errored(entries[i]) {
        let i = choose|i: int|
            0 <= i < entries.len() && (#[trigger] entries[i]).0.text() == id && is_errored(
                entries[i],
            );
        entries.lemma_filter_contains(pred, i);
        let j = choose|j: int| 0 <= j < kept.len() && kept[j] == entries[i];
        assert(errored_ids(entries)[j] == id);
    }
}

/// The identifiers of the policies that errored, in order.
fn errored(map: &TextMap<PolicyID, (ErrorState, Arc<Annotations>)>) -> (ids: Vec<&PolicyID>)
    ensures
        text::ref_texts(ids@) == errored_ids(map.entry_seq()),
        forall|id: Seq<char>| #[trigger]
            text::ref_texts(ids@).contains(id) <==> map@.contains_key(id) && map@[id].0 is Error,
{
    let entries = map.entries();
    let mut ids: Vec<&PolicyID> = Vec::new();
    let mut i: usize = 0;
    proof {
        reveal(Seq::filter);
        assert(text::ref_texts(ids@) =~= errored_ids(entries@.take(0)));
    }
    while i < entries.len()
        invariant
            i <= entries.len(),
            text::ref_texts(ids@) == errored_ids(entries@.take(i as int)),
        decreases entries.len() - i,
    {
        match did_error((&entries[i].0, &entries[i].1)) {
            Some(id) => {
                ids.push(id);
            },
            None => {},
        }
        proof {
            reveal(Seq::filter);
            let pred = |e: (PolicyID, (ErrorState, Arc<Annotations>))| is_errored(e);
            let kept = entries@.take(i as int).filter(pred);
            let entry = entries@[i as int];
            assert(entries@.take(i + 1).drop_last() =~= entries@.take(i as int));
            assert(entries@.take(i + 1).last() == entry);
            if is_errored(entry) {
                assert(entries@.take(i + 1).filter(pred) == kept.push(entry));
                assert(text::pair_texts(kept.push(entry)) =~= text::pair_texts(kept).push(
                    entry.0.text(),
                ));
                assert(text::ref_texts(ids@) =~= text::pair_texts(kept).push(entry.0.text()));
            } else {
                assert(entries@.take(i + 1).filter(pred) == kept);
            }
        }
        i += 1;
    }
    proof {
        assert(entries@.take(i as int) =~= entries@);
        assert forall|id: Seq<char>| #[trigger]
            text::ref_texts(ids@).contains(id) <==> map@.contains_key(id)
            && map@[id].0 is Error by {
            lemma_errored_ids(entries@, id);
            if map@.contains_key(id) {
                assert(map.keys().to_set().contains(id));
                let j = choose|j: int| 0 <= j < map.keys().len() && map.keys()[j] == id;
                assert(entries@[j].0.text() == id);
                assert(map.entry_seq()[j].1 == map@[id]);
            }
        }
    }
    ids
}

/// For each of several policies, the error that its residual is not a value.
pub open spec fn non_value_errors(
    entries: Seq<(PolicyID, (Arc<Expr>, Arc<Annotations>))>,
) -> Seq<AuthorizationErrorView> {
    entries.map_values(
        |e: (PolicyID, (Arc<Expr>, Arc<Annotations>))|
            AuthorizationErrorView::PolicyEvaluationError {
                id: e.0.text(),
                error: EvaluationErrorView::NonValue(e.1.0@),
            },
    )
}

/// For each policy of a map, the error that its residual is not a value.
fn non_values(map: &TextMap<PolicyID, (Arc<Expr>, Arc<Annotations>)>) -> (errors: Vec<
    AuthorizationError,
>)
    ensures
        response::error_views(errors@) == non_value_errors(map.entry_seq()),
{
    let entries = map.entries();
    let mut errors: Vec<AuthorizationError> = Vec::new();
    let mut i: usize = 0;
    while i < entries.len()
        invariant
            i <= entries.len(),
            errors.len() == i,
            forall|j: int|
                0 <= j < i ==> (#[trigger] errors@[j])@ == (
                AuthorizationErrorView::PolicyEvaluationError {
                    id: entries@[j].0.text(),
                    error: EvaluationErrorView::NonValue(entries@[j].1.0@),
                }),
        decreases entries.len() - i,
    {
        errors.push(
            AuthorizationError::PolicyEvaluationError {
                id: entries[i].0.clone(),
                error: EvaluationError::non_value((*entries[i].1.0).clone()),
            },
        );
        i += 1;
    }
    assert(response::error_views(errors@) =~= non_value_errors(map.entry_seq()));
    errors
}

impl From<PartialResponse> for Response {
    fn from(p: PartialResponse) -> (response: Self)
        ensures
            response.decision == model::concrete_decision(
                p@.satisfied_permits.dom(),
                p@.satisfied_forbids.dom(),
            ),
            response.diagnostics.reason@.dom() == model::concrete_determining(
                p@.satisfied_permits.dom(),
                p@.satisfied_forbids.dom(),
            ),
            response::error_views(response.diagnostics.errors@) == p.all_errors(),
    {
        let decision = if !p.satisfied_permits.is_empty() && p.satisfied_forbids.is_empty() {
            Decision::Allow
        } else {
            Decision::Deny
        };
        let determining = if p.satisfied_forbids.is_empty() {
            p.definitely_satisfied_permits()
        } else {
            p.definitely_satisfied_forbids()
        };
        let mut reason: Vec<PolicyID> = Vec::new();
        let mut i: usize = 0;
        while i < determining.len()
            invariant
                i <= determining.len(),
                reason.len() == i,
                forall|j: int|
                    0 <= j < i ==> (#[trigger] reason@[j]).text() == determining@[j].text(),
            decreases determining.len() - i,
        {
            reason.push(determining[i].clone());
            i += 1;
        }
        assert(text::texts(reason@) =~= text::ref_texts(determining@));
        Response::new(decision, reason, p.errors())
    }
}

/// The conversion is stated by the contract of `from` itself: a response holds vectors, which no
/// spec function builds.
impl vstd::std_specs::convert::FromSpecImpl<PartialResponse> for Response {
    open spec fn obeys_from_spec() -> bool {
        false
    }

    open spec fn from_spec(p: PartialResponse) -> Self {
        arbitrary()
    }
}

} // verus!
