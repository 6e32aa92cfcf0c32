use std::collections::HashSet;
use std::sync::Arc;

use partial_response::partial_response::did_error;
use partial_response::residual::construct_policy;
use partial_response::{
    ActionConstraint, Annotations, Effect, ErrorState, Expr, PartialResponse, Policy, PolicyID,
    PrincipalConstraint, ResourceConstraint,
};

// A slow set that only requires that the contents be `PartialEq`.
#[derive(Debug, Default)]
struct SlowSet<T> {
    contents: Vec<T>,
}

impl<T: PartialEq> SlowSet<T> {
    fn from(items: impl IntoIterator<Item = T>) -> Self {
        let mut contents = vec![];
        for item in items.into_iter() {
            if !contents.contains(&item) {
                contents.push(item)
            }
        }
        Self { contents }
    }
}

impl<T: PartialEq> PartialEq for SlowSet<T> {
    fn eq(&self, rhs: &Self) -> bool {
        self.contents.len() == rhs.contents.len()
            && self.contents.iter().all(|item| rhs.contents.contains(item))
    }
}

fn id(text: &str) -> PolicyID {
    PolicyID::from_string(text)
}

fn set<'a>(ids: Vec<&'a PolicyID>) -> HashSet<&'a PolicyID> {
    ids.into_iter().collect()
}

#[test]
fn sanity_check() {
    let empty_annotations: Arc<Annotations> = Arc::default();
    let one_plus_two = Arc::new(Expr::add(Expr::val(1), Expr::val(2)));
    let three_plus_four = Arc::new(Expr::add(Expr::val(3), Expr::val(4)));
    let a = vec![(id("a"), empty_annotations.clone())];
    let bc = vec![
        (id("b"), (ErrorState::Error, empty_annotations.clone())),
        (id("c"), (ErrorState::NoError, empty_annotations.clone())),
    ];
    let d = vec![(id("d"), (one_plus_two.clone(), empty_annotations.clone()))];
    let e = vec![(id("e"), empty_annotations.clone())];
    let fg = vec![
        (id("f"), (ErrorState::Error, empty_annotations.clone())),
        (id("g"), (ErrorState::NoError, empty_annotations.clone())),
    ];
    let h = vec![(id("h"), (three_plus_four.clone(), empty_annotations.clone()))];
    let errs = vec![];
    let pr = PartialResponse::new(a, bc, d, e, fg, h, errs);
    assert_eq!(set(pr.definitely_satisfied_permits()), HashSet::from([&id("a")]));
    assert_eq!(set(pr.definitely_satisfied_forbids()), HashSet::from([&id("e")]));
    assert_eq!(set(pr.definitely_satisfied()), HashSet::from([&id("a"), &id("e")]));
    assert_eq!(set(pr.definitely_errored()), HashSet::from([&id("b"), &id("f")]));
    assert_eq!(set(pr.may_be_determining()), HashSet::from([&id("e"), &id("h")]));
    assert_eq!(set(pr.must_be_determining()), HashSet::from([&id("e")]));
    assert_eq!(pr.nontrivial_residuals().into_iter().count(), 2);

    assert_eq!(
        SlowSet::from(pr.all_residuals()),
        SlowSet::from([
            Policy::from_when_clause(Effect::Permit, Expr::val(true), id("a")),
            Policy::from_when_clause(Effect::Permit, Expr::val(false), id("b")),
            Policy::from_when_clause(Effect::Permit, Expr::val(false), id("c")),
            Policy::from_when_clause_annos(
                Effect::Permit,
                one_plus_two.clone(),
                id("d"),
                Arc::default()
            ),
            Policy::from_when_clause(Effect::Forbid, Expr::val(true), id("e")),
            Policy::from_when_clause(Effect::Forbid, Expr::val(false), id("f")),
            Policy::from_when_clause(Effect::Forbid, Expr::val(false), id("g")),
            Policy::from_when_clause_annos(
                Effect::Forbid,
                three_plus_four.clone(),
                id("h"),
                Arc::default()
            ),
        ])
    );
    assert_eq!(set(pr.nontrivial_residual_ids()), HashSet::from([&id("d"), &id("h")]));

    assert_eq!(
        SlowSet::from(pr.nontrivial_residuals()),
        SlowSet::from([
            Policy::from_when_clause_annos(
                Effect::Permit,
                one_plus_two.clone(),
                id("d"),
                Arc::default()
            ),
            Policy::from_when_clause_annos(
                Effect::Forbid,
                three_plus_four.clone(),
                id("h"),
                Arc::default()
            ),
        ])
    );

    assert_eq!(pr.get(&id("a")), Some(&Expr::val(true)));
    assert_eq!(pr.get(&id("b")), Some(&Expr::val(false)));
    assert_eq!(pr.get(&id("c")), Some(&Expr::val(false)));
    assert_eq!(pr.get(&id("d")), Some(&Expr::add(Expr::val(1), Expr::val(2))));
    assert_eq!(pr.get(&id("e")), Some(&Expr::val(true)));
    assert_eq!(pr.get(&id("f")), Some(&Expr::val(false)));
    assert_eq!(pr.get(&id("g")), Some(&Expr::val(false)));
    assert_eq!(pr.get(&id("h")), Some(&Expr::add(Expr::val(3), Expr::val(4))));
}

#[test]
fn build_policies_trivial_permit() {
    let e = Arc::new(Expr::add(Expr::val(1), Expr::val(2)));
    let id = PolicyID::from_string("foo");
    let p = construct_policy((Effect::Permit, &id, &e, &Arc::default()));
    assert_eq!(p.effect(), Effect::Permit);
    assert!(p.annotations().iter().next().is_none());
    assert_eq!(p.action_constraint(), &ActionConstraint::Any);
    assert_eq!(p.principal_constraint(), &PrincipalConstraint::any());
    assert_eq!(p.resource_constraint(), &ResourceConstraint::any());
    assert_eq!(p.id(), &id);
    assert_eq!(p.non_head_constraints(), e.as_ref());
}

#[test]
fn build_policies_trivial_forbid() {
    let e = Arc::new(Expr::add(Expr::val(1), Expr::val(2)));
    let id = PolicyID::from_string("foo");
    let p = construct_policy((Effect::Forbid, &id, &e, &Arc::default()));
    assert_eq!(p.effect(), Effect::Forbid);
    assert!(p.annotations().iter().next().is_none());
    assert_eq!(p.action_constraint(), &ActionConstraint::Any);
    assert_eq!(p.principal_constraint(), &PrincipalConstraint::any());
    assert_eq!(p.resource_constraint(), &ResourceConstraint::any());
    assert_eq!(p.id(), &id);
    assert_eq!(p.non_head_constraints(), e.as_ref());
}

#[test]
fn did_error_error() {
    assert_eq!(
        did_error((&PolicyID::from_string("foo"), &(ErrorState::Error, Arc::default()))),
        Some(&PolicyID::from_string("foo"))
    );
}

#[test]
fn did_error_noerror() {
    assert_eq!(
        did_error((&PolicyID::from_string("foo"), &(ErrorState::NoError, Arc::default()))),
        None,
    );
}
