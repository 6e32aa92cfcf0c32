use std::collections::HashSet;
use std::sync::Arc;

use partial_response::{
    Annotations, AuthorizationError, Authorizer, Decision, Effect, ErrorState, EvaluationError,
    Evaluation, Expr, Literal, PartialResponse, Policy, PolicyID, PolicySet, PolicySetError,
    Response, TextMap, Value,
};
use smol_str::SmolStr;

fn id(text: &str) -> PolicyID {
    PolicyID::from_string(text)
}

fn none() -> Arc<Annotations> {
    Arc::default()
}

fn some() -> Arc<Annotations> {
    Arc::new(Annotations {
        entries: TextMap::from_pairs(vec![(SmolStr::new("owner"), SmolStr::new("ops"))]),
    })
}

fn unknown(name: &str) -> Expr {
    Expr::unknown(SmolStr::new(name))
}

fn set(ids: Vec<&PolicyID>) -> HashSet<PolicyID> {
    ids.into_iter().cloned().collect()
}

/// A response with the given numbers of permits and forbids that are satisfied, are not satisfied
/// and have a residual.
fn response(counts: [usize; 6]) -> PartialResponse {
    let names = |prefix: &str, n: usize| -> Vec<PolicyID> {
        (0..n).map(|i| id(&format!("{}{}", prefix, i))).collect()
    };
    let plain = |prefix: &str, n: usize| -> Vec<(PolicyID, Arc<Annotations>)> {
        names(prefix, n).into_iter().map(|i| (i, none())).collect()
    };
    let falses = |prefix: &str, n: usize| -> Vec<(PolicyID, (ErrorState, Arc<Annotations>))> {
        names(prefix, n).into_iter().map(|i| (i, (ErrorState::NoError, none()))).collect()
    };
    let residuals = |prefix: &str, n: usize| -> Vec<(PolicyID, (Arc<Expr>, Arc<Annotations>))> {
        (0..n)
            .map(|i| {
                let name = format!("{}{}", prefix, i);
                (id(&name), (Arc::new(unknown(&name)), none()))
            })
            .collect()
    };
    PartialResponse::new(
        plain("sp", counts[0]),
        falses("fp", counts[1]),
        residuals("rp", counts[2]),
        plain("sf", counts[3]),
        falses("ff", counts[4]),
        residuals("rf", counts[5]),
        vec![],
    )
}

fn all_counts() -> Vec<[usize; 6]> {
    let mut all = vec![];
    for sp in 0..3 {
        for rp in 0..3 {
            for sf in 0..3 {
                for rf in 0..3 {
                    all.push([sp, 1, rp, sf, 1, rf]);
                }
            }
        }
    }
    all
}

/// The decision and the determining policies of every completion of a response.
fn completions(counts: [usize; 6]) -> Vec<(Decision, HashSet<PolicyID>)> {
    let [sp, _, rp, sf, _, rf] = counts;
    let mut all = vec![];
    for permits in 0..(1usize << rp) {
        for forbids in 0..(1usize << rf) {
            let mut p: HashSet<PolicyID> = (0..sp).map(|i| id(&format!("sp{}", i))).collect();
            p.extend((0..rp).filter(|i| permits >> i & 1 == 1).map(|i| id(&format!("rp{}", i))));
            let mut f: HashSet<PolicyID> = (0..sf).map(|i| id(&format!("sf{}", i))).collect();
            f.extend((0..rf).filter(|i| forbids >> i & 1 == 1).map(|i| id(&format!("rf{}", i))));
            if !p.is_empty() && f.is_empty() {
                all.push((Decision::Allow, p));
            } else {
                all.push((Decision::Deny, f));
            }
        }
    }
    all
}

#[test]
fn decision_is_fixed_when_all_completions_agree() {
    for counts in all_counts() {
        let decisions: HashSet<Decision> = completions(counts).into_iter().map(|c| c.0).collect();
        let expected = if decisions.len() == 1 { decisions.into_iter().next() } else { None };
        assert_eq!(response(counts).decision(), expected, "{:?}", counts);
    }
}

#[test]
fn may_be_determining_is_the_union_over_completions() {
    for counts in all_counts() {
        let union: HashSet<PolicyID> = completions(counts).into_iter().flat_map(|c| c.1).collect();
        assert_eq!(set(response(counts).may_be_determining()), union, "{:?}", counts);
    }
}

#[test]
fn must_be_determining_is_the_intersection_over_completions() {
    for counts in all_counts() {
        let all = completions(counts);
        let common: HashSet<PolicyID> =
            all[0].1.iter().filter(|i| all.iter().all(|c| c.1.contains(i))).cloned().collect();
        let r = response(counts);
        assert_eq!(set(r.must_be_determining()), common, "{:?}", counts);
        assert!(common.is_subset(&set(r.definitely_satisfied())));
        assert!(common.is_subset(&set(r.may_be_determining())));
    }
}

#[test]
fn must_be_determining_leaves_out_a_shared_identifier() {
    // The identifier determines the decision whether or not the forbid comes to be satisfied, but
    // as a permit in one case and as a forbid in the other.
    let r = PartialResponse::new(
        vec![(id("x"), none())],
        vec![],
        vec![],
        vec![],
        vec![],
        vec![(id("x"), (Arc::new(unknown("u")), none()))],
        vec![],
    );
    assert!(r.must_be_determining().is_empty());
    assert_eq!(r.decision(), None);
}

#[test]
fn decision_table() {
    assert_eq!(response([0, 0, 0, 0, 0, 0]).decision(), Some(Decision::Deny));
    assert_eq!(response([1, 0, 0, 0, 0, 0]).decision(), Some(Decision::Allow));
    assert_eq!(response([1, 0, 1, 0, 0, 0]).decision(), Some(Decision::Allow));
    assert_eq!(response([1, 0, 0, 1, 0, 0]).decision(), Some(Decision::Deny));
    assert_eq!(response([0, 0, 1, 0, 0, 0]).decision(), None);
    assert_eq!(response([1, 0, 0, 0, 0, 1]).decision(), None);
    assert_eq!(response([0, 0, 0, 0, 0, 1]).decision(), Some(Decision::Deny));
}

#[test]
fn concretize_agrees_with_the_fixed_decision() {
    for counts in all_counts() {
        let decision = response(counts).decision();
        let must = set(response(counts).must_be_determining());
        let may = set(response(counts).may_be_determining());
        let concrete = response(counts).concretize();
        if let Some(decision) = decision {
            assert_eq!(concrete.decision, decision);
        }
        // The completion in which no residual is satisfied comes first
        assert_eq!(concrete.decision, completions(counts)[0].0);
        let reason: HashSet<PolicyID> =
            concrete.diagnostics.reason.entries().iter().map(|e| e.0.clone()).collect();
        assert_eq!(reason, completions(counts)[0].1);
        assert!(must.is_subset(&reason) && reason.is_subset(&may));
    }
}

#[test]
fn concretize_treats_residuals_as_errors() {
    let encountered = AuthorizationError::PolicyEvaluationError {
        id: id("e"),
        error: EvaluationError::Failed { message: "overflow".to_string() },
    };
    let p = Arc::new(Expr::add(Expr::val(1), unknown("u")));
    let f = Arc::new(unknown("v"));
    let r = PartialResponse::new(
        vec![(id("a"), none())],
        vec![(id("e"), (ErrorState::Error, none()))],
        vec![(id("p"), (p.clone(), none()))],
        vec![],
        vec![],
        vec![(id("f"), (f.clone(), none()))],
        vec![encountered.clone()],
    );
    let concrete = r.concretize();
    assert_eq!(concrete.decision, Decision::Allow);
    assert_eq!(concrete.diagnostics.reason.entries(), &vec![(id("a"), ())]);
    assert_eq!(
        concrete.diagnostics.errors,
        vec![
            AuthorizationError::PolicyEvaluationError {
                id: id("f"),
                error: EvaluationError::non_value((*f).clone()),
            },
            AuthorizationError::PolicyEvaluationError {
                id: id("p"),
                error: EvaluationError::non_value((*p).clone()),
            },
            encountered,
        ]
    );
}

#[test]
fn concretize_lets_a_permit_determine_beside_a_residual_forbid() {
    let sum = Arc::new(Expr::add(Expr::val(3), Expr::val(4)));
    let r = PartialResponse::new(
        vec![(id("a"), none())],
        vec![],
        vec![],
        vec![],
        vec![],
        vec![(id("h"), (sum.clone(), none()))],
        vec![],
    );
    let error = AuthorizationError::PolicyEvaluationError {
        id: id("h"),
        error: EvaluationError::non_value((*sum).clone()),
    };
    assert_eq!(r.decision(), None);
    assert!(r.must_be_determining().is_empty());
    assert_eq!(r.concretize(), Response::new(Decision::Allow, vec![id("a")], vec![error]));
}

#[test]
fn clone_keeps_every_sequence() {
    let r = response([2, 2, 2, 2, 2, 2]);
    let copy = r.clone();
    assert_eq!(copy, r);
    assert_eq!(copy.definitely_satisfied(), r.definitely_satisfied());
    assert_eq!(copy.definitely_errored(), r.definitely_errored());
    assert_eq!(copy.all_residuals(), r.all_residuals());
    assert_eq!(copy.get(&id("sp0")), Some(&Expr::val(true)));
}

#[test]
fn concrete_response_names_the_determining_policies() {
    let concrete = Response::from(response([2, 1, 0, 0, 1, 0]));
    assert_eq!(concrete, Response::new(Decision::Allow, vec![id("sp1"), id("sp0")], vec![]));
    let concrete = Response::from(response([2, 1, 0, 1, 1, 0]));
    assert_eq!(concrete, Response::new(Decision::Deny, vec![id("sf0")], vec![]));
    let concrete = Response::from(response([0, 1, 0, 0, 1, 0]));
    assert_eq!(concrete, Response::new(Decision::Deny, vec![], vec![]));
}

#[test]
fn reason_holds_each_policy_once() {
    let r = Response::new(Decision::Allow, vec![id("a"), id("b"), id("a")], vec![]);
    assert_eq!(r.diagnostics.reason.len(), 2);
    assert!(r.diagnostics.reason.get(&id("a")).is_some());
    assert!(r.diagnostics.reason.get(&id("c")).is_none());
}

#[test]
fn last_occurrence_of_an_identifier_stands() {
    let r = PartialResponse::new(
        vec![],
        vec![
            (id("a"), (ErrorState::Error, none())),
            (id("b"), (ErrorState::Error, none())),
            (id("a"), (ErrorState::NoError, some())),
        ],
        vec![],
        vec![],
        vec![],
        vec![],
        vec![],
    );
    assert_eq!(r.definitely_errored(), vec![&id("b")]);
    assert_eq!(r.false_permits.get(&id("a")), Some(&(ErrorState::NoError, some())));
    assert_eq!(r.all_residuals().len(), 2);
}

#[test]
fn residual_policies_keep_their_annotations() {
    let r = PartialResponse::new(
        vec![(id("a"), some())],
        vec![(id("b"), (ErrorState::Error, some()))],
        vec![(id("c"), (Arc::new(unknown("u")), some()))],
        vec![],
        vec![],
        vec![(id("d"), (Arc::new(unknown("u")), some()))],
        vec![],
    );
    for policy in r.all_residuals() {
        assert_eq!(policy.annotations(), &vec![(SmolStr::new("owner"), SmolStr::new("ops"))]);
        assert_eq!(policy.annotations_arc(), &some());
    }
    assert_eq!(r.nontrival_forbids().len(), 1);
    assert_eq!(r.nontrival_forbids()[0].effect(), Effect::Forbid);
    assert_eq!(r.nontrival_forbids()[0].id(), &id("d"));
}

#[test]
fn lookup_agrees_with_the_residuals() {
    for counts in all_counts() {
        let r = response(counts);
        for policy in r.all_residuals() {
            assert_eq!(r.get(policy.id()), Some(policy.non_head_constraints()));
        }
        let all = r.all_residuals();
        for policy in r.nontrivial_residuals() {
            assert!(all.contains(&policy));
        }
        assert_eq!(r.get(&id("absent")), None);
        assert_eq!(r.clone(), r);
    }
}

/// Evaluates a boolean literal to its value and an integer literal above the limit to an error;
/// every other condition is left over.
fn evaluate(limit: &i64, _entities: &(), policy: &Policy) -> Evaluation {
    match policy.non_head_constraints() {
        Expr::Lit(Literal::Bool(b)) => Evaluation::Value(*b),
        Expr::Lit(Literal::Long(i)) if i > limit => {
            Evaluation::Error(EvaluationError::Failed { message: "too large".to_string() })
        }
        other => Evaluation::Residual(other.clone()),
    }
}

fn bools(pairs: &[(&str, bool)]) -> TextMap<SmolStr, Value> {
    TextMap::from_pairs(
        pairs.iter().map(|(k, b)| (SmolStr::new(k), Value::Lit(Literal::Bool(*b)))).collect(),
    )
}

#[test]
fn reauthorize_resolves_residuals() {
    let auth = Authorizer { evaluate };
    let r = response([1, 1, 2, 0, 1, 2]);
    assert_eq!(r.decision(), None);
    let mapping = bools(&[("rp0", true), ("rf0", false), ("rf1", false)]);
    let next = r.reauthorize(&mapping, &auth, 0, &()).unwrap();
    assert_eq!(next.decision(), Some(Decision::Allow));
    assert_eq!(set(next.definitely_satisfied()), HashSet::from([id("sp0"), id("rp0")]));
    assert_eq!(set(next.nontrivial_residual_ids()), HashSet::from([id("rp1")]));
    assert_eq!(next.get(&id("rf1")), Some(&Expr::val(false)));
    assert!(next.errors.is_empty());

    let last = next.reauthorize(&bools(&[("rp1", false)]), &auth, 0, &()).unwrap();
    assert_eq!(last.decision(), Some(Decision::Allow));
    assert!(last.nontrivial_residual_ids().is_empty());
}

#[test]
fn reauthorize_of_nothing_changes_nothing() {
    let auth = Authorizer { evaluate };
    for counts in all_counts() {
        let r = response(counts);
        assert_eq!(r.reauthorize(&TextMap::default(), &auth, 0, &()), Ok(r));
    }
}

#[test]
fn reauthorize_keeps_fixed_decisions() {
    let auth = Authorizer { evaluate };
    for counts in all_counts() {
        let r = response(counts);
        for bits in 0..16 {
            let mapping = bools(&[
                ("rp0", bits & 1 == 1),
                ("rp1", bits & 2 == 2),
                ("rf0", bits & 4 == 4),
                ("rf1", bits & 8 == 8),
            ]);
            let next = r.reauthorize(&mapping, &auth, 0, &()).unwrap();
            // No residual is left, so that the decision is fixed
            assert!(next.decision().is_some());
            if r.decision().is_some() {
                assert_eq!(next.decision(), r.decision());
            }
            assert!(set(r.must_be_determining()).is_subset(&set(next.must_be_determining())));
            assert!(set(next.may_be_determining()).is_subset(&set(r.may_be_determining())));
            let outcome = (next.decision().unwrap(), set(next.must_be_determining()));
            assert!(completions(counts).contains(&outcome));
        }
    }
}

#[test]
fn reauthorize_reports_evaluation_errors() {
    let auth = Authorizer { evaluate };
    let r = PartialResponse::new(
        vec![],
        vec![(id("old"), (ErrorState::Error, none()))],
        vec![(id("p"), (Arc::new(unknown("u")), none()))],
        vec![],
        vec![],
        vec![(id("f"), (Arc::new(unknown("u")), none()))],
        vec![],
    );
    let nine =
        TextMap::from_pairs(vec![(SmolStr::new("u"), Value::Lit(Literal::Long(9)))]);
    let next = r.reauthorize(&nine, &auth, 3, &()).unwrap();
    // The earlier error is forgotten: what is left of its policy is `false`
    assert_eq!(set(next.definitely_errored()), HashSet::from([id("p"), id("f")]));
    let error = EvaluationError::Failed { message: "too large".to_string() };
    assert_eq!(
        next.errors,
        vec![
            AuthorizationError::PolicyEvaluationError { id: id("p"), error: error.clone() },
            AuthorizationError::PolicyEvaluationError { id: id("f"), error },
        ]
    );
    assert_eq!(next.decision(), Some(Decision::Deny));
    // With another request the same value is a residual
    let next = r.reauthorize(&nine, &auth, 10, &()).unwrap();
    assert_eq!(next.get(&id("p")), Some(&Expr::val(9)));
}

#[test]
fn reauthorize_refuses_a_shared_identifier() {
    let auth = Authorizer { evaluate };
    let r = PartialResponse::new(
        vec![(id("a"), none()), (id("x"), none())],
        vec![],
        vec![],
        vec![],
        vec![(id("x"), (ErrorState::NoError, none())), (id("a"), (ErrorState::NoError, none()))],
        vec![],
        vec![],
    );
    assert_eq!(
        r.reauthorize(&TextMap::default(), &auth, 0, &()),
        Err(PolicySetError::Occupied { id: id("x") })
    );
}

#[test]
fn policy_sets_have_distinct_identifiers() {
    let policy = |name: &str| Policy::from_when_clause(Effect::Permit, Expr::val(true), id(name));
    let set = PolicySet::try_from_iter(vec![policy("a"), policy("b")]).unwrap();
    assert_eq!(set.policies(), &vec![policy("a"), policy("b")]);
    let error = PolicySet::try_from_iter(vec![policy("a"), policy("b"), policy("b"), policy("a")]);
    assert_eq!(error.unwrap_err(), PolicySetError::Occupied { id: id("b") });
    assert!(PolicySet::try_from_iter(vec![]).unwrap().policies().is_empty());
}

#[test]
fn authorizer_sorts_policies() {
    let policies = vec![
        Policy::from_when_clause(Effect::Permit, Expr::val(true), id("a")),
        Policy::from_when_clause(Effect::Permit, Expr::val(false), id("b")),
        Policy::from_when_clause(Effect::Permit, unknown("u"), id("c")),
        Policy::from_when_clause(Effect::Permit, Expr::val(9), id("d")),
        Policy::from_when_clause(Effect::Forbid, Expr::val(true), id("e")),
        Policy::from_when_clause(Effect::Forbid, Expr::val(false), id("f")),
        Policy::from_when_clause(Effect::Forbid, unknown("v"), id("g")),
        Policy::from_when_clause(Effect::Forbid, Expr::val(9), id("h")),
    ];
    let set = PolicySet::try_from_iter(policies).unwrap();
    let r = Authorizer { evaluate }.is_authorized_core(0, &set, &());
    let error = |name: &str| AuthorizationError::PolicyEvaluationError {
        id: id(name),
        error: EvaluationError::Failed { message: "too large".to_string() },
    };
    assert_eq!(
        r,
        PartialResponse::new(
            vec![(id("a"), none())],
            vec![
                (id("b"), (ErrorState::NoError, none())),
                (id("d"), (ErrorState::Error, none()))
            ],
            vec![(id("c"), (Arc::new(unknown("u")), none()))],
            vec![(id("e"), none())],
            vec![
                (id("f"), (ErrorState::NoError, none())),
                (id("h"), (ErrorState::Error, none()))
            ],
            vec![(id("g"), (Arc::new(unknown("v")), none()))],
            vec![error("d"), error("h")],
        )
    );
}
