//! Partial authorization responses: what is known of the response to an authorization request
//! while some of its inputs are unknown.
//!
//! An [`Authorizer`] evaluates every policy of a [`PolicySet`] as far as the known inputs allow.
//! The [`PartialResponse`] sorts the policies by effect and by whether they are satisfied, are not
//! satisfied, or depend on unknowns. It tells which decision is fixed already, which policies may
//! and which must determine it, and it can be authorized again once unknowns have values.
//!
//! Contracts speak of a response through its model, [`model::PartialResponseView`]; [`laws`] holds
//! what follows from them for responses as a whole.

pub mod authorizer;
pub mod expr;
pub mod laws;
pub mod model;
pub mod partial_response;
pub mod policy;
pub mod policy_id;
pub mod reauthorize;
pub mod residual;
pub mod response;
pub mod text;

pub use authorizer::{Authorizer, Evaluation};
pub use expr::{BinaryOp, EntityUID, Expr, Literal, UnaryOp, Value, Var};
pub use partial_response::{ErrorState, PartialResponse};
pub use policy::{
    ActionConstraint, Annotations, Effect, Policy, PolicySet, PolicySetError, PrincipalConstraint,
    PrincipalOrResourceConstraint, ResourceConstraint,
};
pub use policy_id::PolicyID;
pub use response::{AuthorizationError, Decision, Diagnostics, EvaluationError, Response};
pub use text::{TextKey, TextMap};
