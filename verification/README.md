# partial_response

Partial authorization responses, verified with Verus.

A policy set is evaluated for a request some of whose inputs are unknown. A `PartialResponse`
sorts the policies, by effect, into those that are satisfied, those that are not, and those of
which a residual condition is left. It answers

- which decision is fixed already (`decision`),
- which policies may determine it, and which must (`may_be_determining`, `must_be_determining`),
- what is left of each policy (`get`, `all_residuals`, `nontrivial_residuals`),

and it can be authorized again with values for unknowns (`reauthorize`) or turned into a concrete
response in which residuals count as errors (`concretize`).

## Layout

- `src/text.rs`: short texts (`smol_str`) and maps keyed by them
- `src/policy_id.rs`, `src/expr.rs`, `src/policy.rs`: identifiers, expressions, policies, policy sets
- `src/response.rs`: decisions, errors, concrete responses
- `src/model.rs`: the mathematical model that the contracts speak of
- `src/residual.rs`: residuals of policies, and the policies built from them
- `src/partial_response.rs`: partial responses
- `src/reauthorize.rs`: authorizing a partial response again
- `src/authorizer.rs`: authorization by a given evaluator of policies
- `src/laws.rs`: what holds of responses as a whole

The evaluation of a policy's condition is not part of the library: an `Authorizer` is given a
function for it, and the contracts hold for whatever that function returns.
