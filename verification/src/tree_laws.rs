//! What the join selection rule does to a whole plan.
use crate::error::JoinError;
use crate::plan::Boundedness;
use crate::selection;
use crate::selection::{JoinSelection, OptimizerOptions, Pass, PlanNode, Rewrite};
use crate::selection_laws;
use crate::tree;
use crate::tree::{OptimizeError, PlanTree};
use crate::types::JoinType;
use vstd::prelude::*;

verus! {

/// Whether a result is what one pass over a plan makes of it.
pub open spec fn is_pass<P, E, N, C>(
    pass: Pass,
    plan: PlanTree<P>,
    config: OptimizerOptions,
    renew: N,
    carry_out: C,
    result: Result<PlanTree<P>, OptimizeError<E>>,
) -> bool where
    N: Fn(P, Vec<PlanTree<P>>) -> Result<PlanTree<P>, E>,
    C: Fn(PlanTree<P>, Rewrite) -> Result<PlanTree<P>, E>,
 {
    tree::passed(pass, plan, config, renew, carry_out, result)
}

/// A plan is optimized by a pass over all of it that fixes joins for unbounded inputs, and
/// then by one over what came of that which goes by statistics. An error in the first pass
/// is the answer.
pub proof fn plans_are_fixed_and_then_optimized<P, E, N, C>(
    rule: JoinSelection,
    plan: PlanTree<P>,
    config: OptimizerOptions,
    renew: N,
    carry_out: C,
    result: Result<PlanTree<P>, OptimizeError<E>>,
) where
    N: Fn(P, Vec<PlanTree<P>>) -> Result<PlanTree<P>, E>,
    C: Fn(PlanTree<P>, Rewrite) -> Result<PlanTree<P>, E>,

    requires
        call_ensures(
            JoinSelection::optimize::<P, E, N, C>,
            (&rule, plan, &config, &renew, &carry_out),
            result,
        ),
    ensures
        exists|fixed: Result<PlanTree<P>, OptimizeError<E>>| #[trigger]
            is_pass(Pass::Pipeline, plan, config, renew, carry_out, fixed) && (fixed is Err
                ==> result == fixed) && (fixed is Ok ==> is_pass(
                Pass::Statistical,
                fixed->Ok_0,
                config,
                renew,
                carry_out,
                result,
            )),
{
    let fixed = choose|fixed: Result<PlanTree<P>, OptimizeError<E>>|
        {
            &&& #[trigger] tree::passed(Pass::Pipeline, plan, config, renew, carry_out, fixed)
            &&& match fixed {
                Ok(fixed) => tree::passed(
                    Pass::Statistical,
                    fixed,
                    config,
                    renew,
                    carry_out,
                    result,
                ),
                Err(_) => result == fixed,
            }
        };
    assert(is_pass(Pass::Pipeline, plan, config, renew, carry_out, fixed));
}

/// Whether all inputs of a node have been passed over.
pub open spec fn inputs_passed<P, E, N, C>(
    pass: Pass,
    before: Seq<PlanTree<P>>,
    config: OptimizerOptions,
    renew: N,
    carry_out: C,
    after: Vec<PlanTree<P>>,
) -> bool where
    N: Fn(P, Vec<PlanTree<P>>) -> Result<PlanTree<P>, E>,
    C: Fn(PlanTree<P>, Rewrite) -> Result<PlanTree<P>, E>,
 {
    &&& after@.len() == before.len()
    &&& forall|k: int|
        0 <= k < before.len() ==> is_pass(
            pass,
            before[k],
            config,
            renew,
            carry_out,
            Ok::<PlanTree<P>, OptimizeError<E>>(#[trigger] after@[k]),
        )
}

/// A pass that succeeds has been over every input of a node before the node: the node is
/// made anew over what became of all its inputs, and then what the rule decides on the new
/// node has been carried out, or nothing where it decides on nothing.
pub proof fn inputs_come_before_nodes<P, E, N, C>(
    rule: JoinSelection,
    pass: Pass,
    plan: PlanTree<P>,
    config: OptimizerOptions,
    renew: N,
    carry_out: C,
    result: PlanTree<P>,
) where
    N: Fn(P, Vec<PlanTree<P>>) -> Result<PlanTree<P>, E>,
    C: Fn(PlanTree<P>, Rewrite) -> Result<PlanTree<P>, E>,

    requires
        call_ensures(
            JoinSelection::transform_up::<P, E, N, C>,
            (&rule, pass, plan, &config, &renew, &carry_out),
            Ok::<PlanTree<P>, OptimizeError<E>>(result),
        ),
    ensures
        exists|inputs: Vec<PlanTree<P>>, node: PlanTree<P>|
            #![trigger call_ensures(renew, (plan.plan, inputs), Ok::<PlanTree<P>, E>(node))]
            {
                &&& inputs_passed::<P, E, N, C>(
                    pass,
                    plan.inputs@,
                    config,
                    renew,
                    carry_out,
                    inputs,
                )
                &&& call_ensures(renew, (plan.plan, inputs), Ok::<PlanTree<P>, E>(node))
                &&& node_decided::<P, E, C>(pass, node, config, carry_out, result)
            },
{
    let outcome = Ok::<PlanTree<P>, OptimizeError<E>>(result);
    let inputs = choose|inputs: Vec<PlanTree<P>>|
        {
            &&& #[trigger] inputs@.len() <= plan.inputs@.len()
            &&& forall|k: int|
                0 <= k < inputs@.len() && k < plan.inputs@.len() ==> tree::passed(
                    pass,
                    plan.inputs@[k],
                    config,
                    renew,
                    carry_out,
                    Ok::<PlanTree<P>, OptimizeError<E>>(#[trigger] inputs@[k]),
                )
            &&& if inputs@.len() < plan.inputs@.len() {
                outcome is Err && tree::passed(
                    pass,
                    plan.inputs@[inputs@.len() as int],
                    config,
                    renew,
                    carry_out,
                    outcome,
                )
            } else {
                tree::node_passed(pass, plan.plan, inputs, config, renew, carry_out, outcome)
            }
        };
    let renewed = choose|renewed: Result<PlanTree<P>, E>| #[trigger]
        call_ensures(renew, (plan.plan, inputs), renewed) && match renewed {
            Err(error) => outcome == Err::<PlanTree<P>, OptimizeError<E>>(
                OptimizeError::Plan(error),
            ),
            Ok(node) => exists|decision: Result<Option<Rewrite>, JoinError>| #[trigger]
                selection::decides(pass, node.node, config, decision)
                    && tree::decision_carried_out(node, decision, carry_out, outcome),
        };
    let node = renewed->Ok_0;
    assert(call_ensures(renew, (plan.plan, inputs), Ok::<PlanTree<P>, E>(node)));
}

/// Whether a plan is what carrying out the rule's decision on a node gives.
pub open spec fn node_decided<P, E, C>(
    pass: Pass,
    node: PlanTree<P>,
    config: OptimizerOptions,
    carry_out: C,
    result: PlanTree<P>,
) -> bool where C: Fn(PlanTree<P>, Rewrite) -> Result<PlanTree<P>, E> {
    exists|decision: Option<Rewrite>| #[trigger]
        selection::decides(
            pass,
            node.node,
            config,
            Ok::<Option<Rewrite>, JoinError>(decision),
        ) && match decision {
            Some(rewrite) => call_ensures(
                carry_out,
                (node, rewrite),
                Ok::<PlanTree<P>, E>(result),
            ),
            None => result == node,
        }
}

/// Whether a hash join can be run although an input may never end: not both inputs emit
/// forever, and it does not build an endless side that it could exchange for one that ends.
pub open spec fn runs_with_endless_inputs(node: PlanNode) -> bool {
    node is HashJoin ==> {
        let join = node->HashJoin_0;
        &&& !(selection_laws::emits_forever(join.left) && selection_laws::emits_forever(
            join.right,
        ))
        &&& !(join.left.boundedness != Boundedness::Bounded && join.right.boundedness
            == Boundedness::Bounded && (join.join_type == JoinType::Inner || join.join_type
            == JoinType::Left || join.join_type == JoinType::LeftSemi || join.join_type
            == JoinType::LeftAnti))
    }
}

/// Whether every hash join of a plan can be run although inputs may never end.
pub open spec fn all_run_with_endless_inputs<P>(plan: PlanTree<P>) -> bool
    decreases plan,
{
    &&& runs_with_endless_inputs(plan.node)
    &&& forall|k: int|
        0 <= k < plan.inputs@.len() ==> all_run_with_endless_inputs(#[trigger] plan.inputs@[k])
}

/// What a rewrite that the first pass decides on makes of a node over fixed inputs is fixed.
proof fn decided_rewrite_is_fixed<P>(
    plan: PlanTree<P>,
    config: OptimizerOptions,
    rewrite: Rewrite,
    made: PlanTree<P>,
)
    requires
        selection::decides(Pass::Pipeline, plan.node, config, Ok(Some(rewrite))),
        tree::is_rewritten(plan, rewrite, made),
        forall|k: int|
            0 <= k < plan.inputs@.len() ==> all_run_with_endless_inputs(
                #[trigger] plan.inputs@[k],
            ),
    ensures
        all_run_with_endless_inputs(made),
{
    if selection::rewritten(plan.node, rewrite) is None {
        let join = choose|join: PlanTree<P>| #[trigger]
            tree::is_over(made, join) && selection::is_swapped(plan.node, rewrite, join.node)
                && join.inputs@ == plan.inputs@.reverse();
        assert forall|k: int| 0 <= k < join.inputs@.len() implies all_run_with_endless_inputs(
            #[trigger] join.inputs@[k],
        ) by {
            assert(join.inputs@[k] == plan.inputs@[plan.inputs@.len() - 1 - k]);
        }
        assert(all_run_with_endless_inputs(join));
        if made != join {
            assert forall|k: int| 0 <= k < made.inputs@.len() implies all_run_with_endless_inputs(
                #[trigger] made.inputs@[k],
            ) by {
                assert(made.inputs@[k] == join);
            }
        }
    }
}

/// After the first pass no hash join of a plan has two inputs that emit forever, nor builds
/// an endless side that it could exchange for one that ends, where the caller does what the
/// rule says.
pub proof fn the_first_pass_fixes_every_join<P, E, N, C>(
    plan: PlanTree<P>,
    config: OptimizerOptions,
    renew: N,
    carry_out: C,
    result: PlanTree<P>,
) where
    N: Fn(P, Vec<PlanTree<P>>) -> Result<PlanTree<P>, E>,
    C: Fn(PlanTree<P>, Rewrite) -> Result<PlanTree<P>, E>,

    requires
        tree::does_as_told::<P, E, N, C>(renew, carry_out),
        is_pass(
            Pass::Pipeline,
            plan,
            config,
            renew,
            carry_out,
            Ok::<PlanTree<P>, OptimizeError<E>>(result),
        ),
    ensures
        all_run_with_endless_inputs(result),
    decreases plan,
{
    let outcome = Ok::<PlanTree<P>, OptimizeError<E>>(result);
    let inputs = choose|inputs: Vec<PlanTree<P>>|
        {
            &&& #[trigger] inputs@.len() <= plan.inputs@.len()
            &&& forall|k: int|
                0 <= k < inputs@.len() && k < plan.inputs@.len() ==> tree::passed(
                    Pass::Pipeline,
                    plan.inputs@[k],
                    config,
                    renew,
                    carry_out,
                    Ok::<PlanTree<P>, OptimizeError<E>>(#[trigger] inputs@[k]),
                )
            &&& if inputs@.len() < plan.inputs@.len() {
                outcome is Err && tree::passed(
                    Pass::Pipeline,
                    plan.inputs@[inputs@.len() as int],
                    config,
                    renew,
                    carry_out,
                    outcome,
                )
            } else {
                tree::node_passed(
                    Pass::Pipeline,
                    plan.plan,
                    inputs,
                    config,
                    renew,
                    carry_out,
                    outcome,
                )
            }
        };
    assert forall|k: int| 0 <= k < inputs@.len() implies all_run_with_endless_inputs(
        #[trigger] inputs@[k],
    ) by {
        assert(plan.inputs@[k] == plan.inputs[k]);
        the_first_pass_fixes_every_join::<P, E, N, C>(
            plan.inputs@[k],
            config,
            renew,
            carry_out,
            inputs@[k],
        );
    }
    let renewed = choose|renewed: Result<PlanTree<P>, E>| #[trigger]
        call_ensures(renew, (plan.plan, inputs), renewed) && match renewed {
            Err(error) => outcome == Err::<PlanTree<P>, OptimizeError<E>>(
                OptimizeError::Plan(error),
            ),
            Ok(node) => exists|decision: Result<Option<Rewrite>, JoinError>| #[trigger]
                selection::decides(Pass::Pipeline, node.node, config, decision)
                    && tree::decision_carried_out(node, decision, carry_out, outcome),
        };
    let node = renewed->Ok_0;
    let decision = choose|decision: Result<Option<Rewrite>, JoinError>| #[trigger]
        selection::decides(Pass::Pipeline, node.node, config, decision)
            && tree::decision_carried_out(node, decision, carry_out, outcome);
    assert(node.inputs@ == inputs@);
    if decision is Ok && decision->Ok_0 is Some {
        decided_rewrite_is_fixed(node, config, decision->Ok_0->0, result);
    }
}

/// Whether an error is why a node could not be made anew over its inputs, why the rule could
/// not decide on it, or why its decision could not be carried out.
pub open spec fn node_failed<P, E, N, C>(
    pass: Pass,
    plan: P,
    inputs: Vec<PlanTree<P>>,
    config: OptimizerOptions,
    renew: N,
    carry_out: C,
    error: OptimizeError<E>,
) -> bool where
    N: Fn(P, Vec<PlanTree<P>>) -> Result<PlanTree<P>, E>,
    C: Fn(PlanTree<P>, Rewrite) -> Result<PlanTree<P>, E>,
 {
    ||| error is Plan && call_ensures(
        renew,
        (plan, inputs),
        Err::<PlanTree<P>, E>(error->Plan_0),
    )
    ||| exists|node: PlanTree<P>| #[trigger]
        call_ensures(renew, (plan, inputs), Ok::<PlanTree<P>, E>(node)) && match error {
            OptimizeError::Rule(reason) => selection::decides(
                pass,
                node.node,
                config,
                Err::<Option<Rewrite>, JoinError>(reason),
            ),
            OptimizeError::Plan(reason) => exists|rewrite: Rewrite| #[trigger]
                call_ensures(carry_out, (node, rewrite), Err::<PlanTree<P>, E>(reason))
                    && selection::decides(
                    pass,
                    node.node,
                    config,
                    Ok::<Option<Rewrite>, JoinError>(Some(rewrite)),
                ),
        }
}

/// A pass that fails reports what failed: a pass over one of the inputs, or something at the
/// node once all its inputs have been passed over.
pub proof fn failures_end_a_pass<P, E, N, C>(
    rule: JoinSelection,
    pass: Pass,
    plan: PlanTree<P>,
    config: OptimizerOptions,
    renew: N,
    carry_out: C,
    error: OptimizeError<E>,
) where
    N: Fn(P, Vec<PlanTree<P>>) -> Result<PlanTree<P>, E>,
    C: Fn(PlanTree<P>, Rewrite) -> Result<PlanTree<P>, E>,

    requires
        call_ensures(
            JoinSelection::transform_up::<P, E, N, C>,
            (&rule, pass, plan, &config, &renew, &carry_out),
            Err::<PlanTree<P>, OptimizeError<E>>(error),
        ),
    ensures
        (exists|k: int|
            0 <= k < plan.inputs@.len() && #[trigger] is_pass(
                pass,
                plan.inputs@[k],
                config,
                renew,
                carry_out,
                Err::<PlanTree<P>, OptimizeError<E>>(error),
            )) || (exists|inputs: Vec<PlanTree<P>>|
            inputs_passed::<P, E, N, C>(pass, plan.inputs@, config, renew, carry_out, inputs)
                && #[trigger] node_failed(
                pass,
                plan.plan,
                inputs,
                config,
                renew,
                carry_out,
                error,
            )),
{
    let outcome = Err::<PlanTree<P>, OptimizeError<E>>(error);
    let inputs = choose|inputs: Vec<PlanTree<P>>|
        {
            &&& #[trigger] inputs@.len() <= plan.inputs@.len()
            &&& forall|k: int|
                0 <= k < inputs@.len() && k < plan.inputs@.len() ==> tree::passed(
                    pass,
                    plan.inputs@[k],
                    config,
                    renew,
                    carry_out,
                    Ok::<PlanTree<P>, OptimizeError<E>>(#[trigger] inputs@[k]),
                )
            &&& if inputs@.len() < plan.inputs@.len() {
                outcome is Err && tree::passed(
                    pass,
                    plan.inputs@[inputs@.len() as int],
                    config,
                    renew,
                    carry_out,
                    outcome,
                )
            } else {
                tree::node_passed(pass, plan.plan, inputs, config, renew, carry_out, outcome)
            }
        };
    if inputs@.len() < plan.inputs@.len() {
        let k = inputs@.len() as int;
        assert(is_pass(pass, plan.inputs@[k], config, renew, carry_out, outcome));
    } else {
        let renewed = choose|renewed: Result<PlanTree<P>, E>| #[trigger]
            call_ensures(renew, (plan.plan, inputs), renewed) && match renewed {
                Err(error) => outcome == Err::<PlanTree<P>, OptimizeError<E>>(
                    OptimizeError::Plan(error),
                ),
                Ok(node) => exists|decision: Result<Option<Rewrite>, JoinError>| #[trigger]
                    selection::decides(pass, node.node, config, decision)
                        && tree::decision_carried_out(node, decision, carry_out, outcome),
            };
        if renewed is Ok {
            let node = renewed->Ok_0;
            assert(call_ensures(renew, (plan.plan, inputs), Ok::<PlanTree<P>, E>(node)));
            let decision = choose|decision: Result<Option<Rewrite>, JoinError>| #[trigger]
                selection::decides(pass, node.node, config, decision)
                    && tree::decision_carried_out(node, decision, carry_out, outcome);
            if decision is Ok && decision->Ok_0 is Some && error is Plan {
                assert(call_ensures(
                    carry_out,
                    (node, decision->Ok_0->0),
                    Err::<PlanTree<P>, E>(error->Plan_0),
                ));
            }
        }
        assert(node_failed(pass, plan.plan, inputs, config, renew, carry_out, error));
    }
}

} // verus!
