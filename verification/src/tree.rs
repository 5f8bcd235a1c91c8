//! The join selection rule on whole plans.
//!
//! The rule walks a plan and says what to do with each node. Making a node anew over
//! other inputs, and doing with a node what the rule says, is left to the caller.
use crate::error::JoinError;
use crate::selection;
use crate::selection::{JoinSelection, OptimizerOptions, PartitionMode, Pass, PlanNode, Rewrite};
use vstd::prelude::*;

verus! {

/// A plan: a node and the plans that are its inputs.
#[derive(Debug)]
pub struct PlanTree<P> {
    /// What the caller keeps of the node.
    pub plan: P,
    /// What the rule needs to know of the node.
    pub node: PlanNode,
    /// The inputs of the node.
    pub inputs: Vec<PlanTree<P>>,
}

/// Why a plan could not be optimized.
#[derive(Debug, PartialEq, Eq)]
pub enum OptimizeError<E> {
    /// The rule could not decide what to do with a join.
    Rule(JoinError),
    /// A node could not be made.
    Plan(E),
}

/// Whether a result is what one pass makes of a node whose inputs it has been over: the
/// node is made anew over the inputs, the rule decides on the new node, and what it
/// decides is carried out.
pub open spec fn node_passed<P, E, N, C>(
    pass: Pass,
    plan: P,
    inputs: Vec<PlanTree<P>>,
    config: OptimizerOptions,
    renew: N,
    carry_out: C,
    result: Result<PlanTree<P>, OptimizeError<E>>,
) -> bool where
    N: Fn(P, Vec<PlanTree<P>>) -> Result<PlanTree<P>, E>,
    C: Fn(PlanTree<P>, Rewrite) -> Result<PlanTree<P>, E>,
 {
    exists|renewed: Result<PlanTree<P>, E>| #[trigger]
        call_ensures(renew, (plan, inputs), renewed) && match renewed {
            Err(error) => result == Err::<PlanTree<P>, OptimizeError<E>>(
                OptimizeError::Plan(error),
            ),
            Ok(tree) => exists|decision: Result<Option<Rewrite>, JoinError>| #[trigger]
                selection::decides(pass, tree.node, config, decision) && decision_carried_out(
                    tree,
                    decision,
                    carry_out,
                    result,
                ),
        }
}

/// Whether a result is what carrying out a decision on a node gives.
pub open spec fn decision_carried_out<P, E, C>(
    tree: PlanTree<P>,
    decision: Result<Option<Rewrite>, JoinError>,
    carry_out: C,
    result: Result<PlanTree<P>, OptimizeError<E>>,
) -> bool where C: Fn(PlanTree<P>, Rewrite) -> Result<PlanTree<P>, E> {
    match decision {
        Err(error) => result == Err::<PlanTree<P>, OptimizeError<E>>(OptimizeError::Rule(error)),
        Ok(None) => result == Ok::<PlanTree<P>, OptimizeError<E>>(tree),
        Ok(Some(rewrite)) => match result {
            Ok(made) => call_ensures(
                carry_out,
                (tree, rewrite),
                Ok::<PlanTree<P>, E>(made),
            ),
            Err(OptimizeError::Plan(error)) => call_ensures(
                carry_out,
                (tree, rewrite),
                Err::<PlanTree<P>, E>(error),
            ),
            Err(OptimizeError::Rule(_)) => false,
        },
    }
}

/// Whether a result is what one pass makes of a plan: it goes over the inputs of a node,
/// in order, before the node, and ends with the first error.
pub open spec fn passed<P, E, N, C>(
    pass: Pass,
    tree: PlanTree<P>,
    config: OptimizerOptions,
    renew: N,
    carry_out: C,
    result: Result<PlanTree<P>, OptimizeError<E>>,
) -> bool where
    N: Fn(P, Vec<PlanTree<P>>) -> Result<PlanTree<P>, E>,
    C: Fn(PlanTree<P>, Rewrite) -> Result<PlanTree<P>, E>,

    decreases tree,
{
    exists|inputs: Vec<PlanTree<P>>|
        {
            &&& #[trigger] inputs@.len() <= tree.inputs@.len()
            &&& forall|k: int|
                0 <= k < inputs@.len() && k < tree.inputs@.len() ==> passed(
                    pass,
                    tree.inputs@[k],
                    config,
                    renew,
                    carry_out,
                    Ok::<PlanTree<P>, OptimizeError<E>>(#[trigger] inputs@[k]),
                )
            &&& if inputs@.len() < tree.inputs@.len() {
                result is Err && passed(
                    pass,
                    tree.inputs@[inputs@.len() as int],
                    config,
                    renew,
                    carry_out,
                    result,
                )
            } else {
                node_passed(pass, tree.plan, inputs, config, renew, carry_out, result)
            }
        }
}

/// Whether a node can always be made anew, and then says of itself what the rule needs,
/// and whether whatever the rule says can be tried.
pub open spec fn can_be_rewritten<P, E, N, C>(renew: N, carry_out: C) -> bool where
    N: Fn(P, Vec<PlanTree<P>>) -> Result<PlanTree<P>, E>,
    C: Fn(PlanTree<P>, Rewrite) -> Result<PlanTree<P>, E>,
 {
    &&& forall|plan: P, inputs: Vec<PlanTree<P>>| #[trigger]
        call_requires(renew, (plan, inputs))
    &&& forall|plan: P, inputs: Vec<PlanTree<P>>, tree: PlanTree<P>| #[trigger]
        call_ensures(renew, (plan, inputs), Ok::<PlanTree<P>, E>(tree)) ==> tree.node.wf()
    &&& forall|tree: PlanTree<P>, rewrite: Rewrite| #[trigger]
        call_requires(carry_out, (tree, rewrite))
}

/// Whether a result is what the rule makes of a plan: one pass that fixes joins for
/// unbounded inputs over the whole plan, then one that optimizes them by statistics over
/// what came of the first.
pub open spec fn optimized<P, E, N, C>(
    tree: PlanTree<P>,
    config: OptimizerOptions,
    renew: N,
    carry_out: C,
    result: Result<PlanTree<P>, OptimizeError<E>>,
) -> bool where
    N: Fn(P, Vec<PlanTree<P>>) -> Result<PlanTree<P>, E>,
    C: Fn(PlanTree<P>, Rewrite) -> Result<PlanTree<P>, E>,
 {
    exists|fixed: Result<PlanTree<P>, OptimizeError<E>>|
        {
            &&& #[trigger] passed(Pass::Pipeline, tree, config, renew, carry_out, fixed)
            &&& match fixed {
                Ok(fixed) => passed(Pass::Statistical, fixed, config, renew, carry_out, result),
                Err(_) => result == fixed,
            }
        }
}

impl JoinSelection {
    /// Goes over a plan in one pass, inputs before the nodes on them.
    #[verifier::loop_isolation(false)]
    pub fn transform_up<P, E, N, C>(
        &self,
        pass: Pass,
        tree: PlanTree<P>,
        config: &OptimizerOptions,
        renew: &N,
        carry_out: &C,
    ) -> (result: Result<PlanTree<P>, OptimizeError<E>>) where
        N: Fn(P, Vec<PlanTree<P>>) -> Result<PlanTree<P>, E>,
        C: Fn(PlanTree<P>, Rewrite) -> Result<PlanTree<P>, E>,

        requires
            can_be_rewritten::<P, E, N, C>(*renew, *carry_out),
        ensures
            passed(pass, tree, *config, *renew, *carry_out, result),
        decreases tree,
    {
        let ghost given = tree;
        let PlanTree { plan, node: _, inputs: mut rest } = tree;
        let count = rest.len();
        let mut inputs: Vec<PlanTree<P>> = Vec::new();
        for k in 0..count
            invariant
                count == given.inputs@.len(),
                can_be_rewritten::<P, E, N, C>(*renew, *carry_out),
                rest@ == given.inputs@.skip(k as int),
                inputs@.len() == k,
                forall|d: int|
                    0 <= d < k ==> passed(
                        pass,
                        given.inputs@[d],
                        *config,
                        *renew,
                        *carry_out,
                        Ok::<PlanTree<P>, OptimizeError<E>>(#[trigger] inputs@[d]),
                    ),
        {
            let input = rest.remove(0);
            assert(input == given.inputs[k as int]);
            assert(rest@ =~= given.inputs@.skip(k + 1));
            let ghost before = inputs;
            match self.transform_up(pass, input, config, renew, carry_out) {
                Ok(input) => inputs.push(input),
                Err(error) => {
                    assert(before@.len() <= given.inputs@.len());
                    return Err(error);
                },
            }
        }
        let ghost all = inputs;
        assert(all@.len() <= given.inputs@.len());
        let renewed = match renew(plan, inputs) {
            Ok(renewed) => renewed,
            Err(error) => return Err(OptimizeError::Plan(error)),
        };
        match self.optimize_node(pass, &renewed.node, config) {
            Ok(Some(rewrite)) => match carry_out(renewed, rewrite) {
                Ok(made) => Ok(made),
                Err(error) => Err(OptimizeError::Plan(error)),
            },
            Ok(None) => Ok(renewed),
            Err(error) => Err(OptimizeError::Rule(error)),
        }
    }

    /// Selects how the joins of a plan are run: makes a plan that can accommodate
    /// unbounded inputs, and then optimizes its joins by the statistics of their inputs.
    pub fn optimize<P, E, N, C>(
        &self,
        plan: PlanTree<P>,
        config: &OptimizerOptions,
        renew: &N,
        carry_out: &C,
    ) -> (result: Result<PlanTree<P>, OptimizeError<E>>) where
        N: Fn(P, Vec<PlanTree<P>>) -> Result<PlanTree<P>, E>,
        C: Fn(PlanTree<P>, Rewrite) -> Result<PlanTree<P>, E>,

        requires
            can_be_rewritten::<P, E, N, C>(*renew, *carry_out),
        ensures
            optimized(plan, *config, *renew, *carry_out, result),
    {
        match self.transform_up(Pass::Pipeline, plan, config, renew, carry_out) {
            Ok(fixed) => self.transform_up(Pass::Statistical, fixed, config, renew, carry_out),
            Err(error) => Err(error),
        }
    }
}

/// Whether the partition mode of no hash join in a plan is left open.
pub open spec fn modes_decided<P>(tree: PlanTree<P>) -> bool
    decreases tree,
{
    &&& tree.node is HashJoin ==> tree.node->HashJoin_0.partition_mode != PartitionMode::Auto
    &&& forall|k: int| 0 <= k < tree.inputs@.len() ==> modes_decided(#[trigger] tree.inputs@[k])
}

/// Whether a plan is the given join, or a node over the given join alone that puts its
/// columns back in order.
pub open spec fn is_over<P>(plan: PlanTree<P>, join: PlanTree<P>) -> bool {
    plan == join || (plan.node is Other && plan.inputs@ == seq![join])
}

/// Whether a plan is what a rewrite makes of another: the rewritten node over the same
/// inputs or, where the inputs are exchanged, the swapped node over the exchanged inputs.
pub open spec fn is_rewritten<P>(tree: PlanTree<P>, rewrite: Rewrite, made: PlanTree<P>) -> bool {
    match selection::rewritten(tree.node, rewrite) {
        Some(node) => made.node == node && made.inputs@ == tree.inputs@,
        None => exists|join: PlanTree<P>| #[trigger]
            is_over(made, join) && selection::is_swapped(tree.node, rewrite, join.node)
                && join.inputs@ == tree.inputs@.reverse(),
    }
}

/// Whether a node that is made anew has the inputs that it is made over, and carrying out
/// what the rule says makes the plan that the rule says.
pub open spec fn does_as_told<P, E, N, C>(renew: N, carry_out: C) -> bool where
    N: Fn(P, Vec<PlanTree<P>>) -> Result<PlanTree<P>, E>,
    C: Fn(PlanTree<P>, Rewrite) -> Result<PlanTree<P>, E>,
 {
    &&& forall|plan: P, inputs: Vec<PlanTree<P>>, tree: PlanTree<P>| #[trigger]
        call_ensures(renew, (plan, inputs), Ok::<PlanTree<P>, E>(tree)) ==> tree.inputs@
            == inputs@
    &&& forall|tree: PlanTree<P>, rewrite: Rewrite, made: PlanTree<P>| #[trigger]
        call_ensures(carry_out, (tree, rewrite), Ok::<PlanTree<P>, E>(made)) ==> is_rewritten(
            tree,
            rewrite,
            made,
        )
}

/// What a rewrite that the second pass decides on makes of a node over decided inputs has
/// no open mode.
proof fn decided_rewrite_opens_no_mode<P>(
    tree: PlanTree<P>,
    config: OptimizerOptions,
    rewrite: Rewrite,
    made: PlanTree<P>,
)
    requires
        selection::decides(Pass::Statistical, tree.node, config, Ok(Some(rewrite))),
        is_rewritten(tree, rewrite, made),
        forall|k: int| 0 <= k < tree.inputs@.len() ==> modes_decided(#[trigger] tree.inputs@[k]),
    ensures
        modes_decided(made),
{
    if selection::rewritten(tree.node, rewrite) is None {
        let join = choose|join: PlanTree<P>| #[trigger]
            is_over(made, join) && selection::is_swapped(tree.node, rewrite, join.node)
                && join.inputs@ == tree.inputs@.reverse();
        assert forall|k: int| 0 <= k < join.inputs@.len() implies modes_decided(
            #[trigger] join.inputs@[k],
        ) by {
            let from = tree.inputs@.len() - 1 - k;
            assert(join.inputs@[k] == tree.inputs@[from]);
        }
        assert(modes_decided(join));
        if made != join {
            assert forall|k: int| 0 <= k < made.inputs@.len() implies modes_decided(
                #[trigger] made.inputs@[k],
            ) by {
                assert(made.inputs@[k] == join);
            }
        }
    }
}

/// The second pass leaves the partition mode of no hash join open.
proof fn statistical_pass_decides_modes<P, E, N, C>(
    tree: PlanTree<P>,
    config: OptimizerOptions,
    renew: N,
    carry_out: C,
    result: PlanTree<P>,
) where
    N: Fn(P, Vec<PlanTree<P>>) -> Result<PlanTree<P>, E>,
    C: Fn(PlanTree<P>, Rewrite) -> Result<PlanTree<P>, E>,

    requires
        does_as_told::<P, E, N, C>(renew, carry_out),
        passed(
            Pass::Statistical,
            tree,
            config,
            renew,
            carry_out,
            Ok::<PlanTree<P>, OptimizeError<E>>(result),
        ),
    ensures
        modes_decided(result),
    decreases tree,
{
    let outcome = Ok::<PlanTree<P>, OptimizeError<E>>(result);
    let inputs = choose|inputs: Vec<PlanTree<P>>|
        {
            &&& #[trigger] inputs@.len() <= tree.inputs@.len()
            &&& forall|k: int|
                0 <= k < inputs@.len() && k < tree.inputs@.len() ==> passed(
                    Pass::Statistical,
                    tree.inputs@[k],
                    config,
                    renew,
                    carry_out,
                    Ok::<PlanTree<P>, OptimizeError<E>>(#[trigger] inputs@[k]),
                )
            &&& if inputs@.len() < tree.inputs@.len() {
                outcome is Err && passed(
                    Pass::Statistical,
                    tree.inputs@[inputs@.len() as int],
                    config,
                    renew,
                    carry_out,
                    outcome,
                )
            } else {
                node_passed(
                    Pass::Statistical,
                    tree.plan,
                    inputs,
                    config,
                    renew,
                    carry_out,
                    outcome,
                )
            }
        };
    assert forall|k: int| 0 <= k < inputs@.len() implies modes_decided(#[trigger] inputs@[k]) by {
        assert(tree.inputs@[k] == tree.inputs[k]);
        statistical_pass_decides_modes::<P, E, N, C>(
            tree.inputs@[k],
            config,
            renew,
            carry_out,
            inputs@[k],
        );
    }
    let renewed = choose|renewed: Result<PlanTree<P>, E>| #[trigger]
        call_ensures(renew, (tree.plan, inputs), renewed) && match renewed {
            Err(error) => outcome == Err::<PlanTree<P>, OptimizeError<E>>(
                OptimizeError::Plan(error),
            ),
            Ok(tree) => exists|decision: Result<Option<Rewrite>, JoinError>| #[trigger]
                selection::decides(Pass::Statistical, tree.node, config, decision)
                    && decision_carried_out(tree, decision, carry_out, outcome),
        };
    let node = renewed->Ok_0.node;
    let decision = choose|decision: Result<Option<Rewrite>, JoinError>| #[trigger]
        selection::decides(Pass::Statistical, node, config, decision) && decision_carried_out(
            renewed->Ok_0,
            decision,
            carry_out,
            outcome,
        );
    assert(renewed->Ok_0.inputs@ == inputs@);
    if node is HashJoin && node->HashJoin_0.partition_mode == PartitionMode::Auto {
        selection::open_partition_mode_is_decided(
            node->HashJoin_0,
            config.hash_join_single_partition_threshold,
            config.hash_join_single_partition_threshold_rows,
        );
    }
    if decision is Ok && decision->Ok_0 is Some {
        decided_rewrite_opens_no_mode(renewed->Ok_0, config, decision->Ok_0->0, result);
    }
}

/// No hash join of an optimized plan is left in a mode that the rule was to decide, where
/// the caller does what the rule says.
pub proof fn no_mode_is_left_open<P, E, N, C>(
    tree: PlanTree<P>,
    config: OptimizerOptions,
    renew: N,
    carry_out: C,
    result: PlanTree<P>,
) where
    N: Fn(P, Vec<PlanTree<P>>) -> Result<PlanTree<P>, E>,
    C: Fn(PlanTree<P>, Rewrite) -> Result<PlanTree<P>, E>,

    requires
        does_as_told::<P, E, N, C>(renew, carry_out),
        optimized(tree, config, renew, carry_out, Ok::<PlanTree<P>, OptimizeError<E>>(result)),
    ensures
        modes_decided(result),
{
    let outcome = Ok::<PlanTree<P>, OptimizeError<E>>(result);
    let fixed = choose|fixed: Result<PlanTree<P>, OptimizeError<E>>|
        {
            &&& #[trigger] passed(Pass::Pipeline, tree, config, renew, carry_out, fixed)
            &&& match fixed {
                Ok(fixed) => passed(Pass::Statistical, fixed, config, renew, carry_out, outcome),
                Err(_) => outcome == fixed,
            }
        };
    statistical_pass_decides_modes::<P, E, N, C>(fixed->Ok_0, config, renew, carry_out, result);
}

} // verus!
