//! What the keys of a join are, told from the expressions that they come from.
use crate::array::{Array, Scalar};
use crate::asof;
use crate::batch::{RecordBatch, Schema};
use crate::condition::{flip_inequality, AsOfJoinCondition, AsOfJoinDirection};
use crate::error::JoinError;
use crate::eval;
use crate::eval::{
    array_of_size, evaluate, evaluate_expr, evaluate_keys, evaluate_side, ColumnarValue,
    KeyColumns,
};
use crate::expr;
use crate::expr::{Column, JoinOn, Operator, PhysicalExpr, PhysicalExprRef};
use crate::order;
use crate::order::{SortOptions, Value};
use crate::predicates::{
    extract_asof_join_predicates, AsOfPredicateVisitor, FilterView, JoinFilter,
};
use crate::stream::{CollectedInput, JoinTask};
use crate::types::JoinSide;
use vstd::prelude::*;

verus! {

/// Whether a comparison of two integers holds.
pub open spec fn compares(left: int, op: Operator, right: int) -> bool {
    match op {
        Operator::Eq => left == right,
        Operator::NotEq => left != right,
        Operator::Lt => left < right,
        Operator::LtEq => left <= right,
        Operator::Gt => left > right,
        Operator::GtEq => left >= right,
        _ => false,
    }
}

/// Whether an operator orders its operands.
pub open spec fn orders(op: Operator) -> bool {
    op == Operator::Lt || op == Operator::LtEq || op == Operator::Gt || op == Operator::GtEq
}

/// Whether integers satisfy a condition.
pub open spec fn satisfied(condition: AsOfJoinCondition, left: int, right: int) -> bool {
    asof::satisfies(
        Some(Value::Int(left)),
        Some(Value::Int(right)),
        condition.direction,
        condition.strict,
    )
}

/// A condition is made of exactly the operators that order their operands, keeps the
/// expressions on their sides, and is satisfied exactly where the comparison holds. It
/// searches backward from the left key where the left key has to be the greater one.
pub proof fn conditions_mean_their_comparison(
    left: PhysicalExprRef,
    op: Operator,
    right: PhysicalExprRef,
    made: Result<AsOfJoinCondition, JoinError>,
    l: int,
    r: int,
)
    requires
        call_ensures(AsOfJoinCondition::try_new, (left, op, right), made),
    ensures
        made is Ok <==> orders(op),
        made is Err ==> made->Err_0 == JoinError::NotAnInequality(op),
        made is Ok ==> {
            let condition = made->Ok_0;
            &&& condition.left == left && condition.right == right
            &&& satisfied(condition, l, r) <==> compares(l, op, r)
            &&& condition.direction == AsOfJoinDirection::Backward <==> compares(1, op, 0)
            &&& condition.strict <==> !compares(0, op, 0)
        },
{
}

/// Flipping an operator that orders its operands makes one that says the same of exchanged
/// operands; no other operator can be flipped.
pub proof fn flipped_operators_exchange_their_operands(
    op: Operator,
    flipped: Result<Operator, JoinError>,
    l: int,
    r: int,
)
    requires
        call_ensures(flip_inequality, (op,), flipped),
    ensures
        flipped is Ok <==> orders(op),
        flipped is Err ==> flipped->Err_0 == JoinError::CannotFlip(op),
        flipped is Ok ==> orders(flipped->Ok_0) && (compares(l, op, r) <==> compares(
            r,
            flipped->Ok_0,
            l,
        )) && (compares(l, op, l) <==> compares(l, flipped->Ok_0, l)),
{
}

/// In the order that a condition asks for, right keys that are nearer come later, and
/// nulls come last.
pub proof fn nearer_keys_are_sorted_later(
    condition: AsOfJoinCondition,
    options: SortOptions,
    directed: SortOptions,
    a: Value,
    b: Value,
)
    requires
        call_ensures(AsOfJoinCondition::sort_options, (&condition,), options),
        call_ensures(AsOfJoinDirection::sort_options, (&condition.direction,), directed),
    ensures
        directed == options,
        order::cell_less(Some(a), Some(b), options) <==> asof::nearer(
            Some(b),
            Some(a),
            condition.direction,
        ),
        order::cell_less(Some(a), None, options),
        !order::cell_less(None, Some(a), options),
{
}

/// Right keys are nearer the closer they come to the left key, on the side that is
/// searched.
pub proof fn nearer_keys_are_closer(condition: AsOfJoinCondition, left: int, a: int, b: int)
    requires
        satisfied(condition, left, a),
        satisfied(condition, left, b),
    ensures
        ({
            let from_a = if a < left {
                left - a
            } else {
                a - left
            };
            let from_b = if b < left {
                left - b
            } else {
                b - left
            };
            asof::nearer(Some(Value::Int(a)), Some(Value::Int(b)), condition.direction) <==> from_a
                < from_b
        }),
{
}

/// What a shared expression is.
spec fn of(shared: PhysicalExprRef) -> PhysicalExpr {
    *shared
}

/// Whether an expression is a conjunction.
pub open spec fn is_conjunction(expr: PhysicalExpr) -> bool {
    match expr {
        PhysicalExpr::Binary { op, .. } => op == Operator::And,
        _ => false,
    }
}

/// A conjunction of two expressions, under some text.
pub open spec fn both(left: PhysicalExprRef, right: PhysicalExprRef, sql: String) -> PhysicalExpr {
    PhysicalExpr::Binary { left, op: Operator::And, right, sql }
}

/// Whether a meaning of predicates takes `AND` as conjunction.
pub open spec fn is_logical(meaning: spec_fn(PhysicalExpr) -> bool) -> bool {
    forall|left: PhysicalExprRef, right: PhysicalExprRef, sql: String|
        meaning(#[trigger] both(left, right, sql)) == (meaning(*left) && meaning(*right))
}

/// Whether all of some predicates hold.
pub open spec fn all_hold(
    predicates: Seq<PhysicalExpr>,
    meaning: spec_fn(PhysicalExpr) -> bool,
) -> bool {
    forall|k: int| 0 <= k < predicates.len() ==> meaning(#[trigger] predicates[k])
}

/// No conjunct is itself a conjunction, an expression that is none is its own single
/// conjunct, and a conjunction has the conjuncts of its left operand followed by those of
/// its right operand.
pub proof fn conjuncts_cannot_be_split_further(expr: PhysicalExpr)
    ensures
        expr::conjuncts(expr).len() > 0,
        forall|k: int|
            0 <= k < expr::conjuncts(expr).len() ==> !is_conjunction(
                #[trigger] expr::conjuncts(expr)[k],
            ),
        !is_conjunction(expr) ==> expr::conjuncts(expr) == seq![expr],
        is_conjunction(expr) ==> expr::conjuncts(expr) == expr::conjuncts(*expr->Binary_left)
            + expr::conjuncts(*expr->Binary_right),
    decreases expr,
{
    match expr {
        PhysicalExpr::Binary { left, op, right, .. } => if op == Operator::And {
            conjuncts_cannot_be_split_further(of(left));
            conjuncts_cannot_be_split_further(of(right));
            let a = expr::conjuncts(of(left));
            let b = expr::conjuncts(of(right));
            assert forall|k: int| 0 <= k < (a + b).len() implies !is_conjunction(
                #[trigger] (a + b)[k],
            ) by {
                if k < a.len() {
                    assert((a + b)[k] == a[k]);
                } else {
                    assert((a + b)[k] == b[k - a.len()]);
                }
            }
        },
        _ => {},
    }
}

/// Predicates that stand one after the other hold where both parts do.
proof fn all_hold_in_two(
    a: Seq<PhysicalExpr>,
    b: Seq<PhysicalExpr>,
    meaning: spec_fn(PhysicalExpr) -> bool,
)
    ensures
        all_hold(a + b, meaning) <==> all_hold(a, meaning) && all_hold(b, meaning),
{
    let all = a + b;
    assert forall|k: int| 0 <= k < a.len() implies all[k] == #[trigger] a[k] by {}
    assert forall|k: int| 0 <= k < b.len() implies all[a.len() + k] == #[trigger] b[k] by {}
    if all_hold(all, meaning) {
        assert forall|k: int| 0 <= k < a.len() implies meaning(#[trigger] a[k]) by {
            assert(meaning(all[k]));
        }
        assert forall|k: int| 0 <= k < b.len() implies meaning(#[trigger] b[k]) by {
            assert(meaning(all[a.len() + k]));
        }
    }
    if all_hold(a, meaning) && all_hold(b, meaning) {
        assert forall|k: int| 0 <= k < all.len() implies meaning(#[trigger] all[k]) by {
            if k < a.len() {
                assert(meaning(a[k]));
            } else {
                assert(meaning(b[k - a.len()]));
            }
        }
    }
}

/// A predicate holds exactly where all of its conjuncts hold, whatever its parts mean.
pub proof fn predicates_hold_where_all_conjuncts_hold(
    expr: PhysicalExpr,
    meaning: spec_fn(PhysicalExpr) -> bool,
)
    requires
        is_logical(meaning),
    ensures
        meaning(expr) <==> all_hold(expr::conjuncts(expr), meaning),
    decreases expr,
{
    match expr {
        PhysicalExpr::Binary { left, op, right, sql } => if op == Operator::And {
            assert(both(left, right, sql) == expr);
            predicates_hold_where_all_conjuncts_hold(of(left), meaning);
            predicates_hold_where_all_conjuncts_hold(of(right), meaning);
            all_hold_in_two(expr::conjuncts(of(left)), expr::conjuncts(of(right)), meaning);
        } else {
            single_holds(expr, meaning);
        },
        _ => {
            single_holds(expr, meaning);
        },
    }
}

/// A single predicate holds where it holds.
proof fn single_holds(expr: PhysicalExpr, meaning: spec_fn(PhysicalExpr) -> bool)
    ensures
        all_hold(seq![expr], meaning) <==> meaning(expr),
{
    assert(seq![expr][0] == expr);
    if all_hold(seq![expr], meaning) {
        assert(meaning(seq![expr][0]));
    }
}

/// Where the column that an expression is comes from, if it is one of an input: its side
/// and its position there.
pub open spec fn origin(filter: JoinFilter, expr: PhysicalExpr) -> Option<(JoinSide, usize)> {
    if expr is Column && expr->Column_0.index < filter.column_indices@.len()
        && filter.column_indices@[expr->Column_0.index as int].side != JoinSide::Neither {
        let at = filter.column_indices@[expr->Column_0.index as int];
        Some((at.side, at.index))
    } else {
        None
    }
}

/// Whether an expression compares, by the given kind of operator, a column of one input
/// with a column of the other.
pub open spec fn is_across(filter: JoinFilter, expr: PhysicalExpr) -> bool {
    &&& expr is Binary
    &&& origin(filter, *expr->Binary_left) is Some
    &&& origin(filter, *expr->Binary_right) is Some
    &&& (origin(filter, *expr->Binary_left)->0).0 != (origin(filter, *expr->Binary_right)->0).0
}

/// Where the column of a side comes from in a comparison across the inputs.
pub open spec fn position_in(filter: JoinFilter, expr: PhysicalExpr, side: JoinSide) -> usize {
    if (origin(filter, *expr->Binary_left)->0).0 == side {
        (origin(filter, *expr->Binary_left)->0).1
    } else {
        (origin(filter, *expr->Binary_right)->0).1
    }
}

/// The column at a position of a schema.
pub open spec fn column_at(schema: Schema, index: usize) -> PhysicalExpr {
    PhysicalExpr::Column(Column { name: schema.fields@[index as int].name, index })
}

/// A comparison across the inputs, as the keys are found in it.
proof fn across_states_a_key(filter: JoinFilter, left: Schema, right: Schema, expr: PhysicalExpr)
    ensures
        ({
            let view = FilterView { column_indices: filter.column_indices@, left, right };
            let l = column_at(left, position_in(filter, expr, JoinSide::Left));
            let r = column_at(right, position_in(filter, expr, JoinSide::Right));
            &&& view.equality_key(expr) is Some <==> is_across(filter, expr) && expr->op
                == Operator::Eq
            &&& view.asof_key(expr) is Some <==> is_across(filter, expr) && orders(expr->op)
            &&& view.equality_key(expr) is Some ==> *(view.equality_key(expr)->0).0 == l
                && *(view.equality_key(expr)->0).1 == r
            &&& view.asof_key(expr) is Some ==> *view.asof_key(expr)->0.left == l
                && *view.asof_key(expr)->0.right == r
        }),
{
}

/// The equality keys of conjuncts of which one states the as-of condition are those of the
/// others, in order.
proof fn equality_keys_in_order(view: FilterView, conjuncts: Seq<PhysicalExpr>, at: int, k: int)
    requires
        forall|i: int|
            0 <= i < conjuncts.len() && i != at ==> view.equality_key(
                #[trigger] conjuncts[i],
            ) is Some,
        0 <= at < conjuncts.len() ==> view.equality_key(conjuncts[at]) is None,
        0 <= k < conjuncts.len() && k != at,
        at >= 0,
    ensures
        view.equality_keys(conjuncts).len() == if at < conjuncts.len() {
            conjuncts.len() - 1
        } else {
            conjuncts.len() as int
        },
        view.equality_keys(conjuncts)[if k < at {
            k
        } else {
            k - 1
        }] == view.equality_key(conjuncts[k])->0,
    decreases conjuncts.len(),
{
    let n = conjuncts.len() - 1;
    let rest = conjuncts.drop_last();
    assert forall|i: int| 0 <= i < rest.len() && i != at implies view.equality_key(
        #[trigger] rest[i],
    ) is Some by {
        assert(rest[i] == conjuncts[i]);
    }
    assert(conjuncts.last() == conjuncts[n]);
    reveal_with_fuel(FilterView::equality_keys, 2);
    if k < n {
        equality_keys_in_order(view, rest, at, k);
    } else if n > 1 || (n == 1 && at != 0) {
        equality_keys_in_order(
            view,
            rest,
            at,
            if at == 0 {
                1
            } else {
                0
            },
        );
    } else if n == 1 {
        assert(rest.drop_last() =~= Seq::empty());
        assert(rest.last() == conjuncts[0]);
        assert(view.equality_keys(rest) =~= Seq::empty());
    } else {
        assert(rest =~= Seq::empty());
    }
}

/// Keys are extracted from a filter exactly where one of its conjuncts is an ordering
/// comparison across the inputs and every other one an equality across the inputs. The
/// condition is between the columns of that conjunct, and the keys are those of the other
/// conjuncts, in order, the left input's column first in each.
pub proof fn extraction_takes_every_conjunct(
    filter: JoinFilter,
    left: Schema,
    right: Schema,
    found: Option<(JoinOn, AsOfJoinCondition)>,
    at: int,
    k: int,
)
    requires
        call_ensures(extract_asof_join_predicates, (&filter, &left, &right), found),
    ensures
        ({
            let conjuncts = expr::conjuncts(*filter.expression);
            let fits = |at: int|
                0 <= at < conjuncts.len() && is_across(filter, conjuncts[at]) && orders(
                    conjuncts[at]->op,
                ) && forall|i: int|
                    0 <= i < conjuncts.len() && i != at ==> is_across(
                        filter,
                        #[trigger] conjuncts[i],
                    ) && conjuncts[i]->op == Operator::Eq;
            &&& found is Some <==> exists|at: int| #[trigger] fits(at)
            &&& fits(at) ==> {
                let (on, condition) = found->0;
                &&& on@.len() == conjuncts.len() - 1
                &&& *condition.left == column_at(
                    left,
                    position_in(filter, conjuncts[at], JoinSide::Left),
                )
                &&& *condition.right == column_at(
                    right,
                    position_in(filter, conjuncts[at], JoinSide::Right),
                )
                &&& 0 <= k < conjuncts.len() && k != at ==> {
                    let key = on@[if k < at {
                        k
                    } else {
                        k - 1
                    }];
                    &&& *key.0 == column_at(
                        left,
                        position_in(filter, conjuncts[k], JoinSide::Left),
                    )
                    &&& *key.1 == column_at(
                        right,
                        position_in(filter, conjuncts[k], JoinSide::Right),
                    )
                }
            }
        }),
{
    let view = FilterView { column_indices: filter.column_indices@, left, right };
    let conjuncts = filter.conjuncts();
    let fits = |at: int|
        0 <= at < conjuncts.len() && is_across(filter, conjuncts[at]) && orders(
            conjuncts[at]->op,
        ) && forall|i: int|
            0 <= i < conjuncts.len() && i != at ==> is_across(filter, #[trigger] conjuncts[i])
                && conjuncts[i]->op == Operator::Eq;
    assert forall|i: int| 0 <= i < conjuncts.len() implies (view.equality_key(
        #[trigger] conjuncts[i],
    ) is Some <==> is_across(filter, conjuncts[i]) && conjuncts[i]->op == Operator::Eq) && (
    view.asof_key(conjuncts[i]) is Some <==> is_across(filter, conjuncts[i]) && orders(
        conjuncts[i]->op,
    )) by {
        across_states_a_key(filter, left, right, conjuncts[i]);
    }
    assert forall|a: int| #[trigger] fits(a) <==> view.asof_at(conjuncts, a) by {
        if fits(a) {
            assert forall|i: int| 0 <= i < conjuncts.len() && i != a implies view.equality_key(
                #[trigger] conjuncts[i],
            ) is Some by {}
        }
        if view.asof_at(conjuncts, a) {
            assert forall|i: int| 0 <= i < conjuncts.len() && i != a implies is_across(
                filter,
                #[trigger] conjuncts[i],
            ) && conjuncts[i]->op == Operator::Eq by {
                assert(view.equality_key(conjuncts[i]) is Some);
            }
        }
    }
    if exists|a: int| #[trigger] fits(a) {
        let a = choose|a: int| #[trigger] fits(a);
        assert(view.asof_at(conjuncts, a));
    }
    if exists|a: int| #[trigger] view.asof_at(conjuncts, a) {
        let a = choose|a: int| #[trigger] view.asof_at(conjuncts, a);
        assert(fits(a));
    }
    if fits(at) {
        assert(view.asof_at(conjuncts, at));
        across_states_a_key(filter, left, right, conjuncts[at]);
        assert(view.equality_key(conjuncts[at]) is None);
        if conjuncts.len() > 1 {
            equality_keys_in_order(
                view,
                conjuncts,
                at,
                if at == 0 {
                    1
                } else {
                    0
                },
            );
        } else {
            reveal_with_fuel(FilterView::equality_keys, 2);
            assert(conjuncts.last() == conjuncts[at]);
            assert(conjuncts.drop_last() =~= Seq::empty());
        }
        if 0 <= k < conjuncts.len() && k != at {
            equality_keys_in_order(view, conjuncts, at, k);
            across_states_a_key(filter, left, right, conjuncts[k]);
        }
    }
}

/// The value of a column of a filter, given a row of each input.
pub open spec fn row_value(
    filter: JoinFilter,
    expr: PhysicalExpr,
    left_row: spec_fn(usize) -> int,
    right_row: spec_fn(usize) -> int,
) -> int {
    if (origin(filter, expr)->0).0 == JoinSide::Left {
        left_row((origin(filter, expr)->0).1)
    } else {
        right_row((origin(filter, expr)->0).1)
    }
}

/// The position of a column.
pub open spec fn index_of(expr: PhysicalExpr) -> usize {
    expr->Column_0.index
}

/// What is extracted from a filter means what the filter means: of any rows of the inputs,
/// the filter holds exactly where every key is equal and the condition is satisfied.
pub proof fn extracted_keys_mean_the_whole_filter(
    filter: JoinFilter,
    left: Schema,
    right: Schema,
    found: Option<(JoinOn, AsOfJoinCondition)>,
    left_row: spec_fn(usize) -> int,
    right_row: spec_fn(usize) -> int,
    meaning: spec_fn(PhysicalExpr) -> bool,
)
    requires
        call_ensures(extract_asof_join_predicates, (&filter, &left, &right), found),
        found is Some,
        is_logical(meaning),
        forall|expr: PhysicalExpr| #[trigger]
            is_across(filter, expr) ==> meaning(expr) == compares(
                row_value(filter, *expr->Binary_left, left_row, right_row),
                expr->op,
                row_value(filter, *expr->Binary_right, left_row, right_row),
            ),
    ensures
        meaning(*filter.expression) <==> (forall|k: int|
            0 <= k < (found->0).0@.len() ==> left_row(index_of(*(#[trigger] (found->0).0@[k]).0))
                == right_row(index_of(*(found->0).0@[k].1))) && satisfied(
            (found->0).1,
            left_row(index_of(*(found->0).1.left)),
            right_row(index_of(*(found->0).1.right)),
        ),
{
    let conjuncts = filter.conjuncts();
    let view = FilterView { column_indices: filter.column_indices@, left, right };
    let on = (found->0).0@;
    let condition = (found->0).1;
    predicates_hold_where_all_conjuncts_hold(of(filter.expression), meaning);
    assert(meaning(*filter.expression) <==> all_hold(conjuncts, meaning));
    let at = choose|at: int| #[trigger] view.asof_at(conjuncts, at);
    assert forall|i: int| 0 <= i < conjuncts.len() implies is_across(
        filter,
        #[trigger] conjuncts[i],
    ) by {
        across_states_a_key(filter, left, right, conjuncts[i]);
        if i != at {
            assert(view.equality_key(conjuncts[i]) is Some);
        }
    }
    across_states_a_key(filter, left, right, conjuncts[at]);
    extraction_takes_every_conjunct(filter, left, right, found, at, at);
    assert(satisfied(
        condition,
        left_row(index_of(*condition.left)),
        right_row(index_of(*condition.right)),
    ) <==> meaning(conjuncts[at])) by {
        assert(is_across(filter, conjuncts[at]));
        assert(view.asof_key(conjuncts[at]) == Some(condition));
    }
    let place = |k: int|
        if k < at {
            k
        } else {
            k - 1
        };
    assert forall|i: int| 0 <= i < conjuncts.len() && i != at implies meaning(
        #[trigger] conjuncts[i],
    ) == (left_row(index_of(*on[place(i)].0)) == right_row(index_of(*on[place(i)].1))) && 0
        <= place(i) < on.len() by {
        assert(is_across(filter, conjuncts[i]));
        across_states_a_key(filter, left, right, conjuncts[i]);
        assert(view.equality_key(conjuncts[i]) is Some);
        assert(view.equality_key(conjuncts[at]) is None);
        equality_keys_in_order(view, conjuncts, at, i);
    }
    let keys_agree = forall|k: int|
        0 <= k < on.len() ==> left_row(index_of(*(#[trigger] on[k]).0)) == right_row(
            index_of(*on[k].1),
        );
    if all_hold(conjuncts, meaning) {
        assert(meaning(conjuncts[at]));
        assert forall|k: int| 0 <= k < on.len() implies left_row(index_of(*(#[trigger] on[k]).0))
            == right_row(index_of(*on[k].1)) by {
            let i = if k < at {
                k
            } else {
                k + 1
            };
            assert(on.len() == conjuncts.len() - 1);
            assert(place(i) == k);
            assert(meaning(conjuncts[i]));
        }
    }
    if keys_agree && meaning(conjuncts[at]) {
        assert forall|i: int| 0 <= i < conjuncts.len() implies meaning(#[trigger] conjuncts[i]) by {
            if i != at {
                assert(0 <= place(i) < on.len());
                assert(left_row(index_of(*on[place(i)].0)) == right_row(
                    index_of(*on[place(i)].1),
                ));
            }
        }
    }
}

/// A filter column is one of an input exactly where it says so, and is named as the input
/// names it.
pub proof fn filter_columns_are_input_columns(
    visitor: AsOfPredicateVisitor,
    expr: PhysicalExprRef,
    found: Option<(JoinSide, PhysicalExprRef)>,
)
    requires
        call_ensures(AsOfPredicateVisitor::filter_column, (&visitor, &expr), found),
    ensures
        found is Some <==> origin(*visitor.filter, *expr) is Some,
        found is Some ==> {
            let (side, index) = origin(*visitor.filter, *expr)->0;
            &&& (found->0).0 == side
            &&& *(found->0).1 == column_at(
                if side == JoinSide::Left {
                    *visitor.left
                } else {
                    *visitor.right
                },
                index,
            )
        },
{
}

/// An equality across the inputs gives a key, the left input's column first; no other
/// comparison does.
pub proof fn equalities_across_the_inputs_are_keys(
    visitor: AsOfPredicateVisitor,
    left: PhysicalExprRef,
    right: PhysicalExprRef,
    op: Operator,
    left_found: Option<(JoinSide, PhysicalExprRef)>,
    right_found: Option<(JoinSide, PhysicalExprRef)>,
    key: Option<(PhysicalExprRef, PhysicalExprRef)>,
)
    requires
        call_ensures(AsOfPredicateVisitor::filter_column, (&visitor, &left), left_found),
        call_ensures(AsOfPredicateVisitor::filter_column, (&visitor, &right), right_found),
        call_ensures(AsOfPredicateVisitor::extract_side_pair, (&visitor, &left, &right, op), key),
    ensures
        key is Some <==> op == Operator::Eq && left_found is Some && right_found is Some && (
        left_found->0).0 != (right_found->0).0,
        key is Some ==> key->0 == if (left_found->0).0 == JoinSide::Left {
            ((left_found->0).1, (right_found->0).1)
        } else {
            ((right_found->0).1, (left_found->0).1)
        },
{
}

/// An ordering comparison across the inputs gives their columns and an operator, the left
/// input's column first; it says of the columns what the comparison says, whichever
/// operand comes first.
pub proof fn comparisons_across_the_inputs_are_oriented(
    visitor: AsOfPredicateVisitor,
    left: PhysicalExprRef,
    right: PhysicalExprRef,
    op: Operator,
    left_found: Option<(JoinSide, PhysicalExprRef)>,
    right_found: Option<(JoinSide, PhysicalExprRef)>,
    found: Result<Option<(PhysicalExprRef, PhysicalExprRef, Operator)>, JoinError>,
    l: int,
    r: int,
)
    requires
        orders(op),
        call_ensures(AsOfPredicateVisitor::filter_column, (&visitor, &left), left_found),
        call_ensures(AsOfPredicateVisitor::filter_column, (&visitor, &right), right_found),
        call_ensures(
            AsOfPredicateVisitor::extract_inequality,
            (&visitor, &left, &right, op),
            found,
        ),
    ensures
        found is Ok,
        found->Ok_0 is Some <==> left_found is Some && right_found is Some && (left_found->0).0
            != (right_found->0).0,
        found->Ok_0 is Some ==> {
            let (a, b, operator) = found->Ok_0->0;
            if (left_found->0).0 == JoinSide::Left {
                &&& a == (left_found->0).1 && b == (right_found->0).1
                &&& compares(l, operator, r) <==> compares(l, op, r)
            } else {
                &&& a == (right_found->0).1 && b == (left_found->0).1
                &&& compares(r, operator, l) <==> compares(l, op, r)
            }
        },
{
}

/// The slots that a value has in some rows: those of a column, or the same in every row.
pub open spec fn is_value_of(column: Array, value: ColumnarValue, num_rows: nat) -> bool {
    &&& column@.len() == num_rows
    &&& forall|row: int|
        0 <= row < num_rows ==> #[trigger] column@[row] == match value {
            ColumnarValue::Array(values) => values@[row],
            ColumnarValue::Scalar(scalar) => scalar@,
        }
}

/// A scalar is the same in every row.
pub proof fn scalars_are_repeated(scalar: Scalar, len: usize, column: Array, row: int)
    requires
        call_ensures(array_of_size, (&scalar, len), column),
        0 <= row < len,
    ensures
        column@.len() == len,
        match (scalar, column) {
            (Scalar::Boolean(value), Array::Boolean(values)) => values@[row] == value,
            (Scalar::Int64(value), Array::Int64(values)) => values@[row] == value,
            (Scalar::UInt64(value), Array::UInt64(values)) => values@[row] == value,
            (Scalar::Utf8(Some(value)), Array::Utf8(values)) => values@[row] is Some
                && values@[row]->0@ == value@,
            (Scalar::Utf8(None), Array::Utf8(values)) => values@[row] is None,
            _ => false,
        },
{
    assert(column@[row] == scalar@);
}

/// A value that could be computed becomes a column of its slots, and one that could not is
/// reported.
pub proof fn computed_values_become_columns(
    value: Result<ColumnarValue, JoinError>,
    num_rows: usize,
    column: Result<Array, JoinError>,
)
    requires
        eval::has_rows(value, num_rows as nat),
        call_ensures(evaluate_expr, (value, num_rows), column),
    ensures
        value is Ok ==> column is Ok && is_value_of(column->Ok_0, value->Ok_0, num_rows as nat),
        value is Err ==> column == Err::<Array, JoinError>(value->Err_0),
{
}

/// A column of the input is read where it stands, a constant is itself, and nothing else
/// is computed.
pub proof fn columns_are_read_where_they_stand(
    expr: PhysicalExpr,
    batch: RecordBatch,
    value: Option<Result<ColumnarValue, JoinError>>,
)
    requires
        batch.wf(),
        call_ensures(evaluate, (&expr, &batch), value),
    ensures
        value is Some <==> expr is Column || expr is Literal,
        expr is Column && expr->Column_0.index < batch.columns@.len() ==> value->0 is Ok
            && is_value_of(
            batch.columns@[expr->Column_0.index as int],
            value->0->Ok_0,
            batch.num_rows as nat,
        ),
        expr is Column && expr->Column_0.index >= batch.columns@.len() ==> value->0 == Err::<
            ColumnarValue,
            JoinError,
        >(JoinError::UnknownColumn(expr->Column_0.index)),
        expr is Literal ==> value->0 is Ok && value->0->Ok_0 is Scalar
            && value->0->Ok_0->Scalar_0@ == expr->value@,
{
}

/// The expression of one side of an equality predicate.
pub open spec fn operand_of(
    on: Seq<(PhysicalExprRef, PhysicalExprRef)>,
    side: JoinSide,
    k: int,
) -> PhysicalExprRef {
    if side == JoinSide::Left {
        on[k].0
    } else {
        on[k].1
    }
}

/// The expression of one side of the inequality.
pub open spec fn asof_operand_of(condition: AsOfJoinCondition, side: JoinSide) -> PhysicalExprRef {
    if side == JoinSide::Left {
        condition.left
    } else {
        condition.right
    }
}

/// Of each equality predicate the operand of a side is evaluated, in order, and then that
/// of the inequality.
pub proof fn every_predicate_is_evaluated(
    on: Seq<(PhysicalExprRef, PhysicalExprRef)>,
    condition: AsOfJoinCondition,
    side: JoinSide,
    k: int,
)
    requires
        0 <= k < on.len(),
    ensures
        eval::side_exprs(on, condition, side).len() == on.len() + 1,
        eval::side_exprs(on, condition, side)[k] == operand_of(on, side, k),
        eval::side_exprs(on, condition, side).last() == asof_operand_of(condition, side),
{
}

/// Whether a column holds what an expression evaluates to.
pub open spec fn holds_evaluated<F>(
    column: Array,
    evaluate: F,
    expr: PhysicalExprRef,
    num_rows: nat,
) -> bool where F: Fn(PhysicalExprRef) -> Result<ColumnarValue, JoinError> {
    exists|value: ColumnarValue| #[trigger]
        call_ensures(evaluate, (expr,), Ok::<ColumnarValue, JoinError>(value)) && is_value_of(
            column,
            value,
            num_rows,
        )
}

/// Where the keys of a side can be evaluated, the k-th key column holds what the operand of
/// the k-th equality predicate evaluates to, and the as-of key what that of the inequality
/// does. Otherwise the failure of one of these operands is reported.
pub proof fn key_columns_hold_the_operands<F>(
    on: JoinOn,
    condition: AsOfJoinCondition,
    side: JoinSide,
    num_rows: usize,
    evaluate: F,
    keys: Result<KeyColumns, JoinError>,
) where F: Fn(PhysicalExprRef) -> Result<ColumnarValue, JoinError>
    requires
        call_ensures(evaluate_side::<F>, (&on, &condition, side, num_rows, &evaluate), keys),
    ensures
        keys is Ok ==> {
            &&& keys->Ok_0.on@.len() == on@.len()
            &&& forall|k: int|
                0 <= k < on@.len() ==> holds_evaluated(
                    #[trigger] keys->Ok_0.on@[k],
                    evaluate,
                    operand_of(on@, side, k),
                    num_rows as nat,
                )
            &&& holds_evaluated(
                keys->Ok_0.asof,
                evaluate,
                asof_operand_of(condition, side),
                num_rows as nat,
            )
        },
        keys is Err ==> call_ensures(
            evaluate,
            (asof_operand_of(condition, side),),
            Err::<ColumnarValue, JoinError>(keys->Err_0),
        ) || exists|k: int|
            0 <= k < on@.len() && #[trigger] call_ensures(
                evaluate,
                (operand_of(on@, side, k),),
                Err::<ColumnarValue, JoinError>(keys->Err_0),
            ),
{
    evaluated_operands(on, condition, side, num_rows, evaluate, keys);
}

/// What the evaluation of the key expressions of a side says of each operand.
proof fn evaluated_operands<F>(
    on: JoinOn,
    condition: AsOfJoinCondition,
    side: JoinSide,
    num_rows: usize,
    evaluate: F,
    keys: Result<KeyColumns, JoinError>,
) where F: Fn(PhysicalExprRef) -> Result<ColumnarValue, JoinError>
    requires
        eval::evaluates_to(
            eval::side_exprs(on@, condition, side),
            evaluate,
            num_rows as nat,
            keys,
        ),
    ensures
        keys is Ok ==> {
            &&& keys->Ok_0.on@.len() == on@.len()
            &&& forall|k: int|
                0 <= k < on@.len() ==> holds_evaluated(
                    #[trigger] keys->Ok_0.on@[k],
                    evaluate,
                    operand_of(on@, side, k),
                    num_rows as nat,
                )
            &&& holds_evaluated(
                keys->Ok_0.asof,
                evaluate,
                asof_operand_of(condition, side),
                num_rows as nat,
            )
        },
        keys is Err ==> call_ensures(
            evaluate,
            (asof_operand_of(condition, side),),
            Err::<ColumnarValue, JoinError>(keys->Err_0),
        ) || exists|k: int|
            0 <= k < on@.len() && #[trigger] call_ensures(
                evaluate,
                (operand_of(on@, side, k),),
                Err::<ColumnarValue, JoinError>(keys->Err_0),
            ),
{
    let exprs = eval::side_exprs(on@, condition, side);
    let n = on@.len() as int;
    let values = choose|values: Seq<Result<ColumnarValue, JoinError>>|
        {
            &&& 0 < #[trigger] values.len() <= exprs.len()
            &&& forall|k: int|
                0 <= k < values.len() ==> call_ensures(evaluate, (exprs[k],), #[trigger] values[k])
            &&& match keys {
                Err(error) => eval::first_failure(values, values.len() - 1) && values.last()
                    == Err::<ColumnarValue, JoinError>(error),
                Ok(keys) => {
                    &&& values.len() == exprs.len()
                    &&& keys.wf(num_rows as nat)
                    &&& keys.all().len() == exprs.len()
                    &&& forall|k: int|
                        0 <= k < exprs.len() ==> (#[trigger] values[k]) is Ok
                            && eval::holds_value(
                            keys.all()[k],
                            values[k]->Ok_0,
                            num_rows as nat,
                        )
                },
            }
        };
    assert(exprs[n] == asof_operand_of(condition, side));
    match keys {
        Ok(keys) => {
            assert forall|k: int| 0 <= k < on@.len() implies holds_evaluated(
                #[trigger] keys.on@[k],
                evaluate,
                operand_of(on@, side, k),
                num_rows as nat,
            ) by {
                assert(values[k] is Ok);
                assert(exprs[k] == operand_of(on@, side, k));
                let value = values[k]->Ok_0;
                assert(call_ensures(
                    evaluate,
                    (operand_of(on@, side, k),),
                    Ok::<ColumnarValue, JoinError>(value),
                ));
                assert(keys.all()[k] == keys.on@[k]);
            }
            assert(values[n] is Ok);
            assert(call_ensures(
                evaluate,
                (exprs[n],),
                Ok::<ColumnarValue, JoinError>(values[n]->Ok_0),
            ));
            assert(keys.all()[n] == keys.asof);
        },
        Err(error) => {
            let last = values.len() - 1;
            assert(values[last] == Err::<ColumnarValue, JoinError>(error));
            if last < n {
                assert(exprs[last] == operand_of(on@, side, last));
                assert(call_ensures(
                    evaluate,
                    (operand_of(on@, side, last),),
                    Err::<ColumnarValue, JoinError>(error),
                ));
            }
        },
    }
}

/// Key columns that are made of computed values hold these values, in order.
pub proof fn key_columns_hold_the_values(
    on: Vec<Result<ColumnarValue, JoinError>>,
    asof: Result<ColumnarValue, JoinError>,
    num_rows: usize,
    keys: Result<KeyColumns, JoinError>,
)
    requires
        forall|k: int| 0 <= k < on@.len() ==> eval::has_rows(#[trigger] on@[k], num_rows as nat),
        eval::has_rows(asof, num_rows as nat),
        call_ensures(evaluate_keys, (on, asof, num_rows), keys),
        asof is Ok,
        forall|k: int| 0 <= k < on@.len() ==> (#[trigger] on@[k]) is Ok,
    ensures
        keys is Ok,
        keys->Ok_0.on@.len() == on@.len(),
        forall|k: int|
            0 <= k < on@.len() ==> is_value_of(
                #[trigger] keys->Ok_0.on@[k],
                on@[k]->Ok_0,
                num_rows as nat,
            ),
        is_value_of(keys->Ok_0.asof, asof->Ok_0, num_rows as nat),
{
    assert forall|at: int| !#[trigger] eval::first_failure(on@.push(asof), at) by {
        if 0 <= at < on@.len() {
            assert(on@[at] is Ok);
        }
    }
}

/// The first value that could not be computed is reported.
pub proof fn the_first_failure_is_reported(
    on: Vec<Result<ColumnarValue, JoinError>>,
    asof: Result<ColumnarValue, JoinError>,
    num_rows: usize,
    keys: Result<KeyColumns, JoinError>,
    at: int,
)
    requires
        call_ensures(evaluate_keys, (on, asof, num_rows), keys),
        0 <= at <= on@.len(),
        forall|k: int| 0 <= k < at ==> (#[trigger] on@[k]) is Ok,
        at < on@.len() ==> on@[at] is Err,
        at == on@.len() ==> asof is Err,
    ensures
        keys == Err::<KeyColumns, JoinError>(
            if at < on@.len() {
                on@[at]->Err_0
            } else {
                asof->Err_0
            },
        ),
{
    assert(eval::first_failure(on@.push(asof), at)) by {
        assert forall|k: int| 0 <= k < at implies (#[trigger] on@.push(asof)[k]) is Ok by {
            assert(on@[k] is Ok);
        }
    }
}

/// An input that is collected for a task has the batches that were read, and the keys that
/// the operands of the task's own predicates evaluate to on its side.
pub proof fn collected_inputs_have_the_keys_of_the_task<F>(
    task: JoinTask,
    side: JoinSide,
    batches: Vec<RecordBatch>,
    evaluate: F,
    num_rows: usize,
    input: CollectedInput,
) where F: Fn(PhysicalExprRef) -> Result<ColumnarValue, JoinError>
    requires
        call_ensures(JoinTask::collect_input::<F>, (&task, side, batches, &evaluate), input),
        num_rows == crate::batch::total_rows(batches@),
    ensures
        input.batches == batches,
        input.keys is Ok ==> {
            &&& input.keys->Ok_0.on@.len() == task.on@.len()
            &&& forall|k: int|
                0 <= k < task.on@.len() ==> holds_evaluated(
                    #[trigger] input.keys->Ok_0.on@[k],
                    evaluate,
                    operand_of(task.on@, side, k),
                    num_rows as nat,
                )
            &&& holds_evaluated(
                input.keys->Ok_0.asof,
                evaluate,
                asof_operand_of(task.asof_condition, side),
                num_rows as nat,
            )
        },
{
    evaluated_operands(task.on, task.asof_condition, side, num_rows, evaluate, input.keys);
}

/// Where the keys of a side cannot be evaluated, the first operand that fails is reported,
/// the equality predicates coming before the inequality.
pub proof fn the_first_failing_operand_is_reported<F>(
    on: JoinOn,
    condition: AsOfJoinCondition,
    side: JoinSide,
    num_rows: usize,
    evaluate: F,
    error: JoinError,
) where F: Fn(PhysicalExprRef) -> Result<ColumnarValue, JoinError>
    requires
        call_ensures(
            evaluate_side::<F>,
            (&on, &condition, side, num_rows, &evaluate),
            Err::<KeyColumns, JoinError>(error),
        ),
    ensures
        exists|at: int|
            0 <= at <= on@.len() && #[trigger] fails_at(on@, condition, side, evaluate, at, error),
{
    let exprs = eval::side_exprs(on@, condition, side);
    let keys = Err::<KeyColumns, JoinError>(error);
    let values = choose|values: Seq<Result<ColumnarValue, JoinError>>|
        {
            &&& 0 < #[trigger] values.len() <= exprs.len()
            &&& forall|k: int|
                0 <= k < values.len() ==> call_ensures(evaluate, (exprs[k],), #[trigger] values[k])
            &&& match keys {
                Err(error) => eval::first_failure(values, values.len() - 1) && values.last()
                    == Err::<ColumnarValue, JoinError>(error),
                Ok(keys) => {
                    &&& values.len() == exprs.len()
                    &&& keys.wf(num_rows as nat)
                    &&& keys.all().len() == exprs.len()
                    &&& forall|k: int|
                        0 <= k < exprs.len() ==> (#[trigger] values[k]) is Ok
                            && eval::holds_value(
                            keys.all()[k],
                            values[k]->Ok_0,
                            num_rows as nat,
                        )
                },
            }
        };
    let at = values.len() - 1;
    assert(values[at] == Err::<ColumnarValue, JoinError>(error));
    assert forall|k: int| 0 <= k <= at implies #[trigger] operand(on@, condition, side, k)
        == exprs[k] by {}
    assert forall|k: int| 0 <= k < at implies can_be_evaluated(
        evaluate,
        #[trigger] operand(on@, condition, side, k),
    ) by {
        assert(values[k] is Ok);
        assert(call_ensures(
            evaluate,
            (operand(on@, condition, side, k),),
            Ok::<ColumnarValue, JoinError>(values[k]->Ok_0),
        ));
    }
    assert(operand(on@, condition, side, at) == exprs[at]);
    assert(fails_at(on@, condition, side, evaluate, at, error));
}

/// The operand of a side of a predicate, the inequality coming last.
pub open spec fn operand(
    on: Seq<(PhysicalExprRef, PhysicalExprRef)>,
    condition: AsOfJoinCondition,
    side: JoinSide,
    k: int,
) -> PhysicalExprRef {
    if k < on.len() {
        operand_of(on, side, k)
    } else {
        asof_operand_of(condition, side)
    }
}

/// Whether an expression can be evaluated.
pub open spec fn can_be_evaluated<F>(evaluate: F, expr: PhysicalExprRef) -> bool where
    F: Fn(PhysicalExprRef) -> Result<ColumnarValue, JoinError>,
 {
    exists|value: ColumnarValue| #[trigger]
        call_ensures(evaluate, (expr,), Ok::<ColumnarValue, JoinError>(value))
}

/// Whether the first operand of a side that fails is the given one.
pub open spec fn fails_at<F>(
    on: Seq<(PhysicalExprRef, PhysicalExprRef)>,
    condition: AsOfJoinCondition,
    side: JoinSide,
    evaluate: F,
    at: int,
    error: JoinError,
) -> bool where F: Fn(PhysicalExprRef) -> Result<ColumnarValue, JoinError> {
    &&& call_ensures(
        evaluate,
        (operand(on, condition, side, at),),
        Err::<ColumnarValue, JoinError>(error),
    )
    &&& forall|k: int|
        0 <= k < at ==> can_be_evaluated(evaluate, #[trigger] operand(on, condition, side, k))
}

/// Visiting some conjuncts and then others is visiting them one after the other.
pub proof fn visits_can_be_split(
    before: AsOfPredicateVisitor,
    between: AsOfPredicateVisitor,
    after: AsOfPredicateVisitor,
    first: Seq<PhysicalExpr>,
    second: Seq<PhysicalExpr>,
)
    requires
        between.has_visited(before, first),
        after.has_visited(between, second),
    ensures
        after.has_visited(before, first + second),
{
    let view = before.filter_view();
    view.stated_in_two(first, second);
    if view.inequalities(first) == 0 {
        view.no_inequality_no_asof(first);
    }
    assert(after.on@ =~= before.on@ + view.equality_keys(first + second));
}

/// Visiting a single conjunct: an equality across the inputs adds its key at the end. An
/// ordering comparison is counted; the first one gives the condition, where it is across the
/// inputs. Every other conjunct, and every further ordering comparison, is unsupported.
pub proof fn single_conjuncts_are_taken_or_unsupported(
    before: AsOfPredicateVisitor,
    after: AsOfPredicateVisitor,
    conjunct: PhysicalExprRef,
)
    requires
        !is_conjunction(*conjunct),
        after.has_visited(before, expr::conjuncts(*conjunct)),
    ensures
        ({
            let filter = *before.filter;
            let ordering = *conjunct is Binary && orders(conjunct->op);
            let equality = is_across(filter, *conjunct) && conjunct->op == Operator::Eq;
            let first = ordering && before.inequality_count == 0;
            let l = column_at(*before.left, position_in(filter, *conjunct, JoinSide::Left));
            let r = column_at(*before.right, position_in(filter, *conjunct, JoinSide::Right));
            &&& after.unsupported <==> before.unsupported || !(equality || (first && is_across(
                filter,
                *conjunct,
            )))
            &&& !equality ==> after.on@ == before.on@
            &&& equality ==> {
                &&& after.on@.len() == before.on@.len() + 1
                &&& before.on@.is_prefix_of(after.on@)
                &&& *after.on@.last().0 == l && *after.on@.last().1 == r
            }
            &&& !ordering ==> after.inequality_count == before.inequality_count
            &&& ordering && before.inequality_count < usize::MAX ==> after.inequality_count
                == before.inequality_count + 1
            &&& !(first && is_across(filter, *conjunct)) ==> after.asof_condition
                == before.asof_condition
            &&& first && is_across(filter, *conjunct) ==> after.asof_condition is Some
                && *after.asof_condition->0.left == l && *after.asof_condition->0.right == r
        }),
{
    let view = before.filter_view();
    view.stated_by_one(&conjunct);
    conjuncts_cannot_be_split_further(of(conjunct));
    across_states_a_key(*before.filter, *before.left, *before.right, of(conjunct));
}

} // verus!
