//! Finding the keys of an as-of join in the filter of another join.
use crate::asof;
use crate::batch::Schema;
use crate::condition;
use crate::condition::{flip_inequality, AsOfJoinCondition};
use crate::error::JoinError;
use crate::expr;
use crate::expr::{Column, JoinOn, Operator, PhysicalExpr, PhysicalExprRef};
use crate::join;
use crate::laws;
use crate::order::Value;
use crate::types::{ColumnIndex, JoinSide};
use std::sync::Arc;
use vstd::prelude::*;

verus! {

/// A predicate on pairs of rows. Its columns are positions in `column_indices`.
#[derive(Debug, PartialEq, Eq)]
pub struct JoinFilter {
    /// The predicate.
    pub expression: PhysicalExprRef,
    /// Where the columns of the predicate come from.
    pub column_indices: Vec<ColumnIndex>,
}

impl JoinFilter {
    /// The conjuncts of the predicate.
    pub open spec fn conjuncts(&self) -> Seq<PhysicalExpr> {
        expr::conjuncts(*self.expression)
    }
}

/// A filter between two inputs.
pub struct FilterView {
    /// Where the columns of the predicate come from.
    pub column_indices: Seq<ColumnIndex>,
    /// Columns of the left input.
    pub left: Schema,
    /// Columns of the right input.
    pub right: Schema,
}

impl FilterView {
    /// Whether the columns of the filter exist in the inputs.
    pub open spec fn wf(self) -> bool {
        join::columns_exist(
            self.left.fields@.len(),
            self.right.fields@.len(),
            self.column_indices,
        )
    }

    /// The input column that a filter expression refers to, and its side, where it
    /// refers to one.
    pub open spec fn input_column(self, expr: PhysicalExpr) -> Option<(JoinSide, PhysicalExprRef)> {
        match expr {
            PhysicalExpr::Column(column) => if column.index < self.column_indices.len() {
                let at = self.column_indices[column.index as int];
                let index = at.index;
                match at.side {
                    JoinSide::Left => Some(
                        (
                            JoinSide::Left,
                            Arc::new(
                                PhysicalExpr::Column(
                                    Column { name: self.left.fields@[index as int].name, index },
                                ),
                            ),
                        ),
                    ),
                    JoinSide::Right => Some(
                        (
                            JoinSide::Right,
                            Arc::new(
                                PhysicalExpr::Column(
                                    Column { name: self.right.fields@[index as int].name, index },
                                ),
                            ),
                        ),
                    ),
                    JoinSide::Neither => None,
                }
            } else {
                None
            },
            _ => None,
        }
    }

    /// The columns on both sides of a comparison, the left input's first, where it
    /// compares a column of each input; and whether they stand the other way round.
    pub open spec fn sides(self, expr: PhysicalExpr) -> Option<
        (PhysicalExprRef, PhysicalExprRef, bool),
    > {
        match expr {
            PhysicalExpr::Binary { left, right, .. } => match (
                self.input_column(*left),
                self.input_column(*right),
            ) {
                (Some((JoinSide::Left, a)), Some((JoinSide::Right, b))) => Some((a, b, false)),
                (Some((JoinSide::Right, a)), Some((JoinSide::Left, b))) => Some((b, a, true)),
                _ => None,
            },
            _ => None,
        }
    }

    /// The equality key that a conjunct states, if it states one.
    pub open spec fn equality_key(self, conjunct: PhysicalExpr) -> Option<
        (PhysicalExprRef, PhysicalExprRef),
    > {
        match (operator(conjunct), self.sides(conjunct)) {
            (Some(Operator::Eq), Some((left, right, _))) => Some((left, right)),
            _ => None,
        }
    }

    /// The columns that a comparison of two expressions compares and the operator between
    /// them, the left input's column first, where it compares a column of each input.
    pub open spec fn inequality(
        self,
        left: PhysicalExpr,
        right: PhysicalExpr,
        op: Operator,
    ) -> Option<(PhysicalExprRef, PhysicalExprRef, Operator)> {
        match (self.input_column(left), self.input_column(right)) {
            (Some((JoinSide::Left, a)), Some((JoinSide::Right, b))) => Some((a, b, op)),
            (Some((JoinSide::Right, a)), Some((JoinSide::Left, b))) => Some(
                (b, a, condition::flipped(op)),
            ),
            _ => None,
        }
    }

    /// Whether the expressions are a column of the right input and one of the left, in
    /// this order.
    pub open spec fn exchanged(self, left: PhysicalExpr, right: PhysicalExpr) -> bool {
        &&& self.input_column(left) is Some
        &&& self.input_column(right) is Some
        &&& (self.input_column(left)->0).0 == JoinSide::Right
        &&& (self.input_column(right)->0).0 == JoinSide::Left
    }

    /// The as-of condition that a conjunct states, if it states one.
    pub open spec fn asof_key(self, conjunct: PhysicalExpr) -> Option<AsOfJoinCondition> {
        match (operator(conjunct), self.sides(conjunct)) {
            (Some(op), Some((left, right, exchanged))) => if expr::is_inequality(op) {
                let op = if exchanged {
                    condition::flipped(op)
                } else {
                    op
                };
                Some(
                    AsOfJoinCondition {
                        left,
                        right,
                        direction: condition::direction_of(op),
                        strict: condition::is_strict(op),
                    },
                )
            } else {
                None
            },
            _ => None,
        }
    }

    /// Whether the conjunct at a position states the as-of condition and every other
    /// one an equality key.
    pub open spec fn asof_at(self, conjuncts: Seq<PhysicalExpr>, at: int) -> bool {
        &&& 0 <= at < conjuncts.len()
        &&& self.asof_key(conjuncts[at]) is Some
        &&& forall|k: int|
            0 <= k < conjuncts.len() && k != at ==> self.equality_key(
                #[trigger] conjuncts[k],
            ) is Some
    }

    /// The equality keys that some conjuncts state, in order.
    pub open spec fn equality_keys(self, conjuncts: Seq<PhysicalExpr>) -> Seq<
        (PhysicalExprRef, PhysicalExprRef),
    >
        decreases conjuncts.len(),
    {
        if conjuncts.len() == 0 {
            Seq::empty()
        } else {
            let before = self.equality_keys(conjuncts.drop_last());
            match self.equality_key(conjuncts.last()) {
                Some(key) => before.push(key),
                None => before,
            }
        }
    }

    /// How many conjuncts are inequalities.
    pub open spec fn inequalities(self, conjuncts: Seq<PhysicalExpr>) -> nat
        decreases conjuncts.len(),
    {
        if conjuncts.len() == 0 {
            0
        } else {
            self.inequalities(conjuncts.drop_last()) + if states_inequality(conjuncts.last()) {
                1nat
            } else {
                0nat
            }
        }
    }

    /// The as-of condition of the first inequality among some conjuncts.
    pub open spec fn first_asof(self, conjuncts: Seq<PhysicalExpr>) -> Option<AsOfJoinCondition>
        decreases conjuncts.len(),
    {
        if conjuncts.len() == 0 {
            None
        } else if self.inequalities(conjuncts.drop_last()) > 0 {
            self.first_asof(conjuncts.drop_last())
        } else {
            self.asof_key(conjuncts.last())
        }
    }

    /// Whether every conjunct states a key.
    pub open spec fn all_keys(self, conjuncts: Seq<PhysicalExpr>) -> bool
        decreases conjuncts.len(),
    {
        conjuncts.len() == 0 || (self.all_keys(conjuncts.drop_last()) && (self.equality_key(
            conjuncts.last(),
        ) is Some || self.asof_key(conjuncts.last()) is Some))
    }

    /// Only inequalities state an as-of condition, and they state no equality key.
    pub proof fn key_kinds(self, conjunct: PhysicalExpr)
        ensures
            self.asof_key(conjunct) is Some ==> states_inequality(conjunct),
            states_inequality(conjunct) ==> self.equality_key(conjunct) is None,
    {
    }

    /// Conjuncts without an inequality that all state a key state equality keys.
    proof fn without_inequality(self, conjuncts: Seq<PhysicalExpr>)
        requires
            self.inequalities(conjuncts) == 0,
            self.all_keys(conjuncts),
        ensures
            forall|k: int|
                0 <= k < conjuncts.len() ==> self.equality_key(#[trigger] conjuncts[k]) is Some,
            self.first_asof(conjuncts) is None,
        decreases conjuncts.len(),
    {
        if conjuncts.len() > 0 {
            self.key_kinds(conjuncts.last());
            self.without_inequality(conjuncts.drop_last());
            assert forall|k: int| 0 <= k < conjuncts.len() implies self.equality_key(
                #[trigger] conjuncts[k],
            ) is Some by {
                if k < conjuncts.len() - 1 {
                    assert(conjuncts.drop_last()[k] == conjuncts[k]);
                }
            }
        }
    }

    /// Conjuncts that all state a key, exactly one of them an inequality, are as an
    /// as-of join needs them.
    proof fn with_one_inequality(self, conjuncts: Seq<PhysicalExpr>) -> (at: int)
        requires
            self.inequalities(conjuncts) == 1,
            self.all_keys(conjuncts),
        ensures
            self.asof_at(conjuncts, at),
            self.first_asof(conjuncts) == self.asof_key(conjuncts[at]),
        decreases conjuncts.len(),
    {
        let n = conjuncts.len() - 1;
        let before = conjuncts.drop_last();
        self.key_kinds(conjuncts.last());
        if states_inequality(conjuncts.last()) {
            self.without_inequality(before);
            assert forall|k: int| 0 <= k < conjuncts.len() && k != n implies self.equality_key(
                #[trigger] conjuncts[k],
            ) is Some by {
                assert(before[k] == conjuncts[k]);
            }
            n
        } else {
            let at = self.with_one_inequality(before);
            assert forall|k: int| 0 <= k < conjuncts.len() && k != at implies self.equality_key(
                #[trigger] conjuncts[k],
            ) is Some by {
                if k < n {
                    assert(before[k] == conjuncts[k]);
                }
            }
            at
        }
    }

    /// Conjuncts as an as-of join needs them all state a key, exactly one of them an
    /// inequality.
    proof fn one_inequality(self, conjuncts: Seq<PhysicalExpr>, at: int)
        requires
            self.asof_at(conjuncts, at),
        ensures
            self.inequalities(conjuncts) == 1,
            self.all_keys(conjuncts),
            self.first_asof(conjuncts) == self.asof_key(conjuncts[at]),
        decreases conjuncts.len(),
    {
        let n = conjuncts.len() - 1;
        let before = conjuncts.drop_last();
        self.key_kinds(conjuncts.last());
        if at == n {
            self.no_inequality(before);
        } else {
            assert(self.asof_at(before, at)) by {
                assert forall|k: int| 0 <= k < before.len() && k != at implies self.equality_key(
                    #[trigger] before[k],
                ) is Some by {
                    assert(before[k] == conjuncts[k]);
                }
            }
            self.one_inequality(before, at);
            assert(conjuncts.last() == conjuncts[n]);
        }
    }

    /// What some conjuncts state, followed by others, is what the ones state and what the
    /// others do.
    pub proof fn stated_in_two(self, a: Seq<PhysicalExpr>, b: Seq<PhysicalExpr>)
        ensures
            self.equality_keys(a + b) == self.equality_keys(a) + self.equality_keys(b),
            self.inequalities(a + b) == self.inequalities(a) + self.inequalities(b),
            self.all_keys(a + b) == (self.all_keys(a) && self.all_keys(b)),
            self.first_asof(a + b) == if self.inequalities(a) > 0 {
                self.first_asof(a)
            } else {
                self.first_asof(b)
            },
        decreases b.len(),
    {
        if b.len() == 0 {
            assert(a + b =~= a);
            assert(self.equality_keys(a) =~= self.equality_keys(a) + self.equality_keys(b));
            if self.inequalities(a) == 0 {
                self.no_inequality_no_asof(a);
            }
        } else {
            self.stated_in_two(a, b.drop_last());
            assert((a + b).drop_last() =~= a + b.drop_last());
            assert((a + b).last() == b.last());
            assert(self.equality_keys(a + b) =~= self.equality_keys(a) + self.equality_keys(b));
        }
    }

    /// Conjuncts without an inequality state no as-of condition.
    pub proof fn no_inequality_no_asof(self, conjuncts: Seq<PhysicalExpr>)
        requires
            self.inequalities(conjuncts) == 0,
        ensures
            self.first_asof(conjuncts) is None,
        decreases conjuncts.len(),
    {
        if conjuncts.len() > 0 {
            self.key_kinds(conjuncts.last());
        }
    }

    /// What a single conjunct states.
    pub proof fn stated_by_one(self, shared: &PhysicalExprRef)
        ensures
            self.equality_keys(seq![**shared]) == match self.equality_key(**shared) {
                Some(key) => seq![key],
                None => Seq::empty(),
            },
            self.inequalities(seq![**shared]) == if states_inequality(**shared) {
                1nat
            } else {
                0nat
            },
            self.all_keys(seq![**shared]) == (self.equality_key(**shared) is Some
                || self.asof_key(**shared) is Some),
            self.first_asof(seq![**shared]) == self.asof_key(**shared),
            self.asof_key(**shared) is Some ==> states_inequality(**shared),
            states_inequality(**shared) ==> self.equality_key(**shared) is None,
    {
        let conjunct = **shared;
        self.key_kinds(conjunct);
        let one = seq![conjunct];
        assert(one.drop_last() =~= Seq::empty());
        assert(one.last() == conjunct);
        reveal_with_fuel(FilterView::equality_keys, 2);
        reveal_with_fuel(FilterView::inequalities, 2);
        reveal_with_fuel(FilterView::all_keys, 2);
        reveal_with_fuel(FilterView::first_asof, 2);
        assert(self.equality_keys(one) =~= match self.equality_key(conjunct) {
            Some(key) => seq![key],
            None => Seq::empty(),
        });
    }

    /// What the conjuncts of a conjunction state.
    proof fn stated_by_both(self, left: &PhysicalExprRef, right: &PhysicalExprRef)
        ensures
            ({
                let a = expr::conjuncts(**left);
                let b = expr::conjuncts(**right);
                &&& self.equality_keys(a + b) == self.equality_keys(a) + self.equality_keys(b)
                &&& self.inequalities(a + b) == self.inequalities(a) + self.inequalities(b)
                &&& self.all_keys(a + b) == (self.all_keys(a) && self.all_keys(b))
                &&& self.first_asof(a + b) == if self.inequalities(a) > 0 {
                    self.first_asof(a)
                } else {
                    self.first_asof(b)
                }
                &&& self.inequalities(a) == 0 ==> self.first_asof(a) is None
            }),
    {
        let a = conjuncts_of(left);
        self.stated_in_two(a, conjuncts_of(right));
        if self.inequalities(a) == 0 {
            self.no_inequality_no_asof(a);
        }
    }

    /// Conjuncts that all state equality keys hold no inequality.
    proof fn no_inequality(self, conjuncts: Seq<PhysicalExpr>)
        requires
            forall|k: int|
                0 <= k < conjuncts.len() ==> self.equality_key(#[trigger] conjuncts[k]) is Some,
        ensures
            self.inequalities(conjuncts) == 0,
            self.all_keys(conjuncts),
        decreases conjuncts.len(),
    {
        if conjuncts.len() > 0 {
            let before = conjuncts.drop_last();
            self.key_kinds(conjuncts.last());
            assert forall|k: int| 0 <= k < before.len() implies self.equality_key(
                #[trigger] before[k],
            ) is Some by {
                assert(before[k] == conjuncts[k]);
            }
            self.no_inequality(before);
            assert(conjuncts.last() == conjuncts[conjuncts.len() - 1]);
        }
    }
}

/// The conjuncts of a shared predicate.
spec fn conjuncts_of(shared: &PhysicalExprRef) -> Seq<PhysicalExpr> {
    expr::conjuncts(**shared)
}

/// The operator of a binary expression.
pub open spec fn operator(expr: PhysicalExpr) -> Option<Operator> {
    match expr {
        PhysicalExpr::Binary { op, .. } => Some(op),
        _ => None,
    }
}

/// Whether an expression is an inequality.
pub open spec fn states_inequality(expr: PhysicalExpr) -> bool {
    operator(expr) is Some && expr::is_inequality(operator(expr)->0)
}

/// Collects the keys that the conjuncts of a filter state.
#[derive(Debug)]
pub struct AsOfPredicateVisitor<'a> {
    /// The filter.
    pub filter: &'a JoinFilter,
    /// Columns of the left input.
    pub left: &'a Schema,
    /// Columns of the right input.
    pub right: &'a Schema,
    /// The equality keys found.
    pub on: JoinOn,
    /// What the first inequality states.
    pub asof_condition: Option<AsOfJoinCondition>,
    /// How many inequalities were found.
    pub inequality_count: usize,
    /// Whether a conjunct was found that no as-of join can evaluate.
    pub unsupported: bool,
}

impl<'a> AsOfPredicateVisitor<'a> {
    /// The filter between its inputs.
    pub open spec fn filter_view(&self) -> FilterView {
        FilterView {
            column_indices: self.filter.column_indices@,
            left: *self.left,
            right: *self.right,
        }
    }

    /// Whether this is what a visitor becomes when it visits the given conjuncts: the
    /// equality keys are added at the end, the inequalities are counted, the first
    /// inequality of all gives the as-of condition, and a conjunct that states no key, or
    /// a second inequality, is marked for good.
    pub open spec fn has_visited(
        &self,
        before: AsOfPredicateVisitor,
        conjuncts: Seq<PhysicalExpr>,
    ) -> bool {
        let view = before.filter_view();
        let count = view.inequalities(conjuncts);
        &&& self.filter == before.filter
        &&& self.left == before.left
        &&& self.right == before.right
        &&& self.on@ == before.on@ + view.equality_keys(conjuncts)
        &&& self.inequality_count == if before.inequality_count + count <= usize::MAX {
            before.inequality_count + count
        } else {
            usize::MAX as int
        }
        &&& self.asof_condition == if before.inequality_count == 0 && view.first_asof(
            conjuncts,
        ) is Some {
            view.first_asof(conjuncts)
        } else {
            before.asof_condition
        }
        &&& self.unsupported == (before.unsupported || !view.all_keys(conjuncts) || (count > 0
            && before.inequality_count + count > 1))
    }

    /// Visits the conjuncts of an expression.
    pub fn visit(&mut self, expr: &PhysicalExprRef)
        requires
            old(self).filter_view().wf(),
        ensures
            final(self).has_visited(*old(self), expr::conjuncts(**expr)),
        decreases **expr,
    {
        let ghost view = self.filter_view();
        let ghost before = *self;
        proof {
            view.stated_by_one(expr);
        }
        let (left, op, right) = match &**expr {
            PhysicalExpr::Binary { left, op, right, .. } => (left, *op, right),
            _ => {
                self.unsupported = true;
                assert(self.on@ =~= before.on@ + view.equality_keys(seq![**expr]));
                return ;
            },
        };
        match op {
            Operator::And => {
                self.visit(left);
                self.visit(right);
                proof {
                    view.stated_by_both(left, right);
                    assert(expr::conjuncts(**expr) == expr::conjuncts(**left) + expr::conjuncts(
                        **right,
                    ));
                    assert(self.on@ =~= before.on@ + view.equality_keys(
                        expr::conjuncts(**expr),
                    ));
                }
            },
            Operator::Eq => {
                match self.extract_side_pair(left, right, op) {
                    Some(pair) => self.on.push(pair),
                    None => {
                        self.unsupported = true;
                    },
                }
                assert(self.on@ =~= before.on@ + view.equality_keys(seq![**expr]));
            },
            Operator::Lt | Operator::LtEq | Operator::Gt | Operator::GtEq => {
                assert(self.on@ =~= before.on@ + view.equality_keys(seq![**expr]));
                if self.inequality_count < usize::MAX {
                    self.inequality_count = self.inequality_count + 1;
                }
                if self.inequality_count > 1 {
                    self.unsupported = true;
                    return ;
                }
                match self.extract_inequality(left, right, op) {
                    Ok(Some((left, right, op))) => match AsOfJoinCondition::try_new(
                        left,
                        op,
                        right,
                    ) {
                        Ok(condition) => {
                            self.asof_condition = Some(condition);
                        },
                        Err(_) => {
                            self.unsupported = true;
                        },
                    },
                    _ => {
                        self.unsupported = true;
                    },
                }
            },
            _ => {
                self.unsupported = true;
                assert(self.on@ =~= before.on@ + view.equality_keys(seq![**expr]));
            },
        }
    }

    /// Returns the columns of an equality, the left input's first, where it compares
    /// a column of each input.
    pub fn extract_side_pair(
        &self,
        left_expr: &PhysicalExprRef,
        right_expr: &PhysicalExprRef,
        op: Operator,
    ) -> (result: Option<(PhysicalExprRef, PhysicalExprRef)>)
        requires
            self.filter_view().wf(),
        ensures
            result == match (
                op,
                self.filter_view().input_column(**left_expr),
                self.filter_view().input_column(**right_expr),
            ) {
                (
                    Operator::Eq,
                    Some((JoinSide::Left, a)),
                    Some((JoinSide::Right, b)),
                ) => Some((a, b)),
                (
                    Operator::Eq,
                    Some((JoinSide::Right, a)),
                    Some((JoinSide::Left, b)),
                ) => Some((b, a)),
                _ => None,
            },
    {
        let (left_side, left_column) = match self.filter_column(left_expr) {
            Some(found) => found,
            None => return None,
        };
        let (right_side, right_column) = match self.filter_column(right_expr) {
            Some(found) => found,
            None => return None,
        };
        match (left_side, right_side, op) {
            (JoinSide::Left, JoinSide::Right, Operator::Eq) => Some((left_column, right_column)),
            (JoinSide::Right, JoinSide::Left, Operator::Eq) => Some((right_column, left_column)),
            _ => None,
        }
    }

    /// Returns the columns that an inequality compares and the operator between them, the
    /// left input's column first, where it compares a column of each input.
    pub fn extract_inequality(
        &self,
        left_expr: &PhysicalExprRef,
        right_expr: &PhysicalExprRef,
        op: Operator,
    ) -> (result: Result<Option<(PhysicalExprRef, PhysicalExprRef, Operator)>, JoinError>)
        requires
            self.filter_view().wf(),
        ensures
            result == if self.filter_view().exchanged(**left_expr, **right_expr)
                && !expr::is_inequality(op) {
                Err(JoinError::CannotFlip(op))
            } else {
                Ok(self.filter_view().inequality(**left_expr, **right_expr, op))
            },
    {
        let (left_side, left_column) = match self.filter_column(left_expr) {
            Some(found) => found,
            None => return Ok(None),
        };
        let (right_side, right_column) = match self.filter_column(right_expr) {
            Some(found) => found,
            None => return Ok(None),
        };
        match (left_side, right_side) {
            (JoinSide::Left, JoinSide::Right) => Ok(Some((left_column, right_column, op))),
            (JoinSide::Right, JoinSide::Left) => match flip_inequality(op) {
                Ok(op) => Ok(Some((right_column, left_column, op))),
                Err(error) => Err(error),
            },
            _ => Ok(None),
        }
    }

    /// Returns the input column that a filter expression refers to, and its side.
    pub fn filter_column(&self, expr: &PhysicalExprRef) -> (result: Option<
        (JoinSide, PhysicalExprRef),
    >)
        requires
            self.filter_view().wf(),
        ensures
            result == self.filter_view().input_column(**expr),
    {
        let column = match &**expr {
            PhysicalExpr::Column(column) => column,
            _ => return None,
        };
        if column.index >= self.filter.column_indices.len() {
            return None;
        }
        let at = self.filter.column_indices[column.index];
        assert(self.filter_view().column_indices[column.index as int] == at);
        let (schema, side) = match at.side {
            JoinSide::Left => (self.left, JoinSide::Left),
            JoinSide::Right => (self.right, JoinSide::Right),
            JoinSide::Neither => return None,
        };
        let name = schema.fields[at.index].name.clone();
        Some((side, Arc::new(PhysicalExpr::Column(Column { name, index: at.index }))))
    }
}

/// Finds the keys of an as-of join in a filter: exactly one conjunct is an inequality
/// between a column of each input, and every other one an equality between a column
/// of each input.
pub fn extract_asof_join_predicates(filter: &JoinFilter, left: &Schema, right: &Schema) -> (result:
    Option<(JoinOn, AsOfJoinCondition)>)
    requires
        join::columns_exist(
            left.fields@.len(),
            right.fields@.len(),
            filter.column_indices@,
        ),
    ensures
        ({
            let view = FilterView {
                column_indices: filter.column_indices@,
                left: *left,
                right: *right,
            };
            let conjuncts = filter.conjuncts();
            &&& result is Some <==> exists|at: int| #[trigger] view.asof_at(conjuncts, at)
            &&& result is Some ==> {
                &&& (result->0).0@ == view.equality_keys(conjuncts)
                &&& forall|at: int| #[trigger]
                    view.asof_at(conjuncts, at) ==> view.asof_key(conjuncts[at]) == Some(
                        (result->0).1,
                    )
            }
        }),
{
    let mut visitor = AsOfPredicateVisitor {
        filter,
        left,
        right,
        on: Vec::new(),
        asof_condition: None,
        inequality_count: 0,
        unsupported: false,
    };
    let ghost view = FilterView { column_indices: filter.column_indices@, left: *left, right: *right };
    let ghost conjuncts = filter.conjuncts();
    visitor.visit(&filter.expression);
    proof {
        assert(visitor.on@ =~= view.equality_keys(conjuncts));
        if view.inequalities(conjuncts) == 1 && view.all_keys(conjuncts) {
            let at = view.with_one_inequality(conjuncts);
            assert(view.asof_at(conjuncts, at));
        }
        assert forall|at: int| #[trigger] view.asof_at(conjuncts, at) implies view.inequalities(
            conjuncts,
        ) == 1 && view.all_keys(conjuncts) && view.first_asof(conjuncts) == view.asof_key(
            conjuncts[at],
        ) by {
            view.one_inequality(conjuncts, at);
        }
    }
    if visitor.unsupported || visitor.inequality_count != 1 {
        return None;
    }
    match visitor.asof_condition {
        Some(asof_condition) => Some((visitor.on, asof_condition)),
        None => None,
    }
}

/// The value of a column, given the values of a row by position.
pub open spec fn column_value(expr: PhysicalExpr, row: spec_fn(usize) -> Value) -> Value {
    match expr {
        PhysicalExpr::Column(column) => row(column.index),
        _ => arbitrary(),
    }
}

impl FilterView {
    /// The value of a column of the filter, given a row of each input.
    pub open spec fn filter_value(
        self,
        expr: PhysicalExpr,
        left_row: spec_fn(usize) -> Value,
        right_row: spec_fn(usize) -> Value,
    ) -> Value {
        match expr {
            PhysicalExpr::Column(column) => {
                let at = self.column_indices[column.index as int];
                if at.side == JoinSide::Left {
                    left_row(at.index)
                } else {
                    right_row(at.index)
                }
            },
            _ => arbitrary(),
        }
    }

    /// Whether a comparison of two columns of the filter holds of a row of each
    /// input.
    pub open spec fn comparison_holds(
        self,
        conjunct: PhysicalExpr,
        left_row: spec_fn(usize) -> Value,
        right_row: spec_fn(usize) -> Value,
    ) -> bool {
        match conjunct {
            PhysicalExpr::Binary { left, op, right, .. } => {
                let a = self.filter_value(*left, left_row, right_row);
                let b = self.filter_value(*right, left_row, right_row);
                if op == Operator::Eq {
                    a == b
                } else {
                    laws::holds(a, op, b)
                }
            },
            _ => false,
        }
    }

    /// Whether some equality keys are equal in a row of each input.
    pub open spec fn keys_equal(
        self,
        keys: Seq<(PhysicalExprRef, PhysicalExprRef)>,
        left_row: spec_fn(usize) -> Value,
        right_row: spec_fn(usize) -> Value,
    ) -> bool {
        forall|k: int|
            0 <= k < keys.len() ==> column_value(*(#[trigger] keys[k]).0, left_row)
                == column_value(*keys[k].1, right_row)
    }

    /// The equality keys of the conjuncts other than `at` are equal exactly where those
    /// conjuncts hold.
    proof fn keys_equal_where_conjuncts_hold(
        self,
        conjuncts: Seq<PhysicalExpr>,
        at: int,
        left_row: spec_fn(usize) -> Value,
        right_row: spec_fn(usize) -> Value,
    )
        requires
            forall|k: int|
                0 <= k < conjuncts.len() && k != at ==> self.equality_key(
                    #[trigger] conjuncts[k],
                ) is Some,
            0 <= at < conjuncts.len() ==> self.equality_key(conjuncts[at]) is None,
        ensures
            self.keys_equal(self.equality_keys(conjuncts), left_row, right_row) <==> (forall|
                k: int,
            |
                0 <= k < conjuncts.len() && k != at ==> self.comparison_holds(
                    #[trigger] conjuncts[k],
                    left_row,
                    right_row,
                )),
        decreases conjuncts.len(),
    {
        if conjuncts.len() > 0 {
            let n = conjuncts.len() - 1;
            let before = conjuncts.drop_last();
            assert forall|k: int| 0 <= k < before.len() && k != at implies self.equality_key(
                #[trigger] before[k],
            ) is Some by {
                assert(before[k] == conjuncts[k]);
            }
            self.keys_equal_where_conjuncts_hold(before, at, left_row, right_row);
            let keys = self.equality_keys(conjuncts);
            let keys_before = self.equality_keys(before);
            let last = conjuncts[n];
            assert(conjuncts.last() == last);
            let rest_hold = forall|k: int|
                0 <= k < before.len() && k != at ==> self.comparison_holds(
                    #[trigger] before[k],
                    left_row,
                    right_row,
                );
            let all_hold = forall|k: int|
                0 <= k < conjuncts.len() && k != at ==> self.comparison_holds(
                    #[trigger] conjuncts[k],
                    left_row,
                    right_row,
                );
            assert(all_hold <==> rest_hold && (n == at || self.comparison_holds(
                last,
                left_row,
                right_row,
            ))) by {
                assert forall|k: int| 0 <= k < before.len() implies before[k]
                    == #[trigger] conjuncts[k] by {}
                if all_hold {
                    assert forall|k: int|
                        0 <= k < before.len() && k != at implies self.comparison_holds(
                        #[trigger] before[k],
                        left_row,
                        right_row,
                    ) by {
                        assert(before[k] == conjuncts[k]);
                    }
                }
            }
            if n != at {
                assert(self.equality_key(last) is Some);
                let key = self.equality_key(last)->0;
                assert(keys == keys_before.push(key));
                assert(self.comparison_holds(last, left_row, right_row) <==> column_value(
                    *key.0,
                    left_row,
                ) == column_value(*key.1, right_row));
                assert(self.keys_equal(keys, left_row, right_row) <==> self.keys_equal(
                    keys_before,
                    left_row,
                    right_row,
                ) && self.comparison_holds(last, left_row, right_row)) by {
                    assert(keys[keys_before.len() as int] == key);
                    if self.keys_equal(keys, left_row, right_row) {
                        assert forall|k: int| 0 <= k < keys_before.len() implies column_value(
                            *(#[trigger] keys_before[k]).0,
                            left_row,
                        ) == column_value(*keys_before[k].1, right_row) by {
                            assert(keys[k] == keys_before[k]);
                        }
                    }
                }
            } else {
                assert(keys == keys_before);
            }
        }
    }
}

/// What is extracted from a filter means what the filter means: of rows without nulls,
/// all conjuncts of the filter hold exactly where the extracted equality keys are
/// equal and the extracted as-of condition is satisfied.
pub proof fn extracted_keys_mean_the_filter(
    view: FilterView,
    conjuncts: Seq<PhysicalExpr>,
    at: int,
    left_row: spec_fn(usize) -> Value,
    right_row: spec_fn(usize) -> Value,
)
    requires
        view.asof_at(conjuncts, at),
    ensures
        ({
            let condition = view.asof_key(conjuncts[at])->0;
            (forall|k: int|
                0 <= k < conjuncts.len() ==> view.comparison_holds(
                    #[trigger] conjuncts[k],
                    left_row,
                    right_row,
                )) <==> view.keys_equal(view.equality_keys(conjuncts), left_row, right_row)
                && asof::satisfies(
                Some(column_value(*condition.left, left_row)),
                Some(column_value(*condition.right, right_row)),
                condition.direction,
                condition.strict,
            )
        }),
{
    view.key_kinds(conjuncts[at]);
    view.keys_equal_where_conjuncts_hold(conjuncts, at, left_row, right_row);
    let condition = view.asof_key(conjuncts[at])->0;
    assert(view.comparison_holds(conjuncts[at], left_row, right_row) <==> asof::satisfies(
        Some(column_value(*condition.left, left_row)),
        Some(column_value(*condition.right, right_row)),
        condition.direction,
        condition.strict,
    ));
}

/// Which side of a comparison a column stands on does not matter: exchanging the
/// operands of an equality, or those of an inequality along with flipping it, changes
/// nothing in what is extracted.
pub proof fn operand_order_does_not_matter(
    view: FilterView,
    left: PhysicalExprRef,
    op: Operator,
    right: PhysicalExprRef,
    sql: String,
    exchanged_sql: String,
)
    requires
        op == Operator::Eq || expr::is_inequality(op),
    ensures
        ({
            let comparison = PhysicalExpr::Binary { left, op, right, sql };
            let exchanged = PhysicalExpr::Binary {
                left: right,
                op: condition::flipped(op),
                right: left,
                sql: exchanged_sql,
            };
            &&& view.equality_key(exchanged) == view.equality_key(comparison)
            &&& view.asof_key(exchanged) == view.asof_key(comparison)
        }),
{
}

/// What an inequality states does not depend on which operand comes first: exchanging
/// the operands along with flipping the operator gives the same columns and the same
/// operator, a column of the left input first and one of the right input second. Operands
/// of one input, or that are no columns, give nothing.
pub proof fn inequality_is_normalized(
    view: FilterView,
    left: PhysicalExpr,
    right: PhysicalExpr,
    op: Operator,
)
    requires
        expr::is_inequality(op),
    ensures
        view.inequality(left, right, op) == view.inequality(right, left, condition::flipped(op)),
        view.inequality(left, right, op) is Some ==> {
            let (l, r, found) = view.inequality(left, right, op)->0;
            &&& expr::is_inequality(found)
            &&& (view.input_column(left) == Some((JoinSide::Left, l)) && view.input_column(right)
                == Some((JoinSide::Right, r)) && found == op) || (view.input_column(right) == Some(
                (JoinSide::Left, l),
            ) && view.input_column(left) == Some((JoinSide::Right, r)) && found
                == condition::flipped(op))
        },
        view.input_column(left) is None || view.input_column(right) is None ==> view.inequality(
            left,
            right,
            op,
        ) is None,
        view.input_column(left) is Some && view.input_column(right) is Some && (
        view.input_column(left)->0).0 == (view.input_column(right)->0).0 ==> view.inequality(
            left,
            right,
            op,
        ) is None,
        !(left is Column) || !(right is Column) ==> view.inequality(left, right, op) is None,
{
}

/// Whatever a visitor has seen, visiting more takes nothing back: what is unsupported
/// stays so, the equality keys found stay where they are, and the number of inequalities
/// does not fall. Once an inequality was seen, the as-of condition stays as it is, and one
/// more inequality is unsupported.
pub proof fn visiting_takes_nothing_back(
    before: AsOfPredicateVisitor,
    after: AsOfPredicateVisitor,
    conjuncts: Seq<PhysicalExpr>,
)
    requires
        after.has_visited(before, conjuncts),
    ensures
        before.unsupported ==> after.unsupported,
        before.on@.is_prefix_of(after.on@),
        after.inequality_count >= before.inequality_count,
        before.inequality_count >= 1 ==> after.asof_condition == before.asof_condition,
        before.inequality_count >= 1 && before.filter_view().inequalities(conjuncts) > 0
            ==> after.unsupported,
        after.filter_view() == before.filter_view(),
{
}

} // verus!
