//! What planning the joins of a `FROM` clause does, told from the clause and the plan.
use crate::expr::Operator;
use crate::sql;
use crate::sql::{
    find_valid_equijoin_key_pair, is_lateral, is_lateral_join, parse_asof_join, parse_cross_join,
    parse_join, parse_relation_join, plan_table_with_joins, ColumnRef, Expr, Join, JoinConstraint,
    JoinOperator, JoinPlan, NamePart, PlanStep, SqlError, TableFactor,
};
use crate::types::{JoinType, NullEquality};
use std::sync::Arc;
use vstd::prelude::*;

verus! {

/// Whether an expression is a conjunction.
pub open spec fn is_conjunction(expr: Expr) -> bool {
    match expr {
        Expr::Binary { op, .. } => op == Operator::And,
        _ => false,
    }
}

/// What a shared expression is.
spec fn of(shared: Arc<Expr>) -> Expr {
    *shared
}

/// A conjunction of two expressions.
pub open spec fn both(left: Arc<Expr>, right: Arc<Expr>) -> Arc<Expr> {
    Arc::new(Expr::Binary { left, op: Operator::And, right })
}

/// Whether a meaning of predicates takes `AND` as conjunction and an alias as what it
/// stands for.
pub open spec fn is_logical(meaning: spec_fn(Expr) -> bool) -> bool {
    &&& forall|left: Arc<Expr>, right: Arc<Expr>|
        meaning(#[trigger] *both(left, right)) == (meaning(*left) && meaning(*right))
    &&& forall|inner: Arc<Expr>| #[trigger] meaning(Expr::Alias(inner)) == meaning(*inner)
}

/// No conjunct is itself a conjunction or an alias, and an expression that is neither is
/// its own single conjunct.
pub proof fn conjuncts_cannot_be_split_further(expr: Expr)
    ensures
        sql::split_conjunction(expr).len() > 0,
        forall|k: int|
            0 <= k < sql::split_conjunction(expr).len() ==> !is_conjunction(
                #[trigger] sql::split_conjunction(expr)[k],
            ) && !(sql::split_conjunction(expr)[k] is Alias),
        !is_conjunction(expr) && !(expr is Alias) ==> sql::split_conjunction(expr) == seq![expr],
    decreases expr,
{
    match expr {
        Expr::Binary { left, op, right } => if op == Operator::And {
            conjuncts_cannot_be_split_further(of(left));
            conjuncts_cannot_be_split_further(of(right));
            let (a, b) = (sql::split_conjunction(of(left)), sql::split_conjunction(of(right)));
            assert forall|k: int| 0 <= k < (a + b).len() implies !is_conjunction(
                #[trigger] (a + b)[k],
            ) && !((a + b)[k] is Alias) by {
                if k < a.len() {
                    assert((a + b)[k] == a[k]);
                } else {
                    assert((a + b)[k] == b[k - a.len()]);
                }
            }
            assert(sql::split_conjunction(expr) == a + b);
        },
        Expr::Alias(inner) => conjuncts_cannot_be_split_further(of(inner)),
        _ => {},
    }
}

/// Whether all of some predicates hold.
pub open spec fn all_hold(predicates: Seq<Expr>, meaning: spec_fn(Expr) -> bool) -> bool {
    forall|k: int| 0 <= k < predicates.len() ==> meaning(#[trigger] predicates[k])
}

/// Predicates that stand one after the other hold where both parts do.
proof fn all_hold_in_two(a: Seq<Expr>, b: Seq<Expr>, meaning: spec_fn(Expr) -> bool)
    ensures
        all_hold(a + b, meaning) <==> all_hold(a, meaning) && all_hold(b, meaning),
{
    let all = a + b;
    assert forall|k: int| 0 <= k < a.len() implies all[k] == #[trigger] a[k] by {}
    assert forall|k: int| 0 <= k < b.len() implies all[a.len() + k] == #[trigger] b[k] by {}
    if all_hold(all, meaning) {
        assert forall|k: int| 0 <= k < a.len() implies meaning(#[trigger] a[k]) by {
            assert(meaning(all[k]));
        }
        assert forall|k: int| 0 <= k < b.len() implies meaning(#[trigger] b[k]) by {
            assert(meaning(all[a.len() + k]));
        }
    }
    if all_hold(a, meaning) && all_hold(b, meaning) {
        assert forall|k: int| 0 <= k < all.len() implies meaning(#[trigger] all[k]) by {
            if k < a.len() {
                assert(meaning(a[k]));
            } else {
                assert(meaning(b[k - a.len()]));
            }
        }
    }
}

/// A predicate holds exactly where all of its conjuncts hold, whatever its parts mean.
pub proof fn predicates_hold_where_all_conjuncts_hold(
    expr: Expr,
    meaning: spec_fn(Expr) -> bool,
)
    requires
        is_logical(meaning),
    ensures
        meaning(expr) <==> all_hold(sql::split_conjunction(expr), meaning),
    decreases expr,
{
    match expr {
        Expr::Binary { left, op, right } => if op == Operator::And {
            assert(*both(left, right) == expr);
            predicates_hold_where_all_conjuncts_hold(of(left), meaning);
            predicates_hold_where_all_conjuncts_hold(of(right), meaning);
            all_hold_in_two(
                sql::split_conjunction(of(left)),
                sql::split_conjunction(of(right)),
                meaning,
            );
        } else {
            single_holds(expr, meaning);
        },
        Expr::Alias(inner) => predicates_hold_where_all_conjuncts_hold(of(inner), meaning),
        _ => {
            single_holds(expr, meaning);
        },
    }
}

/// A single predicate holds where it holds.
proof fn single_holds(expr: Expr, meaning: spec_fn(Expr) -> bool)
    ensures
        all_hold(seq![expr], meaning) <==> meaning(expr),
{
    assert(seq![expr][0] == expr);
    if all_hold(seq![expr], meaning) {
        assert(meaning(seq![expr][0]));
    }
}

/// How conjunctions are nested does not matter to their conjuncts, nor that they are given
/// another name.
pub proof fn nesting_of_conjunctions_does_not_matter(a: Arc<Expr>, b: Arc<Expr>, c: Arc<Expr>)
    ensures
        sql::split_conjunction(*both(a, b)) == sql::split_conjunction(*a) + sql::split_conjunction(
            *b,
        ),
        sql::split_conjunction(*both(both(a, b), c)) == sql::split_conjunction(
            *both(a, both(b, c)),
        ),
        sql::split_conjunction(Expr::Alias(a)) == sql::split_conjunction(*a),
{
    reveal_with_fuel(sql::split_conjunction, 3);
    assert(sql::split_conjunction(*both(both(a, b), c)) =~= sql::split_conjunction(
        *both(a, both(b, c)),
    ));
}

/// Whether an expression refers to a column.
pub open spec fn mentions(expr: Expr, column: ColumnRef) -> bool
    decreases expr,
{
    match expr {
        Expr::Column(own) => own == column,
        Expr::Binary { left, right, .. } => mentions(*left, column) || mentions(*right, column),
        Expr::Alias(inner) => mentions(*inner, column),
        Expr::Other(columns) => columns@.contains(column),
    }
}

/// The columns of an expression are those that it refers to.
pub proof fn column_refs_are_mentioned(expr: Expr, column: ColumnRef)
    ensures
        sql::column_refs(expr).contains(column) <==> mentions(expr, column),
    decreases expr,
{
    match expr {
        Expr::Column(own) => {
            assert(sql::column_refs(expr)[0] == own);
        },
        Expr::Binary { left, right, .. } => {
            column_refs_are_mentioned(of(left), column);
            column_refs_are_mentioned(of(right), column);
            let (a, b) = (sql::column_refs(of(left)), sql::column_refs(of(right)));
            let all = sql::column_refs(expr);
            assert(all == a + b);
            if a.contains(column) {
                let k = choose|k: int| 0 <= k < a.len() && a[k] == column;
                assert(all[k] == column);
            }
            if b.contains(column) {
                let k = choose|k: int| 0 <= k < b.len() && b[k] == column;
                assert(all[a.len() + k] == column);
            }
            if all.contains(column) {
                let k = choose|k: int| 0 <= k < all.len() && all[k] == column;
                if k < a.len() {
                    assert(a[k] == column);
                } else {
                    assert(b[k - a.len()] == column);
                }
            }
        },
        Expr::Alias(inner) => column_refs_are_mentioned(of(inner), column),
        Expr::Other(_) => {},
    }
}

/// Whether an expression refers to a column, and to columns of the left input only.
pub open spec fn is_left_side(expr: Expr) -> bool {
    &&& exists|column: ColumnRef| #[trigger] mentions(expr, column)
    &&& forall|column: ColumnRef| #[trigger] mentions(expr, column) ==> column.in_left
}

/// Whether an expression refers to a column, and to columns of the right input only.
pub open spec fn is_right_side(expr: Expr) -> bool {
    &&& exists|column: ColumnRef| #[trigger] mentions(expr, column)
    &&& forall|column: ColumnRef| #[trigger] mentions(expr, column) ==> column.in_right
}

/// What an expression refers to settles of which inputs it is.
proof fn sides_by_mention(expr: Expr)
    ensures
        sql::is_of_left(expr) == is_left_side(expr),
        sql::is_of_right(expr) == is_right_side(expr),
{
    let refs = sql::column_refs(expr);
    assert forall|column: ColumnRef| refs.contains(column) == #[trigger] mentions(
        expr,
        column,
    ) by {
        column_refs_are_mentioned(expr, column);
    }
    assert forall|k: int| 0 <= k < refs.len() implies mentions(expr, #[trigger] refs[k]) by {
        assert(refs.contains(refs[k]));
    }
    if refs.len() > 0 {
        assert(mentions(expr, refs[0]));
    }
    if exists|column: ColumnRef| #[trigger] mentions(expr, column) {
        let column = choose|column: ColumnRef| #[trigger] mentions(expr, column);
        assert(refs.contains(column));
    }
    if sql::is_of_left(expr) {
        assert forall|column: ColumnRef| #[trigger] mentions(expr, column) implies column.in_left by {
            assert(refs.contains(column));
        }
    }
    if sql::is_of_right(expr) {
        assert forall|column: ColumnRef| #[trigger] mentions(expr, column) implies column.in_right by {
            assert(refs.contains(column));
        }
    }
}

/// The operands of an equality are a key exactly where one refers to columns of the left
/// input only and the other to columns of the right input only. The left input's operand
/// comes first in the key, and where both ways would do, the operands keep their places.
pub proof fn keys_have_a_side_of_each_input(
    left: Arc<Expr>,
    right: Arc<Expr>,
    key: Option<(Arc<Expr>, Arc<Expr>)>,
)
    requires
        call_ensures(find_valid_equijoin_key_pair, (&left, &right), key),
    ensures
        is_left_side(*left) && is_right_side(*right) ==> key == Some((left, right)),
        !(is_left_side(*left) && is_right_side(*right)) && is_left_side(*right) && is_right_side(
            *left,
        ) ==> key == Some((right, left)),
        key is Some ==> is_left_side(*(key->0).0) && is_right_side(*(key->0).1),
{
    sides_by_mention(of(left));
    sides_by_mention(of(right));
}

/// Planning an as-of join asks for a single inequality as its match condition, and takes it
/// as it is; every left row is kept, and null keys match nothing. `USING` and `NATURAL` are
/// refused, and without a constraint there are no keys.
pub proof fn asof_joins_keep_every_left_row(
    match_condition: Result<Arc<Expr>, SqlError>,
    constraint: JoinConstraint,
    planned: Result<JoinPlan, SqlError>,
)
    requires
        call_ensures(parse_asof_join, (match_condition, constraint), planned),
    ensures
        match_condition is Err ==> planned == Err::<JoinPlan, SqlError>(match_condition->Err_0),
        match_condition is Ok ==> {
            let condition = *match_condition->Ok_0;
            let is_inequality = condition is Binary && (condition->op == Operator::Lt
                || condition->op == Operator::LtEq || condition->op == Operator::Gt
                || condition->op == Operator::GtEq);
            &&& !is_inequality ==> planned == Err::<JoinPlan, SqlError>(
                SqlError::MatchConditionNotInequality,
            )
            &&& is_inequality && constraint is On && constraint->On_0 is Err ==> planned == Err::<
                JoinPlan,
                SqlError,
            >(constraint->On_0->Err_0)
            &&& is_inequality && (constraint is Using || constraint is Natural) ==> planned == Err::<
                JoinPlan,
                SqlError,
            >(SqlError::AsOfConstraintNotSupported)
            &&& is_inequality && constraint is Absent ==> planned is Ok && planned->Ok_0 is AsOf
                && planned->Ok_0->on@.len() == 0
        },
        planned is Ok ==> planned->Ok_0 is AsOf && planned->Ok_0->match_condition
            == match_condition->Ok_0 && planned->Ok_0->AsOf_join_type == JoinType::Left
            && planned->Ok_0->null_equality == NullEquality::NullEqualsNothing,
{
}

/// The keys of a conjunction are those of its left operand followed by those of its right
/// operand; it has keys exactly where both operands have.
pub proof fn keys_of_a_conjunction_are_those_of_its_operands(
    condition: Result<Arc<Expr>, SqlError>,
    left: Arc<Expr>,
    right: Arc<Expr>,
    left_planned: Result<JoinPlan, SqlError>,
    right_planned: Result<JoinPlan, SqlError>,
    planned: Result<JoinPlan, SqlError>,
)
    requires
        call_ensures(parse_asof_join, (condition, JoinConstraint::On(Ok(left))), left_planned),
        call_ensures(parse_asof_join, (condition, JoinConstraint::On(Ok(right))), right_planned),
        call_ensures(
            parse_asof_join,
            (condition, JoinConstraint::On(Ok(both(left, right)))),
            planned,
        ),
    ensures
        planned is Ok <==> left_planned is Ok && right_planned is Ok,
        planned is Ok ==> planned->Ok_0->on@ == left_planned->Ok_0->on@
            + right_planned->Ok_0->on@,
{
    nesting_of_conjunctions_does_not_matter(left, right, right);
    let (a, b) = (sql::split_conjunction(of(left)), sql::split_conjunction(of(right)));
    let all = sql::split_conjunction(of(both(left, right)));
    assert forall|k: int| 0 <= k < a.len() implies all[k] == #[trigger] a[k] by {}
    assert forall|k: int| 0 <= k < b.len() implies all[a.len() + k] == #[trigger] b[k] by {}
    if sql::all_equalities(all) {
        assert forall|k: int| 0 <= k < a.len() implies sql::equality_key(
            #[trigger] a[k],
        ) is Some by {
            assert(sql::equality_key(all[k]) is Some);
        }
        assert forall|k: int| 0 <= k < b.len() implies sql::equality_key(
            #[trigger] b[k],
        ) is Some by {
            assert(sql::equality_key(all[a.len() + k]) is Some);
        }
    }
    if sql::all_equalities(a) && sql::all_equalities(b) {
        assert forall|k: int| 0 <= k < all.len() implies sql::equality_key(
            #[trigger] all[k],
        ) is Some by {
            if k < a.len() {
                assert(sql::equality_key(a[k]) is Some);
            } else {
                assert(sql::equality_key(b[k - a.len()]) is Some);
            }
        }
    }
    assert(sql::equality_keys(all) =~= sql::equality_keys(a) + sql::equality_keys(b));
}

/// How the conjunctions of an `ON` clause are nested does not matter to the keys.
pub proof fn nesting_of_an_on_clause_does_not_matter(
    condition: Result<Arc<Expr>, SqlError>,
    a: Arc<Expr>,
    b: Arc<Expr>,
    c: Arc<Expr>,
    one: Result<JoinPlan, SqlError>,
    other: Result<JoinPlan, SqlError>,
)
    requires
        call_ensures(parse_asof_join, (condition, JoinConstraint::On(Ok(both(both(a, b), c)))), one),
        call_ensures(
            parse_asof_join,
            (condition, JoinConstraint::On(Ok(both(a, both(b, c))))),
            other,
        ),
    ensures
        one is Ok <==> other is Ok,
        one is Err ==> one->Err_0 == other->Err_0,
        one is Ok ==> one->Ok_0->on@ == other->Ok_0->on@,
{
    nesting_of_conjunctions_does_not_matter(a, b, c);
}

/// An `ON` clause of a single comparison gives the one key that its operands make, where it
/// is an equality and they make one, and is refused otherwise. Under another name a clause
/// gives the same keys, and what is neither a comparison nor an alias is refused.
pub proof fn single_equalities_give_one_key(
    condition: Arc<Expr>,
    comparison: Arc<Expr>,
    key: Option<(Arc<Expr>, Arc<Expr>)>,
    planned: Result<JoinPlan, SqlError>,
    renamed: Result<JoinPlan, SqlError>,
)
    requires
        sql::is_single_inequality(*condition),
        !is_conjunction(*comparison),
        !(*comparison is Alias),
        *comparison is Binary ==> call_ensures(
            find_valid_equijoin_key_pair,
            (&comparison->Binary_left, &comparison->Binary_right),
            key,
        ),
        call_ensures(
            parse_asof_join,
            (Ok(condition), JoinConstraint::On(Ok(comparison))),
            planned,
        ),
        call_ensures(
            parse_asof_join,
            (Ok(condition), JoinConstraint::On(Ok(Arc::new(Expr::Alias(comparison))))),
            renamed,
        ),
    ensures
        *comparison is Binary && comparison->op == Operator::Eq && key is Some ==> planned is Ok
            && planned->Ok_0->on@ == seq![key->0],
        !(*comparison is Binary && comparison->op == Operator::Eq && key is Some) ==> planned
            == Err::<JoinPlan, SqlError>(SqlError::OnNotEqualities),
        renamed is Ok <==> planned is Ok,
        renamed is Ok ==> renamed->Ok_0->on@ == planned->Ok_0->on@,
{
    conjuncts_cannot_be_split_further(of(comparison));
    let conjuncts = sql::split_conjunction(of(comparison));
    assert(conjuncts[0] == *comparison);
    nesting_of_conjunctions_does_not_matter(comparison, comparison, comparison);
    if sql::all_equalities(conjuncts) {
        assert(sql::equality_key(conjuncts[0]) is Some);
        assert(sql::equality_keys(conjuncts) =~= seq![sql::equality_key(conjuncts[0])->0]);
    } else {
        assert(sql::equality_key(conjuncts[0]) is None);
    }
}

/// The keys of an as-of join mean what its `ON` clause means: the clause holds exactly
/// where the sides of every key have the same value.
pub proof fn planned_keys_mean_the_on_clause(
    condition: Result<Arc<Expr>, SqlError>,
    on: Arc<Expr>,
    planned: Result<JoinPlan, SqlError>,
    meaning: spec_fn(Expr) -> bool,
    value: spec_fn(Expr) -> int,
)
    requires
        call_ensures(parse_asof_join, (condition, JoinConstraint::On(Ok(on))), planned),
        planned is Ok,
        is_logical(meaning),
        forall|left: Arc<Expr>, right: Arc<Expr>|
            #[trigger] meaning(Expr::Binary { left, op: Operator::Eq, right }) == (value(*left)
                == value(*right)),
    ensures
        meaning(*on) <==> (forall|k: int|
            0 <= k < planned->Ok_0->on@.len() ==> value(*(#[trigger] planned->Ok_0->on@[k]).0)
                == value(*planned->Ok_0->on@[k].1)),
{
    predicates_hold_where_all_conjuncts_hold(of(on), meaning);
    let conjuncts = sql::split_conjunction(of(on));
    let keys = planned->Ok_0->on@;
    assert forall|k: int| 0 <= k < keys.len() implies meaning(conjuncts[k]) == (value(
        *(#[trigger] keys[k]).0,
    ) == value(*keys[k].1)) by {
        assert(sql::equality_key(conjuncts[k]) is Some);
        match conjuncts[k] {
            Expr::Binary { left, op, right } => {
                assert(conjuncts[k] == (Expr::Binary { left, op: Operator::Eq, right }));
            },
            _ => {},
        }
    }
    if all_hold(conjuncts, meaning) {
        assert forall|k: int| 0 <= k < keys.len() implies value(*(#[trigger] keys[k]).0) == value(
            *keys[k].1,
        ) by {
            assert(meaning(conjuncts[k]));
        }
    }
    if forall|k: int|
        0 <= k < keys.len() ==> value(*(#[trigger] keys[k]).0) == value(*keys[k].1) {
        assert forall|k: int| 0 <= k < conjuncts.len() implies meaning(
            #[trigger] conjuncts[k],
        ) by {
            assert(value(*keys[k].0) == value(*keys[k].1));
        }
    }
}

/// A relation may refer to what stands before it exactly where it is marked as lateral or
/// unnests something.
pub proof fn lateral_relations_are_marked(factor: TableFactor, lateral: bool)
    requires
        call_ensures(is_lateral, (&factor,), lateral),
    ensures
        lateral <==> factor == (TableFactor::Derived { lateral: true }) || factor == (
        TableFactor::Function { lateral: true }) || factor == TableFactor::Unnest,
{
}

/// A joined relation may refer to what stands before it where its own syntax says so, or
/// where it is applied; a relation whose own syntax says so is refused on the side that a
/// right or full join keeps.
pub proof fn lateral_joins_are_marked_or_applied(
    join: Join,
    lateral: bool,
    answer: Result<bool, SqlError>,
)
    requires
        call_ensures(is_lateral, (&join.relation,), lateral),
        call_ensures(is_lateral_join, (&join,), answer),
    ensures
        ({
            let operator = join.join_operator;
            let keeps_right = operator is Right || operator is RightOuter || operator is RightSemi
                || operator is RightAnti || operator is FullOuter;
            &&& lateral && keeps_right ==> answer == Err::<bool, SqlError>(
                SqlError::LateralNotSupported,
            )
            &&& !(lateral && keeps_right) ==> answer == Ok::<bool, SqlError>(
                lateral || operator is CrossApply || operator is OuterApply,
            )
        }),
{
}

/// The type that a planned join has.
pub open spec fn has_type(plan: JoinPlan, join_type: JoinType) -> bool {
    match plan {
        JoinPlan::On { join_type: own, .. } => own == join_type,
        JoinPlan::Using { join_type: own, .. } => own == join_type,
        JoinPlan::Cross => true,
        JoinPlan::AsOf { .. } => false,
    }
}

/// A join on a predicate keeps the predicate, one without a constraint has none, and both
/// have the type that was asked for.
pub proof fn joins_keep_their_predicate(
    left_columns: Vec<String>,
    right_columns: Vec<String>,
    constraint: JoinConstraint,
    join_type: JoinType,
    planned: Result<JoinPlan, SqlError>,
)
    requires
        call_ensures(parse_join, (&left_columns, &right_columns, constraint, join_type), planned),
    ensures
        planned is Ok ==> has_type(planned->Ok_0, join_type),
        planned is Ok && planned->Ok_0 == JoinPlan::Cross ==> constraint is Natural,
        constraint is On && constraint->On_0 is Ok ==> planned is Ok && planned->Ok_0 is On
            && planned->Ok_0->filter == Some(constraint->On_0->Ok_0),
        constraint is On && constraint->On_0 is Err ==> planned == Err::<JoinPlan, SqlError>(
            constraint->On_0->Err_0,
        ),
        constraint is Absent ==> planned is Ok && planned->Ok_0 is On
            && planned->Ok_0->filter is None,
{
}

/// Whether a name has one part, an identifier.
pub open spec fn is_identifier(name: Seq<NamePart>) -> bool {
    name.len() == 1 && name[0] is Identifier
}

/// A `USING` clause whose names are all single identifiers joins on exactly these, in
/// order. Otherwise the first name that is none is reported.
pub proof fn using_joins_on_the_named_columns(
    left_columns: Vec<String>,
    right_columns: Vec<String>,
    names: Vec<Vec<NamePart>>,
    join_type: JoinType,
    planned: Result<JoinPlan, SqlError>,
    at: int,
)
    requires
        call_ensures(
            parse_join,
            (&left_columns, &right_columns, JoinConstraint::Using(names), join_type),
            planned,
        ),
        0 <= at < names@.len(),
    ensures
        planned is Ok <==> forall|k: int|
            0 <= k < names@.len() ==> is_identifier((#[trigger] names@[k])@),
        planned is Ok ==> planned->Ok_0 is Using && planned->Ok_0->columns@.len() == names@.len()
            && planned->Ok_0->columns@[at]@ == names@[at]@[0]->Identifier_0@,
        !is_identifier(names@[at]@) && (forall|k: int|
            0 <= k < at ==> is_identifier((#[trigger] names@[k])@)) ==> planned == Err::<
            JoinPlan,
            SqlError,
        >(
            if names@[at]@.len() == 1 {
                SqlError::UsingNotIdentifier
            } else {
                SqlError::UsingNotSingleIdentifier
            },
        ),
{
    assert forall|k: int| 0 <= k < names@.len() implies is_identifier((#[trigger] names@[k])@)
        == (sql::using_column(names@[k]@) is Ok) by {}
    if forall|k: int| 0 <= k < names@.len() ==> is_identifier((#[trigger] names@[k])@) {
        assert forall|bad: int| !#[trigger] sql::first_bad_name(names@, bad) by {
            if 0 <= bad < names@.len() {
                assert(is_identifier(names@[bad]@));
            }
        }
        let texts = sql::texts(planned->Ok_0->columns@);
        assert(texts.len() == names@.len());
        assert(texts[at] == sql::using_column(names@[at]@)->Ok_0);
        assert(is_identifier(names@[at]@));
    } else {
        let some = choose|k: int| 0 <= k < names@.len() && !is_identifier((#[trigger] names@[k])@);
        let bad = first_bad(names@, some);
        assert(sql::first_bad_name(names@, bad));
        if !is_identifier(names@[at]@) && (forall|k: int|
            0 <= k < at ==> is_identifier((#[trigger] names@[k])@)) {
            assert(sql::first_bad_name(names@, at)) by {
                assert forall|k: int| 0 <= k < at implies sql::using_column(
                    (#[trigger] names@[k])@,
                ) is Ok by {
                    assert(is_identifier(names@[k]@));
                }
            }
        }
    }
}

/// Where some name is no identifier, there is a first one.
proof fn first_bad(names: Seq<Vec<NamePart>>, some: int) -> (at: int)
    requires
        0 <= some < names.len(),
        !is_identifier(names[some]@),
    ensures
        sql::first_bad_name(names, at),
    decreases some,
{
    if exists|k: int| 0 <= k < some && !is_identifier((#[trigger] names[k])@) {
        let k = choose|k: int| 0 <= k < some && !is_identifier((#[trigger] names[k])@);
        first_bad(names, k)
    } else {
        assert forall|k: int| 0 <= k < some implies sql::using_column(
            (#[trigger] names[k])@,
        ) is Ok by {
            assert(is_identifier(names[k]@));
        }
        some
    }
}

/// A natural join is on the columns of the right input whose names the left input has as
/// well, in their order; where there are none, it is a cross join.
pub proof fn natural_joins_are_on_common_columns(
    left_columns: Vec<String>,
    right_columns: Vec<String>,
    join_type: JoinType,
    planned: Result<JoinPlan, SqlError>,
)
    requires
        call_ensures(
            parse_join,
            (&left_columns, &right_columns, JoinConstraint::Natural, join_type),
            planned,
        ),
    ensures
        planned is Ok,
        planned->Ok_0 is Using || planned->Ok_0 == JoinPlan::Cross,
        planned->Ok_0 == JoinPlan::Cross <==> forall|l: int, r: int|
            0 <= l < left_columns@.len() && 0 <= r < right_columns@.len()
                ==> #[trigger] left_columns@[l]@ != #[trigger] right_columns@[r]@,
        planned->Ok_0 is Using ==> forall|column: Seq<char>| #[trigger]
            sql::texts(planned->Ok_0->columns@).contains(column) <==> sql::texts(
                left_columns@,
            ).contains(column) && sql::texts(right_columns@).contains(column),
{
    let (left, right) = (sql::texts(left_columns@), sql::texts(right_columns@));
    let common = sql::common_columns(left, right);
    assert forall|column: Seq<char>| #[trigger] common.contains(column) <==> left.contains(column)
        && right.contains(column) by {
        sql::natural_columns_are_common(left, right, column);
    }
    if common.len() > 0 {
        let column = common[0];
        assert(common.contains(column));
        let l = choose|l: int| 0 <= l < left.len() && left[l] == column;
        let r = choose|r: int| 0 <= r < right.len() && right[r] == column;
        assert(left_columns@[l]@ == right_columns@[r]@);
    } else {
        assert forall|l: int, r: int|
            0 <= l < left_columns@.len() && 0 <= r < right_columns@.len() implies
            #[trigger] left_columns@[l]@ != #[trigger] right_columns@[r]@ by {
            assert(left[l] == left_columns@[l]@);
            assert(right[r] == right_columns@[r]@);
            if left[l] == right[r] {
                assert(left.contains(left[l]));
                assert(right.contains(left[l]));
                assert(common.contains(left[l]));
            }
        }
    }
}

/// A natural join takes the common columns in the order of the right input: one more column
/// there comes last, where the left input has it, and changes nothing where it has not.
pub proof fn common_columns_keep_the_right_order(
    left: Seq<Seq<char>>,
    right: Seq<Seq<char>>,
    column: Seq<char>,
)
    ensures
        sql::common_columns(left, right.push(column)) == if left.contains(column) {
            sql::common_columns(left, right).push(column)
        } else {
            sql::common_columns(left, right)
        },
        sql::common_columns(left, Seq::empty()) == Seq::<Seq<char>>::empty(),
        sql::texts(Seq::empty()) == Seq::<Seq<char>>::empty(),
{
    reveal(Seq::filter);
    assert(right.push(column).drop_last() =~= right);
    assert(right.push(column).last() == column);
    assert(sql::common_columns(left, Seq::empty()) =~= Seq::<Seq<char>>::empty());
    assert(sql::texts(Seq::empty()) =~= Seq::<Seq<char>>::empty());
}

/// The type of join that an operator names, with its constraint.
pub open spec fn names(operator: JoinOperator, join_type: JoinType, constraint: JoinConstraint) -> bool {
    match join_type {
        JoinType::Inner => operator == JoinOperator::Inner(constraint) || operator
            == JoinOperator::Join(constraint),
        JoinType::Left => operator == JoinOperator::Left(constraint) || operator
            == JoinOperator::LeftOuter(constraint),
        JoinType::Right => operator == JoinOperator::Right(constraint) || operator
            == JoinOperator::RightOuter(constraint),
        JoinType::Full => operator == JoinOperator::FullOuter(constraint),
        JoinType::LeftSemi => operator == JoinOperator::LeftSemi(constraint),
        JoinType::RightSemi => operator == JoinOperator::RightSemi(constraint),
        JoinType::LeftAnti => operator == JoinOperator::LeftAnti(constraint),
        JoinType::RightAnti => operator == JoinOperator::RightAnti(constraint),
        _ => false,
    }
}

/// A relation is joined with the type that its operator names. A relation that may not be
/// joined so is refused first, then one that could not be planned.
pub proof fn operators_name_their_type(
    left_columns: Vec<String>,
    right_columns: Result<Vec<String>, SqlError>,
    join: Join,
    lateral: Result<bool, SqlError>,
    planned: Result<JoinPlan, SqlError>,
    join_type: JoinType,
    constraint: JoinConstraint,
)
    requires
        call_ensures(is_lateral_join, (&join,), lateral),
        call_ensures(parse_relation_join, (&left_columns, right_columns, join), planned),
    ensures
        lateral is Err ==> planned == Err::<JoinPlan, SqlError>(lateral->Err_0),
        lateral is Ok && right_columns is Err ==> planned == Err::<JoinPlan, SqlError>(
            right_columns->Err_0,
        ),
        lateral is Ok && right_columns is Ok && names(join.join_operator, join_type, constraint)
            ==> {
            &&& planned is Ok ==> has_type(planned->Ok_0, join_type)
            &&& constraint is On && constraint->On_0 is Ok ==> planned == Ok::<JoinPlan, SqlError>(
                JoinPlan::On { join_type, filter: Some(constraint->On_0->Ok_0) },
            )
            &&& constraint is On && constraint->On_0 is Err ==> planned == Err::<
                JoinPlan,
                SqlError,
            >(constraint->On_0->Err_0)
            &&& constraint is Absent ==> planned == Ok::<JoinPlan, SqlError>(
                JoinPlan::On { join_type, filter: None },
            )
            &&& constraint is Natural ==> planned is Ok && (planned->Ok_0 is Using
                || planned->Ok_0 == JoinPlan::Cross)
        },
        lateral is Ok && right_columns is Ok ==> match join.join_operator {
            JoinOperator::CrossJoin(JoinConstraint::Absent) => planned == Ok::<JoinPlan, SqlError>(
                JoinPlan::Cross,
            ),
            JoinOperator::CrossJoin(_)
            | JoinOperator::CrossApply
            | JoinOperator::OuterApply
            | JoinOperator::Other => planned == Err::<JoinPlan, SqlError>(
                SqlError::UnsupportedJoinOperator,
            ),
            _ => true,
        },
{
}

/// An as-of join in a `FROM` clause is planned as one.
pub proof fn asof_operators_plan_asof_joins(
    left_columns: Vec<String>,
    right_columns: Vec<String>,
    relation: TableFactor,
    match_condition: Result<Arc<Expr>, SqlError>,
    constraint: JoinConstraint,
    planned: Result<JoinPlan, SqlError>,
    asof: Result<JoinPlan, SqlError>,
)
    requires
        call_ensures(
            parse_relation_join,
            (
                &left_columns,
                Ok(right_columns),
                Join {
                    relation,
                    join_operator: JoinOperator::AsOf { match_condition, constraint },
                },
            ),
            planned,
        ),
        call_ensures(parse_asof_join, (match_condition, constraint), asof),
    ensures
        planned is Ok <==> asof is Ok,
        planned is Err ==> planned->Err_0 == asof->Err_0,
        planned is Ok ==> planned->Ok_0 is AsOf && planned->Ok_0->on@ == asof->Ok_0->on@
            && planned->Ok_0->match_condition == asof->Ok_0->match_condition
            && planned->Ok_0->AsOf_join_type == asof->Ok_0->AsOf_join_type
            && planned->Ok_0->null_equality == asof->Ok_0->null_equality,
{
}

/// A cross join is planned as one.
pub proof fn cross_joins_are_planned_as_such(plan: JoinPlan)
    requires
        call_ensures(parse_cross_join, (), plan),
    ensures
        plan == JoinPlan::Cross,
{
}

/// A table is planned first, as a subquery exactly where it may refer to what stands before
/// it. Then its joins are planned in order, each after the columns planned so far have been
/// made known; what was known before is remembered first and restored last.
pub proof fn joins_are_planned_in_order(
    relation: TableFactor,
    lateral: bool,
    joins: usize,
    steps: Vec<PlanStep>,
    k: int,
)
    requires
        call_ensures(is_lateral, (&relation,), lateral),
        call_ensures(plan_table_with_joins, (&relation, joins), steps),
        0 <= k < joins,
    ensures
        steps@.len() == 3 + 2 * joins,
        steps@[0] == (PlanStep::CreateRelation { subquery: lateral }),
        steps@[1] == PlanStep::SaveOuterSchema,
        steps@[2 + 2 * k] == PlanStep::ExtendOuterSchema,
        steps@[3 + 2 * k] == PlanStep::JoinRelation(k as usize),
        steps@.last() == PlanStep::RestoreOuterSchema,
{
    join_steps_in_order(joins as nat, k);
}

/// The steps of the joins, one by one.
proof fn join_steps_in_order(n: nat, k: int)
    requires
        0 <= k < n,
    ensures
        sql::join_steps(n).len() == 2 * n,
        sql::join_steps(n)[2 * k] == PlanStep::ExtendOuterSchema,
        sql::join_steps(n)[2 * k + 1] == PlanStep::JoinRelation(k as usize),
    decreases n,
{
    if n > 1 {
        let rest = (n - 1) as nat;
        join_steps_in_order(rest, if k < rest { k } else { 0 });
    } else {
        reveal_with_fuel(sql::join_steps, 2);
    }
}

} // verus!
