//! Planning the joins of a `FROM` clause.
//!
//! Expressions have been planned, and names normalized, before they come here;
//! where that failed, the failure comes in place of the expression. What is
//! returned says which join to build.
use crate::expr;
use crate::expr::Operator;
use crate::shared::share;
use crate::types::{JoinType, NullEquality};
use std::sync::Arc;
use vstd::prelude::*;

verus! {

/// Why a join could not be planned.
#[derive(Debug, PartialEq, Eq)]
pub enum SqlError {
    /// `LATERAL` does not go with full and right joins.
    LateralNotSupported,
    /// No join is planned for this operator.
    UnsupportedJoinOperator,
    /// The match condition of an as-of join is one inequality.
    MatchConditionNotInequality,
    /// The `ON` clause of an as-of join is made of equalities between the inputs.
    OnNotEqualities,
    /// As-of joins take no `USING` and no `NATURAL`.
    AsOfConstraintNotSupported,
    /// A name in a `USING` clause has more than one part, or none.
    UsingNotSingleIdentifier,
    /// A name in a `USING` clause is no identifier.
    UsingNotIdentifier,
    /// A part of the join could not be planned, for the given reason.
    Planning(String),
}

/// A column that an expression refers to.
#[derive(Debug, PartialEq, Eq)]
pub struct ColumnRef {
    /// The column, with its relation where it is given.
    pub name: String,
    /// Whether the left input has the column.
    pub in_left: bool,
    /// Whether the right input has the column.
    pub in_right: bool,
}

/// A logical expression, as far as planning joins looks into it.
#[derive(Debug, PartialEq, Eq)]
pub enum Expr {
    /// A column.
    Column(ColumnRef),
    /// A binary expression.
    Binary {
        left: Arc<Expr>,
        op: Operator,
        right: Arc<Expr>,
    },
    /// An expression under another name.
    Alias(Arc<Expr>),
    /// Any other expression: the columns that it refers to.
    Other(Vec<ColumnRef>),
}

/// One part of a name.
#[derive(Debug, PartialEq, Eq)]
pub enum NamePart {
    /// An identifier, normalized.
    Identifier(String),
    /// A function that gives the name.
    Function,
}

/// What is joined on.
#[derive(Debug, PartialEq, Eq)]
pub enum JoinConstraint {
    /// A predicate.
    On(Result<Arc<Expr>, SqlError>),
    /// Columns that both inputs have, each named by its parts.
    Using(Vec<Vec<NamePart>>),
    /// All columns that both inputs have.
    Natural,
    /// Nothing.
    Absent,
}

/// A join operator.
#[derive(Debug, PartialEq, Eq)]
pub enum JoinOperator {
    Join(JoinConstraint),
    Inner(JoinConstraint),
    Left(JoinConstraint),
    LeftOuter(JoinConstraint),
    Right(JoinConstraint),
    RightOuter(JoinConstraint),
    FullOuter(JoinConstraint),
    CrossJoin(JoinConstraint),
    LeftSemi(JoinConstraint),
    RightSemi(JoinConstraint),
    LeftAnti(JoinConstraint),
    RightAnti(JoinConstraint),
    CrossApply,
    OuterApply,
    AsOf {
        match_condition: Result<Arc<Expr>, SqlError>,
        constraint: JoinConstraint,
    },
    /// An operator that no join is planned for.
    Other,
}

/// What stands for a relation in a `FROM` clause.
#[derive(Debug, Clone, Copy, PartialEq, Eq, Structural)]
pub enum TableFactor {
    Derived {
        lateral: bool,
    },
    Function {
        lateral: bool,
    },
    Unnest,
    Other,
}

/// A relation and how it is joined to what stands before it.
#[derive(Debug, PartialEq, Eq)]
pub struct Join {
    /// The relation.
    pub relation: TableFactor,
    /// How it is joined.
    pub join_operator: JoinOperator,
}

/// The join to build.
#[derive(Debug, PartialEq, Eq)]
pub enum JoinPlan {
    /// A join on a predicate, or on none.
    On {
        join_type: JoinType,
        filter: Option<Arc<Expr>>,
    },
    /// A join on columns that both inputs have.
    Using {
        join_type: JoinType,
        columns: Vec<String>,
    },
    /// A cross join.
    Cross,
    /// An as-of join.
    AsOf {
        on: Vec<(Arc<Expr>, Arc<Expr>)>,
        match_condition: Arc<Expr>,
        join_type: JoinType,
        null_equality: NullEquality,
    },
}

/// One step of planning a table with its joins.
#[derive(Debug, Clone, Copy, PartialEq, Eq, Structural)]
pub enum PlanStep {
    /// Plan the first relation, as a subquery or not.
    CreateRelation {
        subquery: bool,
    },
    /// Remember which columns of outer queries can be referred to.
    SaveOuterSchema,
    /// Let the next relation refer to the columns planned so far.
    ExtendOuterSchema,
    /// Plan the join at the given position.
    JoinRelation(usize),
    /// Go back to the remembered columns.
    RestoreOuterSchema,
}

/// Whether a relation may refer to what stands before it.
pub open spec fn is_lateral_factor(factor: TableFactor) -> bool {
    match factor {
        TableFactor::Derived { lateral } => lateral,
        TableFactor::Function { lateral } => lateral,
        TableFactor::Unnest => true,
        TableFactor::Other => false,
    }
}

/// Returns whether a relation may refer to what stands before it.
pub fn is_lateral(factor: &TableFactor) -> (lateral: bool)
    ensures
        lateral == is_lateral_factor(*factor),
{
    match factor {
        TableFactor::Derived { lateral } => *lateral,
        TableFactor::Function { lateral } => *lateral,
        TableFactor::Unnest => true,
        TableFactor::Other => false,
    }
}

/// Whether a join operator keeps all rows of the right input, or is defined by them.
pub open spec fn keeps_right(operator: JoinOperator) -> bool {
    operator is FullOuter || operator is Right || operator is RightOuter || operator is RightAnti
        || operator is RightSemi
}

/// Whether a joined relation may refer to what stands before it, by its own syntax or
/// by that of the operator, or why it may not be joined so.
pub open spec fn lateral_join(join: Join) -> Result<bool, SqlError> {
    if is_lateral_factor(join.relation) && keeps_right(join.join_operator) {
        Err(SqlError::LateralNotSupported)
    } else {
        Ok(
            is_lateral_factor(join.relation) || join.join_operator is CrossApply
                || join.join_operator is OuterApply,
        )
    }
}

/// Returns whether a joined relation may refer to what stands before it.
pub fn is_lateral_join(join: &Join) -> (result: Result<bool, SqlError>)
    ensures
        result == lateral_join(*join),
{
    let is_lateral_syntax = is_lateral(&join.relation);
    let is_apply_syntax = match &join.join_operator {
        JoinOperator::FullOuter(_)
        | JoinOperator::Right(_)
        | JoinOperator::RightOuter(_)
        | JoinOperator::RightAnti(_)
        | JoinOperator::RightSemi(_) => {
            if is_lateral_syntax {
                return Err(SqlError::LateralNotSupported);
            }
            false
        },
        JoinOperator::CrossApply | JoinOperator::OuterApply => true,
        _ => false,
    };
    Ok(is_lateral_syntax || is_apply_syntax)
}

/// The conjuncts of a predicate: what its outermost `AND`s connect, under any alias.
pub open spec fn split_conjunction(expr: Expr) -> Seq<Expr>
    decreases expr,
{
    match expr {
        Expr::Binary { left, op, right } => if op == Operator::And {
            split_conjunction(*left) + split_conjunction(*right)
        } else {
            seq![expr]
        },
        Expr::Alias(inner) => split_conjunction(*inner),
        _ => seq![expr],
    }
}

/// The conjuncts of a shared predicate.
spec fn conjuncts_of(expr: Arc<Expr>) -> Seq<Expr> {
    split_conjunction(*expr)
}

/// The columns that an expression refers to.
pub open spec fn column_refs(expr: Expr) -> Seq<ColumnRef>
    decreases expr,
{
    match expr {
        Expr::Column(column) => seq![column],
        Expr::Binary { left, right, .. } => column_refs(*left) + column_refs(*right),
        Expr::Alias(inner) => column_refs(*inner),
        Expr::Other(columns) => columns@,
    }
}

/// The columns that a shared expression refers to.
spec fn refs_of(expr: Arc<Expr>) -> Seq<ColumnRef> {
    column_refs(*expr)
}

/// Whether an expression refers to columns, all of which the left input has.
pub open spec fn is_of_left(expr: Expr) -> bool {
    column_refs(expr).len() > 0 && forall|k: int|
        0 <= k < column_refs(expr).len() ==> (#[trigger] column_refs(expr)[k]).in_left
}

/// Whether an expression refers to columns, all of which the right input has.
pub open spec fn is_of_right(expr: Expr) -> bool {
    column_refs(expr).len() > 0 && forall|k: int|
        0 <= k < column_refs(expr).len() ==> (#[trigger] column_refs(expr)[k]).in_right
}

/// The sides of an equality as a join key, the left input's first, where each is of one
/// input.
pub open spec fn key_pair(left_key: Arc<Expr>, right_key: Arc<Expr>) -> Option<
    (Arc<Expr>, Arc<Expr>),
> {
    if is_of_left(*left_key) && is_of_right(*right_key) {
        Some((left_key, right_key))
    } else if is_of_left(*right_key) && is_of_right(*left_key) {
        Some((right_key, left_key))
    } else {
        None
    }
}

/// What is known of the columns that an expression refers to.
struct ColumnUse {
    any: bool,
    all_in_left: bool,
    all_in_right: bool,
}

impl ColumnUse {
    /// Whether this is what is known of the given columns.
    spec fn describes(self, columns: Seq<ColumnRef>) -> bool {
        &&& self.any == (columns.len() > 0)
        &&& self.all_in_left == forall|k: int|
            0 <= k < columns.len() ==> (#[trigger] columns[k]).in_left
        &&& self.all_in_right == forall|k: int|
            0 <= k < columns.len() ==> (#[trigger] columns[k]).in_right
    }
}

/// Returns what is known of the columns that an expression refers to.
fn column_use(expr: &Expr) -> (result: ColumnUse)
    ensures
        result.describes(column_refs(*expr)),
    decreases *expr,
{
    match expr {
        Expr::Column(column) => {
            assert(column_refs(*expr)[0] == *column);
            ColumnUse { any: true, all_in_left: column.in_left, all_in_right: column.in_right }
        },
        Expr::Binary { left, right, .. } => {
            let l = column_use(&**left);
            let r = column_use(&**right);
            proof {
                both_describe(refs_of(*left), refs_of(*right), l, r);
            }
            ColumnUse {
                any: l.any || r.any,
                all_in_left: l.all_in_left && r.all_in_left,
                all_in_right: l.all_in_right && r.all_in_right,
            }
        },
        Expr::Alias(inner) => column_use(&**inner),
        Expr::Other(columns) => columns_use(columns),
    }
}

/// What is known of two lists of columns together.
proof fn both_describe(a: Seq<ColumnRef>, b: Seq<ColumnRef>, l: ColumnUse, r: ColumnUse)
    requires
        l.describes(a),
        r.describes(b),
    ensures
        (ColumnUse {
            any: l.any || r.any,
            all_in_left: l.all_in_left && r.all_in_left,
            all_in_right: l.all_in_right && r.all_in_right,
        }).describes(a + b),
{
    let both = a + b;
    assert forall|k: int| 0 <= k < a.len() implies both[k] == #[trigger] a[k] by {}
    assert forall|k: int| 0 <= k < b.len() implies both[a.len() + k] == #[trigger] b[k] by {}
}

/// Returns what is known of some columns.
fn columns_use(columns: &Vec<ColumnRef>) -> (result: ColumnUse)
    ensures
        result.describes(columns@),
{
    let mut all_in_left = true;
    let mut all_in_right = true;
    for k in 0..columns.len()
        invariant
            all_in_left == forall|d: int| 0 <= d < k ==> (#[trigger] columns@[d]).in_left,
            all_in_right == forall|d: int| 0 <= d < k ==> (#[trigger] columns@[d]).in_right,
    {
        let column = &columns[k];
        assert(*column == columns@[k as int]);
        all_in_left = all_in_left && column.in_left;
        all_in_right = all_in_right && column.in_right;
    }
    ColumnUse { any: columns.len() > 0, all_in_left, all_in_right }
}

/// Returns the sides of an equality as a join key, the left input's first, where each
/// is of one input.
pub fn find_valid_equijoin_key_pair(left_key: &Arc<Expr>, right_key: &Arc<Expr>) -> (result: Option<
    (Arc<Expr>, Arc<Expr>),
>)
    ensures
        result == key_pair(*left_key, *right_key),
{
    let left = column_use(&**left_key);
    let right = column_use(&**right_key);
    if !left.any || !right.any {
        return None;
    }
    if left.all_in_left && right.all_in_right {
        Some((share(left_key), share(right_key)))
    } else if right.all_in_left && left.all_in_right {
        Some((share(right_key), share(left_key)))
    } else {
        None
    }
}

/// The join key that a conjunct states, if it states one.
pub open spec fn equality_key(conjunct: Expr) -> Option<(Arc<Expr>, Arc<Expr>)> {
    match conjunct {
        Expr::Binary { left, op, right } => if op == Operator::Eq {
            key_pair(left, right)
        } else {
            None
        },
        _ => None,
    }
}

/// Whether every conjunct states a join key.
pub open spec fn all_equalities(conjuncts: Seq<Expr>) -> bool {
    forall|k: int| 0 <= k < conjuncts.len() ==> equality_key(#[trigger] conjuncts[k]) is Some
}

/// The join keys that conjuncts state, in order.
pub open spec fn equality_keys(conjuncts: Seq<Expr>) -> Seq<(Arc<Expr>, Arc<Expr>)> {
    Seq::new(conjuncts.len(), |k: int| equality_key(conjuncts[k])->0)
}

/// Conjuncts that stand one after the other state keys where both parts do.
proof fn equalities_append(first: Seq<Expr>, second: Seq<Expr>)
    ensures
        all_equalities(first + second) <==> all_equalities(first) && all_equalities(second),
        equality_keys(first + second) == equality_keys(first) + equality_keys(second),
{
    let both = first + second;
    assert forall|k: int| 0 <= k < first.len() implies both[k] == #[trigger] first[k] by {}
    assert forall|k: int| 0 <= k < second.len() implies both[first.len() + k]
        == #[trigger] second[k] by {}
    assert(equality_keys(both) =~= equality_keys(first) + equality_keys(second));
}

/// Appends the join keys that the conjuncts of an expression state, and returns whether
/// all of them state one.
fn append_keys(expr: &Expr, keys: &mut Vec<(Arc<Expr>, Arc<Expr>)>) -> (all: bool)
    ensures
        all == all_equalities(split_conjunction(*expr)),
        all ==> final(keys)@ == old(keys)@ + equality_keys(split_conjunction(*expr)),
    decreases *expr,
{
    match expr {
        Expr::Binary { left, op, right } => match op {
            Operator::And => {
                let first = append_keys(&**left, keys);
                if !first {
                    proof {
                        equalities_append(conjuncts_of(*left), conjuncts_of(*right));
                    }
                    return false;
                }
                let ghost middle = keys@;
                let second = append_keys(&**right, keys);
                proof {
                    equalities_append(conjuncts_of(*left), conjuncts_of(*right));
                    assert(second ==> keys@ =~= old(keys)@ + equality_keys(
                        split_conjunction(*expr),
                    ));
                }
                second
            },
            Operator::Eq => match find_valid_equijoin_key_pair(left, right) {
                Some(pair) => {
                    keys.push(pair);
                    assert(split_conjunction(*expr)[0] == *expr);
                    assert(keys@ =~= old(keys)@ + equality_keys(split_conjunction(*expr)));
                    true
                },
                None => {
                    assert(split_conjunction(*expr)[0] == *expr);
                    false
                },
            },
            _ => {
                assert(split_conjunction(*expr)[0] == *expr);
                false
            },
        },
        Expr::Alias(inner) => append_keys(&**inner, keys),
        _ => {
            assert(split_conjunction(*expr)[0] == *expr);
            false
        },
    }
}

/// Whether an expression is a single inequality.
pub open spec fn is_single_inequality(expr: Expr) -> bool {
    match expr {
        Expr::Binary { op, .. } => expr::is_inequality(op),
        _ => false,
    }
}

/// The keys of an as-of join, or why it has none: equalities between the inputs that an
/// `ON` clause states; without a clause there are none.
pub open spec fn asof_on(constraint: JoinConstraint) -> Result<
    Seq<(Arc<Expr>, Arc<Expr>)>,
    SqlError,
> {
    match constraint {
        JoinConstraint::On(Ok(on)) => if all_equalities(split_conjunction(*on)) {
            Ok(equality_keys(split_conjunction(*on)))
        } else {
            Err(SqlError::OnNotEqualities)
        },
        JoinConstraint::On(Err(error)) => Err(error),
        JoinConstraint::Absent => Ok(Seq::empty()),
        JoinConstraint::Using(_) => Err(SqlError::AsOfConstraintNotSupported),
        JoinConstraint::Natural => Err(SqlError::AsOfConstraintNotSupported),
    }
}

/// What planning an as-of join returns: the match condition has to be an inequality,
/// then the keys have to be equalities; every left row is kept, and null keys match
/// nothing.
pub open spec fn plans_asof_join(
    result: Result<JoinPlan, SqlError>,
    match_condition: Result<Arc<Expr>, SqlError>,
    constraint: JoinConstraint,
) -> bool {
    match match_condition {
        Err(error) => result == Err::<JoinPlan, SqlError>(error),
        Ok(condition) => if !is_single_inequality(*condition) {
            result == Err::<JoinPlan, SqlError>(SqlError::MatchConditionNotInequality)
        } else {
            match asof_on(constraint) {
                Err(error) => result == Err::<JoinPlan, SqlError>(error),
                Ok(keys) => {
                    &&& result is Ok
                    &&& result->Ok_0 is AsOf
                    &&& result->Ok_0->on@ == keys
                    &&& result->Ok_0->match_condition == condition
                    &&& result->Ok_0->AsOf_join_type == JoinType::Left
                    &&& result->Ok_0->null_equality == NullEquality::NullEqualsNothing
                },
            }
        },
    }
}

/// Plans an as-of join.
pub fn parse_asof_join(
    match_condition: Result<Arc<Expr>, SqlError>,
    constraint: JoinConstraint,
) -> (result: Result<JoinPlan, SqlError>)
    ensures
        plans_asof_join(result, match_condition, constraint),
{
    let match_condition = match match_condition {
        Ok(condition) => condition,
        Err(error) => return Err(error),
    };
    let is_inequality = match &*match_condition {
        Expr::Binary { op, .. } => match op {
            Operator::Lt | Operator::LtEq | Operator::Gt | Operator::GtEq => true,
            _ => false,
        },
        _ => false,
    };
    if !is_inequality {
        return Err(SqlError::MatchConditionNotInequality);
    }
    let mut on: Vec<(Arc<Expr>, Arc<Expr>)> = Vec::new();
    match constraint {
        JoinConstraint::On(Ok(expr)) => {
            if !append_keys(&*expr, &mut on) {
                return Err(SqlError::OnNotEqualities);
            }
            assert(on@ =~= equality_keys(split_conjunction(*expr)));
        },
        JoinConstraint::On(Err(error)) => return Err(error),
        JoinConstraint::Absent => {
            assert(on@ =~= Seq::empty());
        },
        JoinConstraint::Using(_) | JoinConstraint::Natural => return Err(
            SqlError::AsOfConstraintNotSupported,
        ),
    }
    Ok(
        JoinPlan::AsOf {
            on,
            match_condition,
            join_type: JoinType::Left,
            null_equality: NullEquality::NullEqualsNothing,
        },
    )
}

/// Plans a cross join.
pub fn parse_cross_join() -> (plan: JoinPlan)
    ensures
        plan == JoinPlan::Cross,
{
    JoinPlan::Cross
}

/// The column that a name in a `USING` clause stands for, or why it stands for none.
pub open spec fn using_column(name: Seq<NamePart>) -> Result<Seq<char>, SqlError> {
    if name.len() != 1 {
        Err(SqlError::UsingNotSingleIdentifier)
    } else {
        match name[0] {
            NamePart::Identifier(column) => Ok(column@),
            NamePart::Function => Err(SqlError::UsingNotIdentifier),
        }
    }
}

/// Whether some names stand for columns up to a position, and the one at it for none.
pub open spec fn first_bad_name(names: Seq<Vec<NamePart>>, at: int) -> bool {
    &&& 0 <= at < names.len()
    &&& using_column(names[at]@) is Err
    &&& forall|k: int| 0 <= k < at ==> using_column((#[trigger] names[k])@) is Ok
}

/// Texts as sequences of characters.
pub open spec fn texts(strings: Seq<String>) -> Seq<Seq<char>> {
    Seq::new(strings.len(), |k: int| strings[k]@)
}

/// The columns that both inputs have, in the order of the right input.
pub open spec fn common_columns(left: Seq<Seq<char>>, right: Seq<Seq<char>>) -> Seq<Seq<char>> {
    right.filter(|name: Seq<char>| left.contains(name))
}

/// What planning a join on a constraint returns.
pub open spec fn plans_join(
    result: Result<JoinPlan, SqlError>,
    left_columns: Seq<String>,
    right_columns: Seq<String>,
    constraint: JoinConstraint,
    join_type: JoinType,
) -> bool {
    match constraint {
        JoinConstraint::On(Ok(filter)) => result == Ok::<JoinPlan, SqlError>(
            JoinPlan::On { join_type, filter: Some(filter) },
        ),
        JoinConstraint::On(Err(error)) => result == Err::<JoinPlan, SqlError>(error),
        JoinConstraint::Absent => result == Ok::<JoinPlan, SqlError>(
            JoinPlan::On { join_type, filter: None },
        ),
        JoinConstraint::Using(names) => {
            &&& forall|at: int| #[trigger]
                first_bad_name(names@, at) ==> result == Err::<JoinPlan, SqlError>(
                    using_column(names@[at]@)->Err_0,
                )
            &&& (forall|at: int| !#[trigger] first_bad_name(names@, at)) ==> {
                &&& result is Ok
                &&& result->Ok_0 is Using
                &&& result->Ok_0->Using_join_type == join_type
                &&& texts(result->Ok_0->columns@) == Seq::new(
                    names@.len(),
                    |k: int| using_column(names@[k]@)->Ok_0,
                )
            }
        },
        JoinConstraint::Natural => {
            let common = common_columns(texts(left_columns), texts(right_columns));
            if common.len() == 0 {
                result == Ok::<JoinPlan, SqlError>(JoinPlan::Cross)
            } else {
                &&& result is Ok
                &&& result->Ok_0 is Using
                &&& result->Ok_0->Using_join_type == join_type
                &&& texts(result->Ok_0->columns@) == common
            }
        },
    }
}

/// Returns the columns that the names in a `USING` clause stand for, or why the first
/// name that stands for none does not.
fn using_columns(names: Vec<Vec<NamePart>>) -> (result: Result<Vec<String>, SqlError>)
    ensures
        forall|at: int| #[trigger]
            first_bad_name(names@, at) ==> result == Err::<Vec<String>, SqlError>(
                using_column(names@[at]@)->Err_0,
            ),
        (forall|at: int| !#[trigger] first_bad_name(names@, at)) ==> result is Ok && texts(
            result->Ok_0@,
        ) == Seq::new(names@.len(), |k: int| using_column(names@[k]@)->Ok_0),
{
    let mut columns: Vec<String> = Vec::new();
    for k in 0..names.len()
        invariant
            forall|d: int| 0 <= d < k ==> using_column((#[trigger] names@[d])@) is Ok,
            texts(columns@) == Seq::new(k as nat, |d: int| using_column(names@[d]@)->Ok_0),
    {
        let name = &names[k];
        let ghost before = columns@;
        let ghost expected = using_column(name@);
        let error = if name.len() != 1 {
            Some(SqlError::UsingNotSingleIdentifier)
        } else {
            match &name[0] {
                NamePart::Identifier(column) => {
                    columns.push(column.clone());
                    assert(texts(columns@) =~= texts(before).push(expected->Ok_0));
                    None
                },
                NamePart::Function => Some(SqlError::UsingNotIdentifier),
            }
        };
        if let Some(error) = error {
            proof {
                assert(first_bad_name(names@, k as int));
                assert forall|at: int| #[trigger] first_bad_name(names@, at) implies at == k by {
                    if at < k {
                        assert(using_column(names@[at]@) is Ok);
                    } else if at > k {
                        assert(using_column(names@[k as int]@) is Ok);
                    }
                }
            }
            return Err(error);
        }
        assert(texts(columns@) =~= Seq::new(
            (k + 1) as nat,
            |d: int| using_column(names@[d]@)->Ok_0,
        ));
    }
    assert forall|at: int| !#[trigger] first_bad_name(names@, at) by {
        if 0 <= at < names@.len() {
            assert(using_column(names@[at]@) is Ok);
        }
    }
    Ok(columns)
}

/// Returns whether a name is among some columns.
fn contains_name(columns: &Vec<String>, name: &String) -> (contains: bool)
    ensures
        contains == texts(columns@).contains(name@),
{
    for k in 0..columns.len()
        invariant
            forall|d: int| 0 <= d < k ==> (#[trigger] columns@[d])@ != name@,
    {
        if columns[k] == *name {
            assert(texts(columns@)[k as int] == name@);
            return true;
        }
    }
    assert forall|d: int| 0 <= d < texts(columns@).len() implies texts(columns@)[d] != name@ by {
        assert(columns@[d]@ != name@);
    }
    false
}

/// Returns the columns that both inputs have, in the order of the right input.
fn natural_columns(left_columns: &Vec<String>, right_columns: &Vec<String>) -> (columns: Vec<
    String,
>)
    ensures
        texts(columns@) == common_columns(texts(left_columns@), texts(right_columns@)),
{
    let ghost left = texts(left_columns@);
    let ghost right = texts(right_columns@);
    let ghost is_common = |name: Seq<char>| left.contains(name);
    let mut columns: Vec<String> = Vec::new();
    assert(right.take(0) =~= Seq::<Seq<char>>::empty());
    proof {
        reveal(Seq::filter);
    }
    assert(texts(columns@) =~= right.take(0).filter(is_common));
    for k in 0..right_columns.len()
        invariant
            left == texts(left_columns@),
            right == texts(right_columns@),
            is_common == (|name: Seq<char>| left.contains(name)),
            texts(columns@) == right.take(k as int).filter(is_common),
    {
        let name = &right_columns[k];
        let ghost before = columns@;
        if contains_name(left_columns, name) {
            columns.push(name.clone());
            assert(texts(columns@) =~= texts(before).push(name@));
        }
        proof {
            reveal(Seq::filter);
            let taken = right.take(k + 1);
            assert(taken.drop_last() =~= right.take(k as int));
            assert(taken.last() == name@);
        }
    }
    assert(right.take(right.len() as int) =~= right);
    columns
}

/// Plans a join on a constraint.
pub fn parse_join(
    left_columns: &Vec<String>,
    right_columns: &Vec<String>,
    constraint: JoinConstraint,
    join_type: JoinType,
) -> (result: Result<JoinPlan, SqlError>)
    ensures
        plans_join(result, left_columns@, right_columns@, constraint, join_type),
{
    match constraint {
        JoinConstraint::On(Ok(filter)) => Ok(JoinPlan::On { join_type, filter: Some(filter) }),
        JoinConstraint::On(Err(error)) => Err(error),
        JoinConstraint::Using(names) => match using_columns(names) {
            Ok(columns) => Ok(JoinPlan::Using { join_type, columns }),
            Err(error) => Err(error),
        },
        JoinConstraint::Natural => {
            let columns = natural_columns(left_columns, right_columns);
            assert(texts(columns@).len() == columns@.len());
            if columns.len() == 0 {
                Ok(parse_cross_join())
            } else {
                Ok(JoinPlan::Using { join_type, columns })
            }
        },
        JoinConstraint::Absent => Ok(JoinPlan::On { join_type, filter: None }),
    }
}

/// The type of the join that an operator with a constraint stands for.
pub open spec fn join_type_of(operator: JoinOperator) -> Option<(JoinType, JoinConstraint)> {
    match operator {
        JoinOperator::LeftOuter(constraint) => Some((JoinType::Left, constraint)),
        JoinOperator::Left(constraint) => Some((JoinType::Left, constraint)),
        JoinOperator::RightOuter(constraint) => Some((JoinType::Right, constraint)),
        JoinOperator::Right(constraint) => Some((JoinType::Right, constraint)),
        JoinOperator::Inner(constraint) => Some((JoinType::Inner, constraint)),
        JoinOperator::Join(constraint) => Some((JoinType::Inner, constraint)),
        JoinOperator::LeftSemi(constraint) => Some((JoinType::LeftSemi, constraint)),
        JoinOperator::RightSemi(constraint) => Some((JoinType::RightSemi, constraint)),
        JoinOperator::LeftAnti(constraint) => Some((JoinType::LeftAnti, constraint)),
        JoinOperator::RightAnti(constraint) => Some((JoinType::RightAnti, constraint)),
        JoinOperator::FullOuter(constraint) => Some((JoinType::Full, constraint)),
        _ => None,
    }
}

/// What planning the join of a relation returns, once the relation has been planned.
pub open spec fn plans_operator(
    result: Result<JoinPlan, SqlError>,
    left_columns: Seq<String>,
    right_columns: Seq<String>,
    operator: JoinOperator,
) -> bool {
    match join_type_of(operator) {
        Some((join_type, constraint)) => plans_join(
            result,
            left_columns,
            right_columns,
            constraint,
            join_type,
        ),
        None => match operator {
            JoinOperator::CrossJoin(JoinConstraint::Absent) => result == Ok::<JoinPlan, SqlError>(
                JoinPlan::Cross,
            ),
            JoinOperator::AsOf { match_condition, constraint } => plans_asof_join(
                result,
                match_condition,
                constraint,
            ),
            _ => result == Err::<JoinPlan, SqlError>(SqlError::UnsupportedJoinOperator),
        },
    }
}

/// Plans the join of a relation to what stands before it. `right_columns` are the
/// columns of the relation, or why it could not be planned.
pub fn parse_relation_join(
    left_columns: &Vec<String>,
    right_columns: Result<Vec<String>, SqlError>,
    join: Join,
) -> (result: Result<JoinPlan, SqlError>)
    ensures
        match (lateral_join(join), right_columns) {
            (Err(error), _) => result == Err::<JoinPlan, SqlError>(error),
            (Ok(_), Err(error)) => result == Err::<JoinPlan, SqlError>(error),
            (Ok(_), Ok(columns)) => plans_operator(
                result,
                left_columns@,
                columns@,
                join.join_operator,
            ),
        },
{
    match is_lateral_join(&join) {
        Ok(_) => {},
        Err(error) => return Err(error),
    }
    let right_columns = match right_columns {
        Ok(columns) => columns,
        Err(error) => return Err(error),
    };
    let (join_type, constraint) = match join.join_operator {
        JoinOperator::LeftOuter(constraint) | JoinOperator::Left(constraint) => (
            JoinType::Left,
            constraint,
        ),
        JoinOperator::RightOuter(constraint) | JoinOperator::Right(constraint) => (
            JoinType::Right,
            constraint,
        ),
        JoinOperator::Inner(constraint) | JoinOperator::Join(constraint) => (
            JoinType::Inner,
            constraint,
        ),
        JoinOperator::LeftSemi(constraint) => (JoinType::LeftSemi, constraint),
        JoinOperator::RightSemi(constraint) => (JoinType::RightSemi, constraint),
        JoinOperator::LeftAnti(constraint) => (JoinType::LeftAnti, constraint),
        JoinOperator::RightAnti(constraint) => (JoinType::RightAnti, constraint),
        JoinOperator::FullOuter(constraint) => (JoinType::Full, constraint),
        JoinOperator::CrossJoin(JoinConstraint::Absent) => return Ok(parse_cross_join()),
        JoinOperator::AsOf { match_condition, constraint } => return parse_asof_join(
            match_condition,
            constraint,
        ),
        _ => return Err(SqlError::UnsupportedJoinOperator),
    };
    parse_join(left_columns, &right_columns, constraint, join_type)
}

/// The steps that plan a table with its joins.
pub open spec fn table_steps(relation: TableFactor, joins: nat) -> Seq<PlanStep> {
    seq![
        PlanStep::CreateRelation { subquery: is_lateral_factor(relation) },
        PlanStep::SaveOuterSchema,
    ] + join_steps(joins) + seq![PlanStep::RestoreOuterSchema]
}

/// The steps that plan the first `n` joins of a table.
pub open spec fn join_steps(n: nat) -> Seq<PlanStep>
    decreases n,
{
    if n == 0 {
        Seq::empty()
    } else {
        join_steps((n - 1) as nat) + seq![
            PlanStep::ExtendOuterSchema,
            PlanStep::JoinRelation((n - 1) as usize),
        ]
    }
}

/// Returns the steps that plan a table with its joins. Planning ends at the first step
/// that fails.
pub fn plan_table_with_joins(relation: &TableFactor, joins: usize) -> (steps: Vec<PlanStep>)
    ensures
        steps@ == table_steps(*relation, joins as nat),
{
    let mut steps: Vec<PlanStep> = Vec::new();
    steps.push(PlanStep::CreateRelation { subquery: is_lateral(relation) });
    steps.push(PlanStep::SaveOuterSchema);
    let ghost start = steps@;
    assert(start + join_steps(0) =~= start);
    for k in 0..joins
        invariant
            steps@ == start + join_steps(k as nat),
    {
        steps.push(PlanStep::ExtendOuterSchema);
        steps.push(PlanStep::JoinRelation(k));
        assert(steps@ =~= start + join_steps((k + 1) as nat));
    }
    steps.push(PlanStep::RestoreOuterSchema);
    assert(steps@ =~= table_steps(*relation, joins as nat));
    steps
}

/// Every as-of join that is planned keeps every left row, takes no null keys as equal,
/// searches by a single inequality, and has its keys oriented: the first of each pair
/// is of the left input, the second of the right one.
pub proof fn planned_asof_joins_are_oriented_left_joins(
    plan: JoinPlan,
    match_condition: Result<Arc<Expr>, SqlError>,
    constraint: JoinConstraint,
)
    requires
        plans_asof_join(Ok(plan), match_condition, constraint),
    ensures
        plan is AsOf,
        plan->AsOf_join_type == JoinType::Left,
        plan->null_equality == NullEquality::NullEqualsNothing,
        is_single_inequality(*plan->match_condition),
        forall|k: int|
            0 <= k < plan->on@.len() ==> is_of_left(*(#[trigger] plan->on@[k]).0) && is_of_right(
                *plan->on@[k].1,
            ),
{
    if let JoinConstraint::On(Ok(on)) = constraint {
        let conjuncts = conjuncts_of(on);
        assert forall|k: int| 0 <= k < plan->on@.len() implies is_of_left(
            *(#[trigger] plan->on@[k]).0,
        ) && is_of_right(*plan->on@[k].1) by {
            assert(equality_key(conjuncts[k]) is Some);
        }
    }
}

/// Which side of an equality belongs to which input does not matter, unless both ways
/// would do.
pub proof fn operand_order_does_not_matter(left: Arc<Expr>, right: Arc<Expr>)
    requires
        !(is_of_left(*left) && is_of_right(*right) && is_of_left(*right) && is_of_right(*left)),
    ensures
        key_pair(left, right) == key_pair(right, left),
{
}

/// A natural join is on exactly the columns that both inputs have.
pub proof fn natural_columns_are_common(
    left: Seq<Seq<char>>,
    right: Seq<Seq<char>>,
    column: Seq<char>,
)
    ensures
        common_columns(left, right).contains(column) <==> left.contains(column) && right.contains(
            column,
        ),
    decreases right.len(),
{
    let is_common = |name: Seq<char>| left.contains(name);
    reveal(Seq::filter);
    if right.len() > 0 {
        let rest = right.drop_last();
        natural_columns_are_common(left, rest, column);
        let before = common_columns(left, rest);
        let after = common_columns(left, right);
        if left.contains(right.last()) {
            assert(after == before.push(right.last()));
            assert(after.last() == right.last());
            assert forall|k: int| 0 <= k < before.len() implies after[k]
                == #[trigger] before[k] by {}
        } else {
            assert(after == before);
        }
        if right.contains(column) {
            let k = choose|k: int| 0 <= k < right.len() && right[k] == column;
            if k < rest.len() {
                assert(rest[k] == column);
            }
        }
        if rest.contains(column) {
            let k = choose|k: int| 0 <= k < rest.len() && rest[k] == column;
            assert(right[k] == column);
        }
        if before.contains(column) {
            let k = choose|k: int| 0 <= k < before.len() && before[k] == column;
            assert(after[k] == column);
        }
        assert(right[right.len() - 1] == right.last());
    }
}

} // verus!
