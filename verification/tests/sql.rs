//! How the joins of a `FROM` clause are planned.
use asof_join::expr::Operator;
use asof_join::sql::{
    find_valid_equijoin_key_pair, is_lateral, is_lateral_join, parse_asof_join, parse_cross_join,
    parse_join, parse_relation_join, plan_table_with_joins, ColumnRef, Expr, Join,
    JoinConstraint, JoinOperator, JoinPlan, NamePart, PlanStep, SqlError, TableFactor,
};
use asof_join::types::{JoinType, NullEquality};
use std::sync::Arc;

fn column(name: &str, in_left: bool, in_right: bool) -> ColumnRef {
    ColumnRef { name: name.to_string(), in_left, in_right }
}

fn left(name: &str) -> Arc<Expr> {
    Arc::new(Expr::Column(column(name, true, false)))
}

fn right(name: &str) -> Arc<Expr> {
    Arc::new(Expr::Column(column(name, false, true)))
}

fn binary(left: Arc<Expr>, op: Operator, right: Arc<Expr>) -> Arc<Expr> {
    Arc::new(Expr::Binary { left, op, right })
}

fn names(names: Vec<&str>) -> Vec<String> {
    names.into_iter().map(|name| name.to_string()).collect()
}

fn identifier(name: &str) -> NamePart {
    NamePart::Identifier(name.to_string())
}

fn failed(reason: &str) -> SqlError {
    SqlError::Planning(reason.to_string())
}

fn match_condition() -> Arc<Expr> {
    binary(left("q.t"), Operator::GtEq, right("tr.t"))
}

fn asof(constraint: JoinConstraint) -> Result<JoinPlan, SqlError> {
    parse_asof_join(Ok(match_condition()), constraint)
}

fn asof_keys(on: Arc<Expr>) -> Result<Vec<(Arc<Expr>, Arc<Expr>)>, SqlError> {
    match asof(JoinConstraint::On(Ok(on)))? {
        JoinPlan::AsOf { on, .. } => Ok(on),
        other => panic!("planned as {other:?}"),
    }
}

#[test]
fn asof_joins_are_left_joins() {
    let plan = asof(JoinConstraint::Absent);
    assert_eq!(
        plan,
        Ok(JoinPlan::AsOf {
            on: vec![],
            match_condition: match_condition(),
            join_type: JoinType::Left,
            null_equality: NullEquality::NullEqualsNothing,
        })
    );
}

#[test]
fn asof_keys_have_the_left_input_first() {
    let one = binary(left("q.symbol"), Operator::Eq, right("tr.symbol"));
    let other = binary(right("tr.venue"), Operator::Eq, left("q.venue"));
    let both = Arc::new(Expr::Alias(binary(one, Operator::And, other)));
    assert_eq!(
        asof_keys(both),
        Ok(vec![
            (left("q.symbol"), right("tr.symbol")),
            (left("q.venue"), right("tr.venue")),
        ])
    );
}

#[test]
fn asof_match_conditions_are_single_inequalities() {
    for op in [Operator::Lt, Operator::LtEq, Operator::Gt, Operator::GtEq] {
        let condition = binary(left("a"), op, right("b"));
        assert!(parse_asof_join(Ok(condition), JoinConstraint::Absent).is_ok());
    }
    for condition in [
        left("a"),
        binary(left("a"), Operator::Eq, right("b")),
        binary(match_condition(), Operator::And, match_condition()),
        Arc::new(Expr::Alias(match_condition())),
    ] {
        assert_eq!(
            parse_asof_join(Ok(condition), JoinConstraint::Natural),
            Err(SqlError::MatchConditionNotInequality)
        );
    }
    assert_eq!(
        parse_asof_join(Err(failed("no such column")), JoinConstraint::Natural),
        Err(failed("no such column"))
    );
}

#[test]
fn asof_on_clauses_are_equalities_between_the_inputs() {
    let equality = || binary(left("a"), Operator::Eq, right("b"));
    for on in [
        match_condition(),
        left("a"),
        binary(equality(), Operator::Or, equality()),
        binary(equality(), Operator::And, match_condition()),
        binary(match_condition(), Operator::And, equality()),
        binary(left("a"), Operator::Eq, left("b")),
        binary(left("a"), Operator::Eq, Arc::new(Expr::Other(vec![]))),
        binary(left("a"), Operator::Eq, binary(left("b"), Operator::Other, right("c"))),
    ] {
        assert_eq!(asof_keys(on), Err(SqlError::OnNotEqualities));
    }
    assert_eq!(
        asof(JoinConstraint::On(Err(failed("ambiguous")))),
        Err(failed("ambiguous"))
    );
    assert_eq!(
        asof(JoinConstraint::Using(vec![])),
        Err(SqlError::AsOfConstraintNotSupported)
    );
    assert_eq!(asof(JoinConstraint::Natural), Err(SqlError::AsOfConstraintNotSupported));
}

#[test]
fn key_pairs_are_oriented() {
    let sum = || binary(right("b"), Operator::Other, right("c"));
    assert_eq!(
        find_valid_equijoin_key_pair(&sum(), &left("a")),
        Some((left("a"), sum()))
    );
    let either = || Arc::new(Expr::Other(vec![column("x", true, true)]));
    assert_eq!(
        find_valid_equijoin_key_pair(&either(), &left("a")),
        Some((left("a"), either()))
    );
    let nowhere = Arc::new(Expr::Other(vec![column("x", false, false)]));
    assert_eq!(find_valid_equijoin_key_pair(&nowhere, &left("a")), None);
}

fn plan(constraint: JoinConstraint) -> Result<JoinPlan, SqlError> {
    parse_join(
        &names(vec!["id", "a", "b"]),
        &names(vec!["b", "c", "id"]),
        constraint,
        JoinType::Full,
    )
}

#[test]
fn joins_take_a_predicate_or_none() {
    let predicate = || binary(left("a"), Operator::NotEq, right("c"));
    assert_eq!(
        plan(JoinConstraint::On(Ok(predicate()))),
        Ok(JoinPlan::On { join_type: JoinType::Full, filter: Some(predicate()) })
    );
    assert_eq!(plan(JoinConstraint::On(Err(failed("typo")))), Err(failed("typo")));
    assert_eq!(
        plan(JoinConstraint::Absent),
        Ok(JoinPlan::On { join_type: JoinType::Full, filter: None })
    );
    assert_eq!(parse_cross_join(), JoinPlan::Cross);
}

#[test]
fn using_takes_single_identifiers() {
    let using = |names: Vec<Vec<NamePart>>| plan(JoinConstraint::Using(names));
    assert_eq!(
        using(vec![vec![identifier("id")], vec![identifier("b")]]),
        Ok(JoinPlan::Using { join_type: JoinType::Full, columns: names(vec!["id", "b"]) })
    );
    assert_eq!(
        using(vec![]),
        Ok(JoinPlan::Using { join_type: JoinType::Full, columns: vec![] })
    );
    assert_eq!(
        using(vec![vec![identifier("t"), identifier("id")], vec![NamePart::Function]]),
        Err(SqlError::UsingNotSingleIdentifier)
    );
    assert_eq!(
        using(vec![vec![identifier("id")], vec![NamePart::Function], vec![]]),
        Err(SqlError::UsingNotIdentifier)
    );
}

#[test]
fn natural_joins_are_on_common_columns() {
    assert_eq!(
        plan(JoinConstraint::Natural),
        Ok(JoinPlan::Using { join_type: JoinType::Full, columns: names(vec!["b", "id"]) })
    );
    let apart = parse_join(
        &names(vec!["a"]),
        &names(vec!["b"]),
        JoinConstraint::Natural,
        JoinType::Left,
    );
    assert_eq!(apart, Ok(JoinPlan::Cross));
}

fn relation_join(relation: TableFactor, join_operator: JoinOperator) -> Result<JoinPlan, SqlError> {
    let join = Join { relation, join_operator };
    parse_relation_join(&names(vec!["a"]), Ok(names(vec!["a"])), join)
}

#[test]
fn operators_stand_for_join_types() {
    let absent = || JoinConstraint::Absent;
    for (operator, join_type) in [
        (JoinOperator::Join(absent()), JoinType::Inner),
        (JoinOperator::Inner(absent()), JoinType::Inner),
        (JoinOperator::Left(absent()), JoinType::Left),
        (JoinOperator::LeftOuter(absent()), JoinType::Left),
        (JoinOperator::Right(absent()), JoinType::Right),
        (JoinOperator::RightOuter(absent()), JoinType::Right),
        (JoinOperator::FullOuter(absent()), JoinType::Full),
        (JoinOperator::LeftSemi(absent()), JoinType::LeftSemi),
        (JoinOperator::RightSemi(absent()), JoinType::RightSemi),
        (JoinOperator::LeftAnti(absent()), JoinType::LeftAnti),
        (JoinOperator::RightAnti(absent()), JoinType::RightAnti),
    ] {
        assert_eq!(
            relation_join(TableFactor::Other, operator),
            Ok(JoinPlan::On { join_type, filter: None })
        );
    }
    assert_eq!(
        relation_join(TableFactor::Other, JoinOperator::CrossJoin(absent())),
        Ok(JoinPlan::Cross)
    );
    for operator in [
        JoinOperator::CrossJoin(JoinConstraint::Natural),
        JoinOperator::CrossApply,
        JoinOperator::OuterApply,
        JoinOperator::Other,
    ] {
        assert_eq!(
            relation_join(TableFactor::Other, operator),
            Err(SqlError::UnsupportedJoinOperator)
        );
    }
}

#[test]
fn the_first_failure_is_reported() {
    let join = |relation: TableFactor| Join {
        relation,
        join_operator: JoinOperator::Right(JoinConstraint::On(Err(failed("predicate")))),
    };
    let columns = names(vec![]);
    let lateral = TableFactor::Derived { lateral: true };
    assert_eq!(
        parse_relation_join(&columns, Err(failed("relation")), join(lateral)),
        Err(SqlError::LateralNotSupported)
    );
    assert_eq!(
        parse_relation_join(&columns, Err(failed("relation")), join(TableFactor::Other)),
        Err(failed("relation"))
    );
    assert_eq!(
        parse_relation_join(&columns, Ok(vec![]), join(TableFactor::Other)),
        Err(failed("predicate"))
    );
}

#[test]
fn lateral_relations_are_recognized() {
    assert!(is_lateral(&TableFactor::Derived { lateral: true }));
    assert!(!is_lateral(&TableFactor::Derived { lateral: false }));
    assert!(is_lateral(&TableFactor::Function { lateral: true }));
    assert!(!is_lateral(&TableFactor::Function { lateral: false }));
    assert!(is_lateral(&TableFactor::Unnest));
    assert!(!is_lateral(&TableFactor::Other));
}

#[test]
fn lateral_joins_are_recognized() {
    let absent = || JoinConstraint::Absent;
    let lateral = |relation: TableFactor, join_operator: JoinOperator| {
        is_lateral_join(&Join { relation, join_operator })
    };
    let unnest = TableFactor::Unnest;
    for operator in [
        JoinOperator::FullOuter(absent()),
        JoinOperator::Right(absent()),
        JoinOperator::RightOuter(absent()),
        JoinOperator::RightAnti(absent()),
        JoinOperator::RightSemi(absent()),
    ] {
        assert_eq!(lateral(unnest, operator), Err(SqlError::LateralNotSupported));
    }
    assert_eq!(lateral(unnest, JoinOperator::Left(absent())), Ok(true));
    assert_eq!(lateral(TableFactor::Other, JoinOperator::Right(absent())), Ok(false));
    assert_eq!(lateral(TableFactor::Other, JoinOperator::CrossApply), Ok(true));
    assert_eq!(lateral(TableFactor::Other, JoinOperator::OuterApply), Ok(true));
}

#[test]
fn tables_are_planned_step_by_step() {
    assert_eq!(
        plan_table_with_joins(&TableFactor::Other, 0),
        vec![
            PlanStep::CreateRelation { subquery: false },
            PlanStep::SaveOuterSchema,
            PlanStep::RestoreOuterSchema,
        ]
    );
    assert_eq!(
        plan_table_with_joins(&TableFactor::Unnest, 2),
        vec![
            PlanStep::CreateRelation { subquery: true },
            PlanStep::SaveOuterSchema,
            PlanStep::ExtendOuterSchema,
            PlanStep::JoinRelation(0),
            PlanStep::ExtendOuterSchema,
            PlanStep::JoinRelation(1),
            PlanStep::RestoreOuterSchema,
        ]
    );
}
