//! Text that plans are displayed with.
use crate::condition::AsOfJoinDirection;
use crate::expr::{PhysicalExpr, PhysicalExprRef};
use crate::types::JoinType;
use vstd::prelude::*;

verus! {

/// The decimal digit for a number below ten.
pub open spec fn digit(n: nat) -> char {
    (48 + n) as char
}

/// The decimal digits of a number.
pub open spec fn decimal(n: nat) -> Seq<char>
    decreases n,
{
    if n < 10 {
        seq![digit(n)]
    } else {
        decimal(n / 10).push(digit(n % 10))
    }
}

/// Appends the decimal digits of a number.
pub(crate) fn append_decimal(text: &mut String, n: usize)
    ensures
        final(text)@ == old(text)@ + decimal(n as nat),
    decreases n,
{
    if n >= 10 {
        append_decimal(text, n / 10);
    }
    let ghost before = text@;
    proof {
        reveal_strlit("0");
        reveal_strlit("1");
        reveal_strlit("2");
        reveal_strlit("3");
        reveal_strlit("4");
        reveal_strlit("5");
        reveal_strlit("6");
        reveal_strlit("7");
        reveal_strlit("8");
        reveal_strlit("9");
    }
    let last: usize = n % 10;
    if last == 0 {
        text.append("0");
    } else if last == 1 {
        text.append("1");
    } else if last == 2 {
        text.append("2");
    } else if last == 3 {
        text.append("3");
    } else if last == 4 {
        text.append("4");
    } else if last == 5 {
        text.append("5");
    } else if last == 6 {
        text.append("6");
    } else if last == 7 {
        text.append("7");
    } else if last == 8 {
        text.append("8");
    } else {
        text.append("9");
    }
    assert(text@ =~= before.push(digit(last as nat)));
    assert(text@ =~= old(text)@ + decimal(n as nat));
}

/// The SQL text of an expression.
pub open spec fn sql_text(expr: PhysicalExpr) -> Seq<char> {
    match expr {
        PhysicalExpr::Column(column) => column.name@,
        PhysicalExpr::Literal { sql, .. } => sql@,
        PhysicalExpr::Binary { sql, .. } => sql@,
        PhysicalExpr::Other { sql, .. } => sql@,
    }
}

/// Returns the SQL text of an expression.
pub fn fmt_sql(expr: &PhysicalExpr) -> (sql: &str)
    ensures
        sql@ == sql_text(*expr),
{
    match expr {
        PhysicalExpr::Column(column) => column.name.as_str(),
        PhysicalExpr::Literal { sql, .. } => sql.as_str(),
        PhysicalExpr::Binary { sql, .. } => sql.as_str(),
        PhysicalExpr::Other { sql, .. } => sql.as_str(),
    }
}

/// The name of a join type.
pub open spec fn join_type_text(join_type: JoinType) -> Seq<char> {
    match join_type {
        JoinType::Inner => "Inner"@,
        JoinType::Left => "Left"@,
        JoinType::Right => "Right"@,
        JoinType::Full => "Full"@,
        JoinType::LeftSemi => "LeftSemi"@,
        JoinType::RightSemi => "RightSemi"@,
        JoinType::LeftAnti => "LeftAnti"@,
        JoinType::RightAnti => "RightAnti"@,
        JoinType::LeftMark => "LeftMark"@,
        JoinType::RightMark => "RightMark"@,
    }
}

/// Returns the name of a join type.
pub fn join_type_name(join_type: JoinType) -> (name: &'static str)
    ensures
        name@ == join_type_text(join_type),
{
    match join_type {
        JoinType::Inner => "Inner",
        JoinType::Left => "Left",
        JoinType::Right => "Right",
        JoinType::Full => "Full",
        JoinType::LeftSemi => "LeftSemi",
        JoinType::RightSemi => "RightSemi",
        JoinType::LeftAnti => "LeftAnti",
        JoinType::RightAnti => "RightAnti",
        JoinType::LeftMark => "LeftMark",
        JoinType::RightMark => "RightMark",
    }
}

/// The inequality sign of a search direction.
pub open spec fn inequality_text(direction: AsOfJoinDirection, strict: bool) -> Seq<char> {
    match (direction, strict) {
        (AsOfJoinDirection::Backward, true) => ">"@,
        (AsOfJoinDirection::Backward, false) => ">="@,
        (AsOfJoinDirection::Forward, true) => "<"@,
        (AsOfJoinDirection::Forward, false) => "<="@,
    }
}

/// Returns the inequality sign of a search direction.
pub fn inequality_sign(direction: AsOfJoinDirection, strict: bool) -> (sign: &'static str)
    ensures
        sign@ == inequality_text(direction, strict),
{
    match (direction, strict) {
        (AsOfJoinDirection::Backward, true) => ">",
        (AsOfJoinDirection::Backward, false) => ">=",
        (AsOfJoinDirection::Forward, true) => "<",
        (AsOfJoinDirection::Forward, false) => "<=",
    }
}

/// Texts with a separator between each two.
pub open spec fn separated(texts: Seq<Seq<char>>, separator: Seq<char>) -> Seq<char>
    decreases texts.len(),
{
    if texts.len() == 0 {
        Seq::empty()
    } else if texts.len() == 1 {
        texts[0]
    } else {
        separated(texts.drop_last(), separator) + separator + texts.last()
    }
}

/// The text of a pair of equality keys.
pub open spec fn pair_text(pair: (PhysicalExprRef, PhysicalExprRef)) -> Seq<char> {
    "("@ + sql_text(*pair.0) + ", "@ + sql_text(*pair.1) + ")"@
}

/// The text of equality keys.
pub open spec fn on_text(on: Seq<(PhysicalExprRef, PhysicalExprRef)>) -> Seq<char> {
    separated(Seq::new(on.len(), |k: int| pair_text(on[k])), ", "@)
}

/// Appends the text of equality keys.
pub(crate) fn append_on(text: &mut String, on: &Vec<(PhysicalExprRef, PhysicalExprRef)>)
    ensures
        final(text)@ == old(text)@ + on_text(on@),
{
    let ghost texts = Seq::new(on@.len(), |k: int| pair_text(on@[k]));
    assert(texts.take(0) =~= Seq::<Seq<char>>::empty());
    assert(text@ =~= old(text)@ + separated(texts.take(0), ", "@));
    for k in 0..on.len()
        invariant
            texts == Seq::new(on@.len(), |k: int| pair_text(on@[k])),
            text@ == old(text)@ + separated(texts.take(k as int), ", "@),
    {
        let ghost before = text@;
        if k > 0 {
            text.append(", ");
        }
        let pair = &on[k];
        text.append("(");
        text.append(fmt_sql(&*pair.0));
        text.append(", ");
        text.append(fmt_sql(&*pair.1));
        text.append(")");
        proof {
            assert(texts.take(k + 1).drop_last() =~= texts.take(k as int));
            assert(texts.take(k + 1).last() == pair_text(on@[k as int]));
            assert(text@ =~= old(text)@ + separated(texts.take(k + 1), ", "@));
        }
    }
    assert(texts.take(on@.len() as int) =~= texts);
}

} // verus!
