# asof_join

An as-of join pairs every row of a left input with the single nearest row of a right
input: among the right rows with equal equality keys, the one whose as-of key comes
closest to the left row's without violating an inequality. A left join keeps left rows
that have no such partner; an inner join drops them.

This crate plans and runs such joins, and decides when other joins are run as one. Its
decisions are written in Verus: every function states what it returns, and is proved to
return it.

## Layout

- `src/order.rs`, `array.rs`, `batch.rs`, `expr.rs`, `types.rs`, `error.rs`: values and
  their order, columns, batches, expressions.
- `src/rows.rs`, `shared.rs`: what is taken from `arrow` and `std` without proof, with the
  contracts that the proofs rest on.
- `src/condition.rs`, `eval.rs`, `sort.rs`, `keys.rs`, `merge.rs`, `join.rs`: the join
  itself, from key columns to joined rows.
- `src/asof.rs`, `laws.rs`, `repeated.rs`: what an as-of join is, what holds of every one,
  and what holds of several joins of the same rows.
- `src/plan.rs`, `exec.rs`, `stream.rs`, `text.rs`: the plan of a join, its display, and
  the stream of batches it produces.
- `src/predicates.rs`, `selection.rs`, `tree.rs`: the rule that selects how joins are run,
  on one join and on a whole plan.
- `src/sql.rs`: the joins of a `FROM` clause.
- `app/`: ordinary Rust around the library, for Arrow batches, polled streams, plan trees
  and SQL syntax trees.
- `tests/`: runs the library.

## What the contracts say

Keys are columns of values, computed by whoever knows the key expressions: evaluating an
expression is left to the caller, and `eval::evaluate_side` says in which order and up to
which failure it is asked for. `join::join_asof` and `join::join_asof_on_keys` state that,
where every key has one type on both sides, their output holds for every left row, in key
order, the nearest right row that qualifies, or none where none does
(`asof::AsOfInputs::is_asof_join`). Which of several equally near right rows is taken is
left open: the sort is not stable.

A join with equality keys asks for inputs that are hash-partitioned on them and joins each
partition by itself; `repeated::parts_together_are_the_whole` states that this returns the
rows of a join of the whole, where every key has one type on both sides and right rows that
agree on all keys hold the same in the output. A join without equality keys asks for
single-partition inputs.
