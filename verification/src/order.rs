//! The mathematical order on keys: values, nullable cells, rows of cells and
//! encoded rows.
use vstd::prelude::*;

verus! {

/// Sort order of one key column.
#[derive(Debug, Clone, Copy, PartialEq, Eq, Structural)]
pub struct SortOptions {
    /// Whether greater values come first.
    pub descending: bool,
    /// Whether nulls come before all values.
    pub nulls_first: bool,
}

impl SortOptions {
    /// Creates sort options.
    pub fn new(descending: bool, nulls_first: bool) -> (options: SortOptions)
        ensures
            options == (SortOptions { descending, nulls_first }),
    {
        SortOptions { descending, nulls_first }
    }
}

/// What one non-null slot of a column holds.
pub enum Value {
    Boolean(bool),
    Int(int),
    Text(Seq<char>),
}

/// The lexicographic order on sequences of integers; a proper prefix comes
/// before the sequence that it starts.
pub open spec fn lex_less(a: Seq<int>, b: Seq<int>) -> bool
    decreases a.len(),
{
    if b.len() == 0 {
        false
    } else if a.len() == 0 {
        true
    } else {
        a[0] < b[0] || (a[0] == b[0] && lex_less(a.drop_first(), b.drop_first()))
    }
}

/// The code points of a text.
pub open spec fn code_points(s: Seq<char>) -> Seq<int> {
    s.map_values(|c: char| c as int)
}

/// The order on values of one type: `false` before `true`, integers by value,
/// texts by code point. Values of different types compare by type.
pub open spec fn value_less(a: Value, b: Value) -> bool {
    match (a, b) {
        (Value::Boolean(x), Value::Boolean(y)) => !x && y,
        (Value::Int(x), Value::Int(y)) => x < y,
        (Value::Text(x), Value::Text(y)) => lex_less(code_points(x), code_points(y)),
        (Value::Boolean(_), _) => true,
        (Value::Int(_), Value::Text(_)) => true,
        _ => false,
    }
}

/// The order on nullable slots under the given options.
pub open spec fn cell_less(a: Option<Value>, b: Option<Value>, options: SortOptions) -> bool {
    match (a, b) {
        (Some(x), Some(y)) => if options.descending {
            value_less(y, x)
        } else {
            value_less(x, y)
        },
        (Some(_), None) => !options.nulls_first,
        (None, Some(_)) => options.nulls_first,
        (None, None) => false,
    }
}

/// The order on rows of equally many slots: the first slot that differs decides.
pub open spec fn row_less(
    a: Seq<Option<Value>>,
    b: Seq<Option<Value>>,
    options: Seq<SortOptions>,
) -> bool {
    exists|k: int|
        0 <= k < a.len() && k < b.len() && a.take(k) == b.take(k) && #[trigger] cell_less(
            a[k],
            b[k],
            options[k],
        )
}

/// The order on encoded rows: bytes compare as unsigned integers, the first byte
/// that differs decides, a proper prefix comes first.
pub open spec fn bytes_less(a: Seq<u8>, b: Seq<u8>) -> bool {
    lex_less(byte_values(a), byte_values(b))
}

/// The bytes of an encoded row as integers.
pub open spec fn byte_values(s: Seq<u8>) -> Seq<int> {
    s.map_values(|b: u8| b as int)
}

/// No sequence is less than itself.
pub proof fn lex_irreflexive(a: Seq<int>)
    ensures
        !lex_less(a, a),
    decreases a.len(),
{
    if a.len() > 0 {
        lex_irreflexive(a.drop_first());
    }
}

/// The lexicographic order is transitive.
pub proof fn lex_transitive(a: Seq<int>, b: Seq<int>, c: Seq<int>)
    requires
        lex_less(a, b),
        lex_less(b, c),
    ensures
        lex_less(a, c),
    decreases a.len(),
{
    if a.len() > 0 && b.len() > 0 && c.len() > 0 && a[0] == b[0] && b[0] == c[0] {
        lex_transitive(a.drop_first(), b.drop_first(), c.drop_first());
    }
}

/// Of two sequences one is less, unless they are equal.
pub proof fn lex_total(a: Seq<int>, b: Seq<int>)
    ensures
        lex_less(a, b) || lex_less(b, a) || a == b,
    decreases a.len(),
{
    if a.len() > 0 && b.len() > 0 {
        lex_total(a.drop_first(), b.drop_first());
        if a[0] == b[0] && a.drop_first() == b.drop_first() {
            assert(a =~= seq![a[0]] + a.drop_first());
            assert(b =~= seq![b[0]] + b.drop_first());
        }
    } else {
        assert(a.len() == b.len() ==> a =~= b);
    }
}

/// The order on values is a strict total order.
pub proof fn value_order(a: Value, b: Value, c: Value)
    ensures
        !value_less(a, a),
        value_less(a, b) && value_less(b, c) ==> value_less(a, c),
        value_less(a, b) || value_less(b, a) || a == b,
        !(value_less(a, b) && value_less(b, a)),
{
    if let Value::Text(x) = a {
        lex_irreflexive(code_points(x));
        if let Value::Text(y) = b {
            lex_total(code_points(x), code_points(y));
            if code_points(x) == code_points(y) {
                code_points_injective(x, y);
            }
            if value_less(a, b) && value_less(b, a) {
                lex_transitive(code_points(x), code_points(y), code_points(x));
            }
            if let Value::Text(z) = c {
                if value_less(a, b) && value_less(b, c) {
                    lex_transitive(code_points(x), code_points(y), code_points(z));
                }
            }
        }
    }
}

/// Texts with the same code points are the same.
proof fn code_points_injective(a: Seq<char>, b: Seq<char>)
    requires
        code_points(a) == code_points(b),
    ensures
        a == b,
{
    assert(a.len() == code_points(a).len());
    assert(b.len() == code_points(b).len());
    assert forall|i: int| 0 <= i < a.len() implies a[i] == b[i] by {
        assert(code_points(a)[i] == a[i] as int);
        assert(code_points(b)[i] == b[i] as int);
    }
    assert(a =~= b);
}

/// The order on encoded rows is a strict total order.
pub proof fn bytes_order(a: Seq<u8>, b: Seq<u8>, c: Seq<u8>)
    ensures
        !bytes_less(a, a),
        bytes_less(a, b) && bytes_less(b, c) ==> bytes_less(a, c),
        bytes_less(a, b) || bytes_less(b, a) || a == b,
        !(bytes_less(a, b) && bytes_less(b, a)),
        !bytes_less(b, a) && !bytes_less(c, b) ==> !bytes_less(c, a),
{
    lex_irreflexive(byte_values(a));
    if bytes_less(a, b) && bytes_less(b, c) {
        lex_transitive(byte_values(a), byte_values(b), byte_values(c));
    }
    if bytes_less(a, b) && bytes_less(b, a) {
        lex_transitive(byte_values(a), byte_values(b), byte_values(a));
    }
    lex_total(byte_values(a), byte_values(b));
    lex_total(byte_values(b), byte_values(c));
    if byte_values(a) == byte_values(b) {
        byte_values_injective(a, b);
    }
    if byte_values(b) == byte_values(c) {
        byte_values_injective(b, c);
    }
    if !bytes_less(b, a) && !bytes_less(c, b) && bytes_less(c, a) {
        if bytes_less(a, b) {
            lex_transitive(byte_values(c), byte_values(a), byte_values(b));
        }
    }
}

/// Encoded rows with the same bytes are the same.
proof fn byte_values_injective(a: Seq<u8>, b: Seq<u8>)
    requires
        byte_values(a) == byte_values(b),
    ensures
        a == b,
{
    assert(a.len() == byte_values(a).len());
    assert(b.len() == byte_values(b).len());
    assert forall|i: int| 0 <= i < a.len() implies a[i] == b[i] by {
        assert(byte_values(a)[i] == a[i] as int);
        assert(byte_values(b)[i] == b[i] as int);
    }
    assert(a =~= b);
}

/// A row that is one slot longer compares by the shorter rows first, and by the
/// last slot where those are equal.
pub proof fn row_less_push(
    a: Seq<Option<Value>>,
    b: Seq<Option<Value>>,
    options: Seq<SortOptions>,
    last_a: Option<Value>,
    last_b: Option<Value>,
    last_options: SortOptions,
)
    requires
        a.len() == b.len() == options.len(),
    ensures
        row_less(a.push(last_a), b.push(last_b), options.push(last_options)) <==> (row_less(
            a,
            b,
            options,
        ) || (a == b && cell_less(last_a, last_b, last_options))),
{
    let pa = a.push(last_a);
    let pb = b.push(last_b);
    let po = options.push(last_options);
    let n = a.len() as int;
    if row_less(pa, pb, po) {
        let k = choose|k: int|
            0 <= k < pa.len() && k < pb.len() && pa.take(k) == pb.take(k) && #[trigger] cell_less(
                pa[k],
                pb[k],
                po[k],
            );
        if k < n {
            assert(a.take(k) =~= pa.take(k));
            assert(b.take(k) =~= pb.take(k));
            assert(cell_less(a[k], b[k], options[k]));
        } else {
            assert(pa.take(n) =~= a);
            assert(pb.take(n) =~= b);
        }
    }
    if row_less(a, b, options) {
        let k = choose|k: int|
            0 <= k < a.len() && k < b.len() && a.take(k) == b.take(k) && #[trigger] cell_less(
                a[k],
                b[k],
                options[k],
            );
        assert(a.take(k) =~= pa.take(k));
        assert(b.take(k) =~= pb.take(k));
        assert(cell_less(pa[k], pb[k], po[k]));
    }
    if a == b && cell_less(last_a, last_b, last_options) {
        assert(pa.take(n) =~= a);
        assert(pb.take(n) =~= b);
        assert(cell_less(pa[n], pb[n], po[n]));
    }
}

/// Of two different rows of equally many slots one comes first; no row comes before
/// itself; and of two rows in order, any third one comes after the first or before the
/// second.
pub proof fn row_order(
    a: Seq<Option<Value>>,
    b: Seq<Option<Value>>,
    c: Seq<Option<Value>>,
    options: Seq<SortOptions>,
)
    requires
        a.len() == b.len() == c.len() == options.len(),
    ensures
        row_less(a, b, options) || row_less(b, a, options) || a == b,
        !row_less(a, a, options),
        row_less(a, c, options) ==> row_less(a, b, options) || row_less(b, c, options),
    decreases a.len(),
{
    if a.len() == 0 {
        assert(a =~= b);
    } else {
        let (x, y, z) = (a.last(), b.last(), c.last());
        let (ra, rb, rc) = (a.drop_last(), b.drop_last(), c.drop_last());
        let rest = options.drop_last();
        let last = options.last();
        row_order(ra, rb, rc, rest);
        assert(a =~= ra.push(x));
        assert(b =~= rb.push(y));
        assert(c =~= rc.push(z));
        assert(options =~= rest.push(last));
        row_less_push(ra, rb, rest, x, y, last);
        row_less_push(rb, ra, rest, y, x, last);
        row_less_push(rb, rc, rest, y, z, last);
        row_less_push(ra, rc, rest, x, z, last);
        row_less_push(ra, ra, rest, x, x, last);
        cell_order(x, y, z, last);
    }
}

/// The order on nullable slots, likewise.
proof fn cell_order(a: Option<Value>, b: Option<Value>, c: Option<Value>, options: SortOptions)
    ensures
        cell_less(a, b, options) || cell_less(b, a, options) || a == b,
        !cell_less(a, a, options),
        cell_less(a, c, options) ==> cell_less(a, b, options) || cell_less(b, c, options),
{
    if a is Some {
        value_order(a->0, a->0, a->0);
    }
    if a is Some && b is Some {
        value_order(a->0, b->0, a->0);
    }
    if a is Some && b is Some && c is Some {
        value_order(b->0, a->0, c->0);
        value_order(c->0, a->0, b->0);
        value_order(a->0, b->0, c->0);
        value_order(a->0, c->0, b->0);
        value_order(b->0, c->0, a->0);
        value_order(c->0, b->0, a->0);
    }
}

/// Rows of one slot compare as that slot does.
pub proof fn row_less_single(a: Option<Value>, b: Option<Value>, options: SortOptions)
    ensures
        row_less(seq![a], seq![b], seq![options]) <==> cell_less(a, b, options),
{
    let e = Seq::<Option<Value>>::empty();
    let o = Seq::<SortOptions>::empty();
    row_less_push(e, e, o, a, b, options);
    assert(e.push(a) =~= seq![a]);
    assert(e.push(b) =~= seq![b]);
    assert(o.push(options) =~= seq![options]);
}

} // verus!
