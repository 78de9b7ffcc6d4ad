use vstd::prelude::*;

use crate::num::{floor_div, floor_mod, floor_div_i64, floor_mod_i64};
use crate::value::{SpecValue, Value};

verus! {

/// A pure, typed computation tree over column values and literals,
/// evaluated per key against the row's column values. Unsupported operand
/// combinations, division by zero and out-of-range results yield the sticky
/// `Error` value instead of aborting.
pub enum Expression {
    /// A constant.
    Literal(Value),
    /// The value of the column at this index in the row.
    ColumnRef(usize),
    /// Addition: integers, spans, or an instant shifted by a span.
    Plus(Box<Expression>, Box<Expression>),
    /// Subtraction: integers, spans, an instant shifted back by a span, or
    /// the span between two instants of the same kind.
    Minus(Box<Expression>, Box<Expression>),
    /// Multiplication of integers, or a span scaled by an integer.
    Times(Box<Expression>, Box<Expression>),
    /// Division of integers or spans, rounded toward negative infinity.
    FloorDiv(Box<Expression>, Box<Expression>),
    /// Remainder of integers or spans under floor division.
    FloorMod(Box<Expression>, Box<Expression>),
    /// Boolean negation.
    Not(Box<Expression>),
    /// Boolean conjunction.
    And(Box<Expression>, Box<Expression>),
    /// Boolean disjunction.
    Or(Box<Expression>, Box<Expression>),
    /// Integer comparison.
    LessThan(Box<Expression>, Box<Expression>),
    /// A conditional with a boolean scrutinee.
    IfThenElse(Box<Expression>, Box<Expression>, Box<Expression>),
}

/// Whether an integer fits the engine's machine word.
pub open spec fn fits_i64(v: int) -> bool {
    i64::MIN <= v <= i64::MAX
}

/// The sum of two evaluated values, `Error` when the operands do not
/// support addition or the result leaves the machine range.
pub open spec fn plus_spec(a: SpecValue, b: SpecValue) -> SpecValue {
    match (a, b) {
        (SpecValue::Int(x), SpecValue::Int(y)) => if fits_i64(x + y) {
            SpecValue::Int(x + y)
        } else {
            SpecValue::Error
        },
        (SpecValue::Duration(x), SpecValue::Duration(y)) => if fits_i64(x + y) {
            SpecValue::Duration(x + y)
        } else {
            SpecValue::Error
        },
        (SpecValue::DateTimeNaive(x), SpecValue::Duration(y)) => if fits_i64(x + y) {
            SpecValue::DateTimeNaive(x + y)
        } else {
            SpecValue::Error
        },
        (SpecValue::DateTimeUtc(x), SpecValue::Duration(y)) => if fits_i64(x + y) {
            SpecValue::DateTimeUtc(x + y)
        } else {
            SpecValue::Error
        },
        _ => SpecValue::Error,
    }
}

/// The difference of two evaluated values; instants of one kind subtract to
/// a span, and a span shifts an instant back.
pub open spec fn minus_spec(a: SpecValue, b: SpecValue) -> SpecValue {
    match (a, b) {
        (SpecValue::Int(x), SpecValue::Int(y)) => if fits_i64(x - y) {
            SpecValue::Int(x - y)
        } else {
            SpecValue::Error
        },
        (SpecValue::Duration(x), SpecValue::Duration(y)) => if fits_i64(x - y) {
            SpecValue::Duration(x - y)
        } else {
            SpecValue::Error
        },
        (SpecValue::DateTimeNaive(x), SpecValue::DateTimeNaive(y)) => if fits_i64(x - y) {
            SpecValue::Duration(x - y)
        } else {
            SpecValue::Error
        },
        (SpecValue::DateTimeUtc(x), SpecValue::DateTimeUtc(y)) => if fits_i64(x - y) {
            SpecValue::Duration(x - y)
        } else {
            SpecValue::Error
        },
        (SpecValue::DateTimeNaive(x), SpecValue::Duration(y)) => if fits_i64(x - y) {
            SpecValue::DateTimeNaive(x - y)
        } else {
            SpecValue::Error
        },
        (SpecValue::DateTimeUtc(x), SpecValue::Duration(y)) => if fits_i64(x - y) {
            SpecValue::DateTimeUtc(x - y)
        } else {
            SpecValue::Error
        },
        _ => SpecValue::Error,
    }
}

/// The product of two evaluated values: integers, or a span scaled by an
/// integer.
pub open spec fn times_spec(a: SpecValue, b: SpecValue) -> SpecValue {
    match (a, b) {
        (SpecValue::Int(x), SpecValue::Int(y)) => if fits_i64(x * y) {
            SpecValue::Int(x * y)
        } else {
            SpecValue::Error
        },
        (SpecValue::Duration(x), SpecValue::Int(y)) => if fits_i64(x * y) {
            SpecValue::Duration(x * y)
        } else {
            SpecValue::Error
        },
        _ => SpecValue::Error,
    }
}

/// Floor division of two evaluated values; a zero divisor is `Error`.
pub open spec fn floor_div_spec(a: SpecValue, b: SpecValue) -> SpecValue {
    match (a, b) {
        (SpecValue::Int(x), SpecValue::Int(y)) => if y == 0 || !fits_i64(floor_div(x, y)) {
            SpecValue::Error
        } else {
            SpecValue::Int(floor_div(x, y))
        },
        (SpecValue::Duration(x), SpecValue::Duration(y)) => if y == 0 || !fits_i64(
            floor_div(x, y),
        ) {
            SpecValue::Error
        } else {
            SpecValue::Int(floor_div(x, y))
        },
        (SpecValue::Duration(x), SpecValue::Int(y)) => if y == 0 || !fits_i64(floor_div(x, y)) {
            SpecValue::Error
        } else {
            SpecValue::Duration(floor_div(x, y))
        },
        _ => SpecValue::Error,
    }
}

/// Floor remainder of two evaluated values; a zero divisor is `Error`.
pub open spec fn floor_mod_spec(a: SpecValue, b: SpecValue) -> SpecValue {
    match (a, b) {
        (SpecValue::Int(x), SpecValue::Int(y)) => if y == 0 || !fits_i64(floor_mod(x, y)) {
            SpecValue::Error
        } else {
            SpecValue::Int(floor_mod(x, y))
        },
        (SpecValue::Duration(x), SpecValue::Duration(y)) => if y == 0 || !fits_i64(
            floor_mod(x, y),
        ) {
            SpecValue::Error
        } else {
            SpecValue::Duration(floor_mod(x, y))
        },
        _ => SpecValue::Error,
    }
}

/// What an expression evaluates to against the given row: deterministic,
/// side-effect free, and sticky in `Error`.
pub open spec fn eval_spec(e: Expression, row: Seq<SpecValue>) -> SpecValue
    decreases e,
{
    match e {
        Expression::Literal(v) => v@,
        Expression::ColumnRef(i) => if i < row.len() {
            row[i as int]
        } else {
            SpecValue::Error
        },
        Expression::Plus(a, b) => plus_spec(eval_spec(*a, row), eval_spec(*b, row)),
        Expression::Minus(a, b) => minus_spec(eval_spec(*a, row), eval_spec(*b, row)),
        Expression::Times(a, b) => times_spec(eval_spec(*a, row), eval_spec(*b, row)),
        Expression::FloorDiv(a, b) => floor_div_spec(eval_spec(*a, row), eval_spec(*b, row)),
        Expression::FloorMod(a, b) => floor_mod_spec(eval_spec(*a, row), eval_spec(*b, row)),
        Expression::Not(a) => match eval_spec(*a, row) {
            SpecValue::Bool(x) => SpecValue::Bool(!x),
            _ => SpecValue::Error,
        },
        Expression::And(a, b) => match (eval_spec(*a, row), eval_spec(*b, row)) {
            (SpecValue::Bool(x), SpecValue::Bool(y)) => SpecValue::Bool(x && y),
            _ => SpecValue::Error,
        },
        Expression::Or(a, b) => match (eval_spec(*a, row), eval_spec(*b, row)) {
            (SpecValue::Bool(x), SpecValue::Bool(y)) => SpecValue::Bool(x || y),
            _ => SpecValue::Error,
        },
        Expression::LessThan(a, b) => match (eval_spec(*a, row), eval_spec(*b, row)) {
            (SpecValue::Int(x), SpecValue::Int(y)) => SpecValue::Bool(x < y),
            _ => SpecValue::Error,
        },
        Expression::IfThenElse(c, t, f) => match eval_spec(*c, row) {
            SpecValue::Bool(true) => eval_spec(*t, row),
            SpecValue::Bool(false) => eval_spec(*f, row),
            _ => SpecValue::Error,
        },
    }
}

/// Adds two machine words, `Error` on overflow.
fn checked_int(x: i64, y: i64, sub: bool) -> (r: Option<i64>)
    ensures
        match r {
            Some(v) => v as int == if sub {
                x - y
            } else {
                x + y
            },
            None => !fits_i64(
                if sub {
                    x - y
                } else {
                    x + y
                },
            ),
        },
{
    if sub {
        x.checked_sub(y)
    } else {
        x.checked_add(y)
    }
}

impl Expression {
    /// Evaluates this expression against one row of column values.
    pub fn eval(&self, row: &Vec<Value>) -> (r: Value)
        ensures
            r@ == eval_spec(*self, row.deep_view()),
        decreases self,
    {
        let ghost rowv = row.deep_view();
        proof {
            assert(rowv.len() == row@.len());
            assert(forall|j: int| 0 <= j < row@.len() ==> rowv[j] == #[trigger] row@[j]@);
        }
        match self {
            Expression::Literal(v) => v.dup(),
            Expression::ColumnRef(i) => {
                if *i < row.len() {
                    row[*i].dup()
                } else {
                    Value::Error
                }
            },
            Expression::Plus(a, b) => {
                let va = a.eval(row);
                let vb = b.eval(row);
                match (va, vb) {
                    (Value::Int(x), Value::Int(y)) => match checked_int(x, y, false) {
                        Some(v) => Value::Int(v),
                        None => Value::Error,
                    },
                    (Value::Duration(x), Value::Duration(y)) => match checked_int(
                        x.nanoseconds(),
                        y.nanoseconds(),
                        false,
                    ) {
                        Some(v) => Value::Duration(crate::time::Duration::new(v)),
                        None => Value::Error,
                    },
                    (Value::DateTimeNaive(x), Value::Duration(y)) => match checked_int(
                        x.timestamp(),
                        y.nanoseconds(),
                        false,
                    ) {
                        Some(v) => Value::DateTimeNaive(crate::time::DateTimeNaive::new(v)),
                        None => Value::Error,
                    },
                    (Value::DateTimeUtc(x), Value::Duration(y)) => match checked_int(
                        x.timestamp(),
                        y.nanoseconds(),
                        false,
                    ) {
                        Some(v) => Value::DateTimeUtc(crate::time::DateTimeUtc::new(v)),
                        None => Value::Error,
                    },
                    _ => Value::Error,
                }
            },
            Expression::Minus(a, b) => {
                let va = a.eval(row);
                let vb = b.eval(row);
                match (va, vb) {
                    (Value::Int(x), Value::Int(y)) => match checked_int(x, y, true) {
                        Some(v) => Value::Int(v),
                        None => Value::Error,
                    },
                    (Value::Duration(x), Value::Duration(y)) => match checked_int(
                        x.nanoseconds(),
                        y.nanoseconds(),
                        true,
                    ) {
                        Some(v) => Value::Duration(crate::time::Duration::new(v)),
                        None => Value::Error,
                    },
                    (Value::DateTimeNaive(x), Value::DateTimeNaive(y)) => match checked_int(
                        x.timestamp(),
                        y.timestamp(),
                        true,
                    ) {
                        Some(v) => Value::Duration(crate::time::Duration::new(v)),
                        None => Value::Error,
                    },
                    (Value::DateTimeUtc(x), Value::DateTimeUtc(y)) => match checked_int(
                        x.timestamp(),
                        y.timestamp(),
                        true,
                    ) {
                        Some(v) => Value::Duration(crate::time::Duration::new(v)),
                        None => Value::Error,
                    },
                    (Value::DateTimeNaive(x), Value::Duration(y)) => match checked_int(
                        x.timestamp(),
                        y.nanoseconds(),
                        true,
                    ) {
                        Some(v) => Value::DateTimeNaive(crate::time::DateTimeNaive::new(v)),
                        None => Value::Error,
                    },
                    (Value::DateTimeUtc(x), Value::Duration(y)) => match checked_int(
                        x.timestamp(),
                        y.nanoseconds(),
                        true,
                    ) {
                        Some(v) => Value::DateTimeUtc(crate::time::DateTimeUtc::new(v)),
                        None => Value::Error,
                    },
                    _ => Value::Error,
                }
            },
            Expression::Times(a, b) => {
                let va = a.eval(row);
                let vb = b.eval(row);
                match (va, vb) {
                    (Value::Int(x), Value::Int(y)) => match x.checked_mul(y) {
                        Some(v) => Value::Int(v),
                        None => Value::Error,
                    },
                    (Value::Duration(x), Value::Int(y)) => match x.nanoseconds().checked_mul(y) {
                        Some(v) => Value::Duration(crate::time::Duration::new(v)),
                        None => Value::Error,
                    },
                    _ => Value::Error,
                }
            },
            Expression::FloorDiv(a, b) => {
                let va = a.eval(row);
                let vb = b.eval(row);
                match (va, vb) {
                    (Value::Int(x), Value::Int(y)) => div_int_value(x, y, false),
                    (Value::Duration(x), Value::Duration(y)) => div_int_value(
                        x.nanoseconds(),
                        y.nanoseconds(),
                        false,
                    ),
                    (Value::Duration(x), Value::Int(y)) => div_int_value(x.nanoseconds(), y, true),
                    _ => Value::Error,
                }
            },
            Expression::FloorMod(a, b) => {
                let va = a.eval(row);
                let vb = b.eval(row);
                match (va, vb) {
                    (Value::Int(x), Value::Int(y)) => mod_int_value(x, y, false),
                    (Value::Duration(x), Value::Duration(y)) => mod_int_value(
                        x.nanoseconds(),
                        y.nanoseconds(),
                        true,
                    ),
                    _ => Value::Error,
                }
            },
            Expression::Not(a) => {
                match a.eval(row) {
                    Value::Bool(x) => Value::Bool(!x),
                    _ => Value::Error,
                }
            },
            Expression::And(a, b) => {
                let va = a.eval(row);
                let vb = b.eval(row);
                match (va, vb) {
                    (Value::Bool(x), Value::Bool(y)) => Value::Bool(x && y),
                    _ => Value::Error,
                }
            },
            Expression::Or(a, b) => {
                let va = a.eval(row);
                let vb = b.eval(row);
                match (va, vb) {
                    (Value::Bool(x), Value::Bool(y)) => Value::Bool(x || y),
                    _ => Value::Error,
                }
            },
            Expression::LessThan(a, b) => {
                let va = a.eval(row);
                let vb = b.eval(row);
                match (va, vb) {
                    (Value::Int(x), Value::Int(y)) => Value::Bool(x < y),
                    _ => Value::Error,
                }
            },
            Expression::IfThenElse(c, t, f) => {
                match c.eval(row) {
                    Value::Bool(true) => t.eval(row),
                    Value::Bool(false) => f.eval(row),
                    _ => Value::Error,
                }
            },
        }
    }
}

/// Floor-divides, wrapping the result as an `Int` or a `Duration`; a zero
/// divisor or an out-of-range quotient is `Error`.
fn div_int_value(x: i64, y: i64, duration_result: bool) -> (r: Value)
    ensures
        r@ == if y == 0 || !fits_i64(floor_div(x as int, y as int)) {
            SpecValue::Error
        } else if duration_result {
            SpecValue::Duration(floor_div(x as int, y as int))
        } else {
            SpecValue::Int(floor_div(x as int, y as int))
        },
{
    if y == 0 || (x == i64::MIN && y == -1) {
        proof {
            if y != 0 {
                crate::num::lemma_floor_div_min_negone(x as int, y as int);
            }
        }
        Value::Error
    } else {
        proof {
            crate::num::lemma_floor_div_fits(x as int, y as int);
        }
        let q = floor_div_i64(x, y);
        if duration_result {
            Value::Duration(crate::time::Duration::new(q))
        } else {
            Value::Int(q)
        }
    }
}

/// The floor remainder, wrapped as an `Int` or a `Duration`; a zero divisor
/// is `Error`.
fn mod_int_value(x: i64, y: i64, duration_result: bool) -> (r: Value)
    ensures
        r@ == if y == 0 || !fits_i64(floor_mod(x as int, y as int)) {
            SpecValue::Error
        } else if duration_result {
            SpecValue::Duration(floor_mod(x as int, y as int))
        } else {
            SpecValue::Int(floor_mod(x as int, y as int))
        },
{
    if y == 0 {
        Value::Error
    } else {
        proof {
            crate::num::lemma_floor_mod_fits(x as int, y as int);
        }
        let m = floor_mod_i64_total(x, y);
        if duration_result {
            Value::Duration(crate::time::Duration::new(m))
        } else {
            Value::Int(m)
        }
    }
}

/// The floor remainder for every nonzero divisor, including the one pair
/// the quotient overflows on.
fn floor_mod_i64_total(x: i64, y: i64) -> (r: i64)
    requires
        y != 0,
    ensures
        r as int == floor_mod(x as int, y as int),
{
    if x == i64::MIN && y == -1 {
        proof {
            crate::num::lemma_floor_mod_min_negone();
        }
        0
    } else {
        floor_mod_i64(x, y)
    }
}


/// The keys whose rows satisfy the predicate, in input order: the spec of
/// the `filter` operator.
pub open spec fn filter_keys(rows: Seq<(u64, Vec<Value>)>, pred: Expression) -> Seq<u64>
    decreases rows.len(),
{
    if rows.len() == 0 {
        Seq::empty()
    } else {
        let prefix = filter_keys(rows.drop_last(), pred);
        if eval_spec(pred, rows.last().1.deep_view()) == (SpecValue::Bool(true)) {
            prefix.push(rows.last().0)
        } else {
            prefix
        }
    }
}

/// The `map` operator: evaluates one expression per row and produces a new
/// column over the same keys, in the same order. The universe never changes.
pub fn map_column(rows: &Vec<(u64, Vec<Value>)>, expr: &Expression) -> (out: Vec<(u64, Value)>)
    ensures
        out@.len() == rows@.len(),
        forall|i: int|
            0 <= i < rows@.len() ==> (#[trigger] out@[i]).0 == rows@[i].0 && out@[i].1@
                == eval_spec(*expr, rows@[i].1.deep_view()),
{
    let n = rows.len();
    let mut out: Vec<(u64, Value)> = Vec::new();
    let mut i: usize = 0;
    while i < n
        invariant
            0 <= i <= n,
            n == rows@.len(),
            out@.len() == i,
            forall|j: int|
                0 <= j < i ==> (#[trigger] out@[j]).0 == rows@[j].0 && out@[j].1@ == eval_spec(
                    *expr,
                    rows@[j].1.deep_view(),
                ),
        decreases n - i,
    {
        let v = expr.eval(&rows[i].1);
        let k = rows[i].0;
        out.push((k, v));
        i += 1;
    }
    out
}

/// The `filter` operator: the new universe holds exactly the keys whose
/// boolean predicate evaluates to true; every other key, including rows the
/// predicate rejects or errors on, is left out.
pub fn filter_universe(rows: &Vec<(u64, Vec<Value>)>, pred: &Expression) -> (out: Vec<u64>)
    ensures
        out@ == filter_keys(rows@, *pred),
{
    let n = rows.len();
    let mut out: Vec<u64> = Vec::new();
    proof {
        assert(rows@.take(0) =~= Seq::<(u64, Vec<Value>)>::empty());
    }
    let mut i: usize = 0;
    while i < n
        invariant
            0 <= i <= n,
            n == rows@.len(),
            out@ == filter_keys(rows@.take(i as int), *pred),
        decreases n - i,
    {
        proof {
            assert(rows@.take(i + 1).drop_last() =~= rows@.take(i as int));
            assert(rows@.take(i + 1).last() == rows@[i as int]);
        }
        let v = pred.eval(&rows[i].1);
        match v {
            Value::Bool(true) => {
                out.push(rows[i].0);
            },
            _ => {},
        }
        i += 1;
    }
    proof {
        assert(rows@.take(n as int) =~= rows@);
    }
    out
}

} // verus!
