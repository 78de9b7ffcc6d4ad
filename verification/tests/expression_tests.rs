use pathway_engine::expression::{filter_universe, map_column, Expression};
use pathway_engine::time::{DateTimeNaive, Duration};
use pathway_engine::value::Value;

fn col(i: usize) -> Box<Expression> {
    Box::new(Expression::ColumnRef(i))
}

fn lit(v: Value) -> Box<Expression> {
    Box::new(Expression::Literal(v))
}

#[test]
fn arithmetic_on_integers() {
    let row = vec![Value::Int(7), Value::Int(-3)];
    assert_eq!(Expression::Plus(col(0), col(1)).eval(&row), Value::Int(4));
    assert_eq!(Expression::Minus(col(0), col(1)).eval(&row), Value::Int(10));
    assert_eq!(Expression::Times(col(0), col(1)).eval(&row), Value::Int(-21));
    // floor semantics: 7 div -3 rounds down, the remainder takes the divisor's sign
    assert_eq!(
        Expression::FloorDiv(col(0), col(1)).eval(&row),
        Value::Int(-3)
    );
    assert_eq!(
        Expression::FloorMod(col(0), col(1)).eval(&row),
        Value::Int(-2)
    );
}

#[test]
fn division_by_zero_yields_error_value() {
    let row = vec![Value::Int(7), Value::Int(0)];
    assert_eq!(
        Expression::FloorDiv(col(0), col(1)).eval(&row),
        Value::Error
    );
    assert_eq!(
        Expression::FloorMod(col(0), col(1)).eval(&row),
        Value::Error
    );
}

#[test]
fn type_mismatch_yields_error_value() {
    let row = vec![Value::Int(7), Value::Str("x".to_string())];
    assert_eq!(Expression::Plus(col(0), col(1)).eval(&row), Value::Error);
    assert_eq!(Expression::And(col(0), col(1)).eval(&row), Value::Error);
}

#[test]
fn errors_are_sticky() {
    // an Error input propagates through every dependent computation
    let row = vec![Value::Error, Value::Int(1)];
    let sum = Expression::Plus(col(0), col(1));
    assert_eq!(sum.eval(&row), Value::Error);
    let nested = Expression::Times(Box::new(sum), lit(Value::Int(0)));
    assert_eq!(nested.eval(&row), Value::Error);
}

#[test]
fn overflow_yields_error_value() {
    let row = vec![Value::Int(i64::MAX), Value::Int(1)];
    assert_eq!(Expression::Plus(col(0), col(1)).eval(&row), Value::Error);
    assert_eq!(
        Expression::FloorDiv(lit(Value::Int(i64::MIN)), lit(Value::Int(-1))).eval(&row),
        Value::Error
    );
}

#[test]
fn datetime_arithmetic_in_expressions() {
    let row = vec![
        Value::DateTimeNaive(DateTimeNaive::new(1_000)),
        Value::Duration(Duration::new(500)),
        Value::DateTimeNaive(DateTimeNaive::new(300)),
    ];
    assert_eq!(
        Expression::Plus(col(0), col(1)).eval(&row),
        Value::DateTimeNaive(DateTimeNaive::new(1_500))
    );
    assert_eq!(
        Expression::Minus(col(0), col(2)).eval(&row),
        Value::Duration(Duration::new(700))
    );
    assert_eq!(
        Expression::Minus(col(0), col(1)).eval(&row),
        Value::DateTimeNaive(DateTimeNaive::new(500))
    );
    // duration division uses floor semantics
    assert_eq!(
        Expression::FloorMod(
            lit(Value::Duration(Duration::new(-1))),
            lit(Value::Duration(Duration::new(1000)))
        )
        .eval(&row),
        Value::Duration(Duration::new(999))
    );
}

#[test]
fn boolean_operators_and_conditional() {
    let row = vec![Value::Bool(true), Value::Bool(false), Value::Int(5)];
    assert_eq!(Expression::And(col(0), col(1)).eval(&row), Value::Bool(false));
    assert_eq!(Expression::Or(col(0), col(1)).eval(&row), Value::Bool(true));
    assert_eq!(Expression::Not(col(1)).eval(&row), Value::Bool(true));
    assert_eq!(
        Expression::LessThan(col(2), lit(Value::Int(6))).eval(&row),
        Value::Bool(true)
    );
    assert_eq!(
        Expression::IfThenElse(col(0), col(2), lit(Value::Int(0))).eval(&row),
        Value::Int(5)
    );
    assert_eq!(
        Expression::IfThenElse(col(2), col(2), lit(Value::Int(0))).eval(&row),
        Value::Error
    );
}

#[test]
fn missing_column_yields_error_value() {
    let row = vec![Value::Int(1)];
    assert_eq!(Expression::ColumnRef(3).eval(&row), Value::Error);
}

#[test]
fn map_evaluates_per_key_without_changing_the_universe() {
    let rows = vec![
        (10, vec![Value::Int(1)]),
        (20, vec![Value::Int(2)]),
        (30, vec![Value::Error]),
    ];
    let expr = Expression::Plus(col(0), lit(Value::Int(100)));
    let out = map_column(&rows, &expr);
    assert_eq!(out.len(), 3);
    assert_eq!(out[0], (10, Value::Int(101)));
    assert_eq!(out[1], (20, Value::Int(102)));
    assert_eq!(out[2], (30, Value::Error));
}

#[test]
fn filter_keeps_exactly_the_satisfying_keys() {
    let rows = vec![
        (10, vec![Value::Int(1)]),
        (20, vec![Value::Int(7)]),
        (30, vec![Value::Str("x".to_string())]),
        (40, vec![Value::Int(9)]),
    ];
    let pred = Expression::LessThan(lit(Value::Int(5)), col(0));
    let out = filter_universe(&rows, &pred);
    // the row that errors is left out, not reported
    assert_eq!(out, vec![20, 40]);
}
