use kite_sql::catalog::{ColumnCatalog, ColumnDesc, ColumnRef};
use kite_sql::expression::simplify::ConstantBinary;
use kite_sql::expression::{BinaryOperator, ScalarExpression, UnaryOperator};
use kite_sql::types::errors::TypeError;
use kite_sql::types::tuple::Tuple;
use kite_sql::types::value::{DataValue, ValueRef};
use kite_sql::types::LogicalType;
use std::collections::Bound;
use std::sync::Arc;

fn column(id: u32, name: &str) -> ColumnRef {
    Arc::new(ColumnCatalog {
        id: Some(id),
        name: name.to_string(),
        table_name: None,
        nullable: false,
        desc: ColumnDesc { column_datatype: LogicalType::Integer, is_primary: false, is_unique: false },
    })
}

fn i32v(n: i32) -> ValueRef {
    Arc::new(DataValue::Int32(Some(n)))
}

fn constant(n: i32) -> ScalarExpression {
    ScalarExpression::Constant(i32v(n))
}

fn col(id: u32, name: &str) -> ScalarExpression {
    ScalarExpression::ColumnRef(column(id, name))
}

fn binary(op: BinaryOperator, left: ScalarExpression, right: ScalarExpression) -> ScalarExpression {
    ScalarExpression::Binary {
        op,
        left_expr: Box::new(left),
        right_expr: Box::new(right),
        ty: LogicalType::Integer,
    }
}

fn row(values: Vec<(&str, DataValue)>) -> Tuple {
    let mut columns = Vec::new();
    let mut row_values = Vec::new();
    for (i, (name, value)) in values.into_iter().enumerate() {
        columns.push(column(i as u32, name));
        row_values.push(Arc::new(value));
    }
    Tuple { id: None, columns, values: row_values }
}

#[test]
fn test_unpack_val_folds_in_place() {
    let mut expr = binary(
        BinaryOperator::Plus,
        binary(BinaryOperator::Multiply, constant(2), constant(3)),
        col(0, "c1"),
    );
    assert_eq!(expr.unpack_val(), None);
    assert_eq!(expr, binary(BinaryOperator::Plus, constant(6), col(0, "c1")));

    let mut expr = binary(BinaryOperator::Plus, binary(BinaryOperator::Multiply, constant(2), constant(3)), constant(1));
    assert_eq!(expr.unpack_val(), Some(i32v(7)));
    assert_eq!(expr, constant(7));
}

#[test]
fn test_unpack_val_of_cast_null_test_and_alias() {
    let mut cast = ScalarExpression::TypeCast { expr: Box::new(constant(300)), ty: LogicalType::Bigint };
    assert_eq!(cast.unpack_val(), Some(Arc::new(DataValue::Int64(Some(300)))));
    let mut cast = ScalarExpression::TypeCast { expr: Box::new(constant(300)), ty: LogicalType::Tinyint };
    assert_eq!(cast.unpack_val(), None);

    let mut is_null = ScalarExpression::IsNull { expr: Box::new(constant(1)), negated: false };
    assert_eq!(is_null.unpack_val(), Some(Arc::new(DataValue::Boolean(Some(false)))));
    let mut is_not_null = ScalarExpression::IsNull { expr: Box::new(constant(1)), negated: true };
    assert_eq!(is_not_null.unpack_val(), Some(Arc::new(DataValue::Boolean(Some(true)))));
    let mut of_null = ScalarExpression::IsNull {
        expr: Box::new(ScalarExpression::Constant(Arc::new(DataValue::Null))),
        negated: false,
    };
    assert_eq!(of_null.unpack_val(), Some(Arc::new(DataValue::Boolean(Some(true)))));
    let mut of_column = ScalarExpression::IsNull { expr: Box::new(col(0, "c1")), negated: false };
    assert_eq!(of_column.unpack_val(), None);

    let mut alias = ScalarExpression::Alias { expr: Box::new(constant(4)), alias: "four".to_string() };
    assert_eq!(alias.unpack_val(), Some(i32v(4)));

    let mut failing = binary(BinaryOperator::Divide, constant(1), constant(0));
    assert_eq!(failing.unpack_val(), None);
    assert_eq!(failing, binary(BinaryOperator::Divide, constant(1), constant(0)));
}

#[test]
fn test_unpack_col() {
    let c1 = column(0, "c1");
    assert_eq!(col(0, "c1").unpack_col(true), Some(c1.clone()));
    let negated = ScalarExpression::Unary { op: UnaryOperator::Minus, expr: Box::new(col(0, "c1")), ty: LogicalType::Integer };
    assert_eq!(negated.unpack_col(true), Some(c1.clone()));
    let sum = binary(BinaryOperator::Plus, col(0, "c1"), constant(1));
    assert_eq!(sum.unpack_col(true), None);
    assert_eq!(sum.unpack_col(false), Some(c1.clone()));
    let both = binary(BinaryOperator::Plus, col(0, "c1"), col(1, "c2"));
    assert_eq!(both.unpack_col(false), None);
    assert_eq!(constant(1).unpack_col(false), None);
}

#[test]
fn test_simplify_folds_under_cast_and_prefix_operator() -> Result<(), TypeError> {
    let mut expr = ScalarExpression::TypeCast {
        expr: Box::new(binary(BinaryOperator::Plus, constant(1), constant(2))),
        ty: LogicalType::Bigint,
    };
    expr.simplify()?;
    assert_eq!(expr, ScalarExpression::Constant(Arc::new(DataValue::Int64(Some(3)))));

    let mut expr = ScalarExpression::Unary { op: UnaryOperator::Minus, expr: Box::new(constant(5)), ty: LogicalType::Integer };
    expr.simplify()?;
    assert_eq!(expr, constant(-5));

    let mut expr = ScalarExpression::IsNull { expr: Box::new(constant(5)), negated: true };
    expr.simplify()?;
    assert_eq!(expr, ScalarExpression::Constant(Arc::new(DataValue::Boolean(Some(true)))));
    Ok(())
}

#[test]
fn test_simplify_errors() {
    let mut expr = ScalarExpression::TypeCast { expr: Box::new(constant(300)), ty: LogicalType::Tinyint };
    assert_eq!(expr.simplify(), Err(TypeError::CastFail));

    let mut expr = ScalarExpression::Unary { op: UnaryOperator::Not, expr: Box::new(constant(5)), ty: LogicalType::Boolean };
    assert_eq!(expr.simplify(), Err(TypeError::InvalidType));

    let mut expr = ScalarExpression::Unary {
        op: UnaryOperator::Minus,
        expr: Box::new(ScalarExpression::Constant(Arc::new(DataValue::Int32(Some(i32::MIN))))),
        ty: LogicalType::Integer,
    };
    assert_eq!(expr.simplify(), Err(TypeError::Overflow));
}

#[test]
fn test_simplify_moves_arithmetic_across_a_comparison() -> Result<(), TypeError> {
    // c1 + 1 > 5  becomes  c1 > 5 - 1
    let mut expr = binary(BinaryOperator::Gt, binary(BinaryOperator::Plus, col(0, "c1"), constant(1)), constant(5));
    expr.simplify()?;
    assert_eq!(expr, binary(BinaryOperator::Gt, col(0, "c1"), binary(BinaryOperator::Minus, constant(5), constant(1))));

    // c1 * 2 < 8  becomes  c1 < 8 / 2
    let mut expr = binary(BinaryOperator::Lt, binary(BinaryOperator::Multiply, col(0, "c1"), constant(2)), constant(8));
    expr.simplify()?;
    assert_eq!(expr, binary(BinaryOperator::Lt, col(0, "c1"), binary(BinaryOperator::Divide, constant(8), constant(2))));

    // 2 * c1 > 4  becomes  c1 < 2 * 4: the comparison is turned round whatever the sign
    let mut expr = binary(BinaryOperator::Gt, binary(BinaryOperator::Multiply, constant(2), col(0, "c1")), constant(4));
    expr.simplify()?;
    assert_eq!(expr, binary(BinaryOperator::Lt, col(0, "c1"), binary(BinaryOperator::Multiply, constant(2), constant(4))));

    // 5 > -c1  becomes  -5 < c1, with the moved operator left unfolded
    let mut expr = binary(
        BinaryOperator::Gt,
        constant(5),
        ScalarExpression::Unary { op: UnaryOperator::Minus, expr: Box::new(col(0, "c1")), ty: LogicalType::Integer },
    );
    expr.simplify()?;
    assert_eq!(
        expr,
        binary(
            BinaryOperator::Lt,
            ScalarExpression::Unary { op: UnaryOperator::Minus, expr: Box::new(constant(5)), ty: LogicalType::Integer },
            col(0, "c1"),
        )
    );
    Ok(())
}

#[test]
fn test_simplify_with_a_column_on_both_sides() -> Result<(), TypeError> {
    // c1 > c2 + 1  becomes  c1 - 1 > c2, and stays so
    let mut expr = binary(BinaryOperator::Gt, col(0, "c1"), binary(BinaryOperator::Plus, col(1, "c2"), constant(1)));
    expr.simplify()?;
    assert_eq!(expr, binary(BinaryOperator::Gt, binary(BinaryOperator::Minus, col(0, "c1"), constant(1)), col(1, "c2")));
    expr.simplify()?;
    assert_eq!(expr, binary(BinaryOperator::Gt, binary(BinaryOperator::Minus, col(0, "c1"), constant(1)), col(1, "c2")));
    Ok(())
}

#[test]
fn test_simplify_folds_a_moved_operator_in_the_next_pass() -> Result<(), TypeError> {
    // 5 > -c1  becomes  -5 < c1, where -5 is folded only by a second pass
    let mut expr = binary(
        BinaryOperator::Gt,
        constant(5),
        ScalarExpression::Unary { op: UnaryOperator::Minus, expr: Box::new(col(0, "c1")), ty: LogicalType::Integer },
    );
    expr.simplify()?;
    expr.simplify()?;
    assert_eq!(expr, binary(BinaryOperator::Lt, constant(-5), col(0, "c1")));
    Ok(())
}

#[test]
fn test_simplify_twice_is_simplify_once() -> Result<(), TypeError> {
    let build = || {
        binary(
            BinaryOperator::And,
            binary(
                BinaryOperator::Eq,
                col(0, "c1"),
                ScalarExpression::TypeCast {
                    expr: Box::new(binary(BinaryOperator::Plus, constant(1), constant(2))),
                    ty: LogicalType::Integer,
                },
            ),
            ScalarExpression::Alias {
                expr: Box::new(ScalarExpression::IsNull { expr: Box::new(constant(1)), negated: false }),
                alias: "never".to_string(),
            },
        )
    };
    let mut once = build();
    once.simplify()?;
    assert_eq!(
        once,
        binary(
            BinaryOperator::And,
            binary(BinaryOperator::Eq, col(0, "c1"), constant(3)),
            ScalarExpression::Alias {
                expr: Box::new(ScalarExpression::Constant(Arc::new(DataValue::Boolean(Some(false))))),
                alias: "never".to_string(),
            },
        )
    );
    let mut twice = build();
    twice.simplify()?;
    twice.simplify()?;
    assert_eq!(twice, once);
    Ok(())
}

#[test]
fn test_simplify_keeps_the_value() -> Result<(), TypeError> {
    let build = || {
        binary(
            BinaryOperator::Plus,
            ScalarExpression::Alias { expr: Box::new(col(0, "c1")), alias: "a".to_string() },
            ScalarExpression::TypeCast {
                expr: Box::new(binary(BinaryOperator::Multiply, constant(4), constant(5))),
                ty: LogicalType::Integer,
            },
        )
    };
    for n in [-3, 0, 17] {
        let tuple = row(vec![("c1", DataValue::Int32(Some(n)))]);
        let plain = build().eval_column(&tuple);
        let mut simple = build();
        simple.simplify()?;
        assert_eq!(simple.eval_column(&tuple), plain);
        assert_eq!(plain, Ok(i32v(n + 20)));
    }
    Ok(())
}

#[test]
fn test_eval_column() {
    let tuple = row(vec![("c1", DataValue::Int32(Some(4))), ("c2", DataValue::Int32(None))]);
    assert_eq!(col(0, "c1").eval_column(&tuple), Ok(i32v(4)));
    assert_eq!(col(7, "missing").eval_column(&tuple), Ok(Arc::new(DataValue::Null)));
    assert_eq!(
        binary(BinaryOperator::Minus, col(0, "c1"), constant(1)).eval_column(&tuple),
        Ok(i32v(3))
    );
    assert_eq!(
        binary(BinaryOperator::Gt, col(0, "c1"), col(1, "c2")).eval_column(&tuple),
        Ok(Arc::new(DataValue::Boolean(None)))
    );
    assert_eq!(
        ScalarExpression::IsNull { expr: Box::new(col(1, "c2")), negated: false }.eval_column(&tuple),
        Ok(Arc::new(DataValue::Boolean(Some(true))))
    );
    assert_eq!(
        ScalarExpression::IsNull { expr: Box::new(col(1, "c2")), negated: true }.eval_column(&tuple),
        Ok(Arc::new(DataValue::Boolean(Some(false))))
    );
    assert_eq!(
        ScalarExpression::Alias { expr: Box::new(constant(9)), alias: "c1".to_string() }.eval_column(&tuple),
        Ok(i32v(4))
    );
    assert_eq!(
        ScalarExpression::Alias { expr: Box::new(constant(9)), alias: "nine".to_string() }.eval_column(&tuple),
        Ok(i32v(9))
    );
    assert_eq!(
        ScalarExpression::TypeCast { expr: Box::new(col(0, "c1")), ty: LogicalType::Bigint }.eval_column(&tuple),
        Ok(Arc::new(DataValue::Int64(Some(4))))
    );
    assert_eq!(
        ScalarExpression::Unary { op: UnaryOperator::Minus, expr: Box::new(col(0, "c1")), ty: LogicalType::Integer }
            .eval_column(&tuple),
        Ok(i32v(-4))
    );
    assert_eq!(
        ScalarExpression::AggCall { name: "c1".to_string(), ty: LogicalType::Integer }.eval_column(&tuple),
        Ok(i32v(4))
    );
    assert_eq!(
        ScalarExpression::AggCall { name: "count(c9)".to_string(), ty: LogicalType::Integer }.eval_column(&tuple),
        Ok(Arc::new(DataValue::Null))
    );
    assert_eq!(
        binary(BinaryOperator::Divide, col(0, "c1"), constant(0)).eval_column(&tuple),
        Err(TypeError::DivisionByZero)
    );
}

#[test]
fn test_eval_with_name_takes_the_first_column() {
    let tuple = row(vec![("a", DataValue::Int32(Some(1))), ("a", DataValue::Int32(Some(2)))]);
    assert_eq!(ScalarExpression::eval_with_name(&tuple, &"a".to_string()), Some(&i32v(1)));
    assert_eq!(ScalarExpression::eval_with_name(&tuple, &"b".to_string()), None);
}

#[test]
fn test_convert_binary_other_column_and_other_operator() -> Result<(), TypeError> {
    let mut expr = binary(BinaryOperator::Eq, col(1, "c2"), constant(1));
    assert_eq!(expr.convert_binary(&0)?, None);

    let mut expr = binary(BinaryOperator::Plus, col(0, "c1"), constant(1));
    assert_eq!(expr.convert_binary(&0)?, None);

    let mut expr = binary(BinaryOperator::Spaceship, col(0, "c1"), constant(1));
    assert_eq!(expr.convert_binary(&0)?, Some(ConstantBinary::Eq(i32v(1))));

    let mut expr = binary(BinaryOperator::Gt, constant(1), col(0, "c1"));
    assert_eq!(
        expr.convert_binary(&0)?,
        Some(ConstantBinary::Scope { min: Bound::Unbounded, max: Bound::Excluded(i32v(1)) })
    );

    let unbound = ScalarExpression::ColumnRef(Arc::new(ColumnCatalog {
        id: None,
        name: "c1".to_string(),
        table_name: None,
        nullable: false,
        desc: ColumnDesc { column_datatype: LogicalType::Integer, is_primary: false, is_unique: false },
    }));
    let mut expr = binary(BinaryOperator::Eq, unbound, constant(1));
    assert_eq!(expr.convert_binary(&0)?, None);
    assert_eq!(constant(1).convert_binary(&0)?, None);
    Ok(())
}

#[test]
fn test_convert_binary_folds_the_constant_side() -> Result<(), TypeError> {
    let mut expr = binary(BinaryOperator::GtEq, col(0, "c1"), binary(BinaryOperator::Plus, constant(2), constant(1)));
    assert_eq!(
        expr.convert_binary(&0)?,
        Some(ConstantBinary::Scope { min: Bound::Included(i32v(3)), max: Bound::Unbounded })
    );
    assert_eq!(expr, binary(BinaryOperator::GtEq, col(0, "c1"), constant(3)));
    Ok(())
}

#[test]
fn test_convert_binary_combines_both_sides() -> Result<(), TypeError> {
    let gt = |n| binary(BinaryOperator::Gt, col(0, "c1"), constant(n));
    let lt = |n| binary(BinaryOperator::Lt, col(0, "c1"), constant(n));
    let eq = |n| binary(BinaryOperator::Eq, col(0, "c1"), constant(n));
    let above = |n| ConstantBinary::Scope { min: Bound::Excluded(i32v(n)), max: Bound::Unbounded };
    let under = |n| ConstantBinary::Scope { min: Bound::Unbounded, max: Bound::Excluded(i32v(n)) };

    let mut expr = binary(BinaryOperator::And, gt(1), lt(5));
    assert_eq!(expr.convert_binary(&0)?, Some(ConstantBinary::And(vec![above(1), under(5)])));

    let mut expr = binary(BinaryOperator::Or, eq(1), eq(5));
    assert_eq!(
        expr.convert_binary(&0)?,
        Some(ConstantBinary::Or(vec![ConstantBinary::Eq(i32v(1)), ConstantBinary::Eq(i32v(5))]))
    );

    let mut expr = binary(BinaryOperator::Eq, gt(1), lt(5));
    assert_eq!(expr.convert_binary(&0)?, None);

    let mut expr = binary(BinaryOperator::Xor, gt(1), lt(5));
    assert_eq!(expr.convert_binary(&0), Err(TypeError::NotImplemented));

    let mut expr = binary(BinaryOperator::And, binary(BinaryOperator::And, gt(1), lt(5)), eq(3));
    assert_eq!(
        expr.convert_binary(&0)?,
        Some(ConstantBinary::And(vec![above(1), under(5), ConstantBinary::Eq(i32v(3))]))
    );

    let mut expr = binary(BinaryOperator::Or, eq(3), binary(BinaryOperator::Or, eq(1), eq(5)));
    assert_eq!(
        expr.convert_binary(&0)?,
        Some(ConstantBinary::Or(vec![ConstantBinary::Eq(i32v(1)), ConstantBinary::Eq(i32v(5)), ConstantBinary::Eq(i32v(3))]))
    );

    let mut expr = binary(
        BinaryOperator::And,
        binary(BinaryOperator::And, gt(1), lt(5)),
        binary(BinaryOperator::And, gt(2), lt(4)),
    );
    assert_eq!(
        expr.convert_binary(&0)?,
        Some(ConstantBinary::And(vec![above(1), under(5), above(2), under(4)]))
    );

    // two disjunctions are joined into a conjunction
    let mut expr = binary(
        BinaryOperator::Or,
        binary(BinaryOperator::Or, eq(1), eq(2)),
        binary(BinaryOperator::Or, eq(3), eq(4)),
    );
    assert_eq!(
        expr.convert_binary(&0)?,
        Some(ConstantBinary::And(vec![
            ConstantBinary::Eq(i32v(1)),
            ConstantBinary::Eq(i32v(2)),
            ConstantBinary::Eq(i32v(3)),
            ConstantBinary::Eq(i32v(4)),
        ]))
    );

    let mut expr = binary(
        BinaryOperator::Or,
        binary(BinaryOperator::And, gt(1), lt(5)),
        binary(BinaryOperator::Or, eq(7), eq(9)),
    );
    assert_eq!(
        expr.convert_binary(&0)?,
        Some(ConstantBinary::Or(vec![ConstantBinary::Eq(i32v(7)), ConstantBinary::Eq(i32v(9)), above(1), under(5)]))
    );

    let mut expr = binary(
        BinaryOperator::Or,
        binary(BinaryOperator::Or, eq(7), eq(9)),
        binary(BinaryOperator::And, gt(1), lt(5)),
    );
    assert_eq!(
        expr.convert_binary(&0)?,
        Some(ConstantBinary::Or(vec![ConstantBinary::Eq(i32v(7)), ConstantBinary::Eq(i32v(9)), above(1), under(5)]))
    );

    let mut expr = binary(BinaryOperator::And, gt(1), binary(BinaryOperator::Eq, col(1, "c2"), constant(1)));
    assert_eq!(expr.convert_binary(&0)?, Some(above(1)));
    Ok(())
}

#[test]
fn test_comparison_range_admits_what_the_comparison_holds_of() -> Result<(), TypeError> {
    let ops = [
        BinaryOperator::Eq,
        BinaryOperator::NotEq,
        BinaryOperator::Gt,
        BinaryOperator::GtEq,
        BinaryOperator::Lt,
        BinaryOperator::LtEq,
    ];
    for op in ops {
        for flipped in [false, true] {
            let build = || {
                if flipped {
                    binary(op, constant(3), col(0, "c1"))
                } else {
                    binary(op, col(0, "c1"), constant(3))
                }
            };
            let range = build().convert_binary(&0)?.unwrap();
            for n in 0..7 {
                let tuple = row(vec![("c1", DataValue::Int32(Some(n)))]);
                let holds = build().eval_column(&tuple)? == Arc::new(DataValue::Boolean(Some(true)));
                let k = DataValue::Int32(Some(3));
                let v = DataValue::Int32(Some(n));
                let admitted = match &range {
                    ConstantBinary::Eq(_) => n == 3,
                    ConstantBinary::NotEq(_) => n != 3,
                    ConstantBinary::Scope { min, max } => {
                        let above = match min {
                            Bound::Unbounded => true,
                            Bound::Included(_) => n >= 3,
                            Bound::Excluded(_) => n > 3,
                        };
                        let below = match max {
                            Bound::Unbounded => true,
                            Bound::Included(_) => n <= 3,
                            Bound::Excluded(_) => n < 3,
                        };
                        above && below
                    }
                    _ => false,
                };
                assert_eq!(holds, admitted, "{:?} {} {:?} {:?}", op, flipped, v, k);
            }
        }
    }
    Ok(())
}

#[test]
fn test_simplify_twice_with_a_sum_on_the_right() -> Result<(), TypeError> {
    // 2 >= c1 - 1  becomes  2 + 1 >= c1, and stays so
    let mut expr = binary(BinaryOperator::GtEq, constant(2), binary(BinaryOperator::Minus, col(0, "c1"), constant(1)));
    expr.simplify()?;
    assert_eq!(expr, binary(BinaryOperator::GtEq, binary(BinaryOperator::Plus, constant(2), constant(1)), col(0, "c1")));
    expr.simplify()?;
    assert_eq!(expr, binary(BinaryOperator::GtEq, binary(BinaryOperator::Plus, constant(2), constant(1)), col(0, "c1")));
    Ok(())
}

#[test]
fn test_simplify_twice_under_alias_and_sign() -> Result<(), TypeError> {
    // -(c1 AS a) - 1 >= 2 AND c1 < 9
    let build = || {
        binary(
            BinaryOperator::And,
            binary(
                BinaryOperator::GtEq,
                binary(
                    BinaryOperator::Minus,
                    ScalarExpression::Alias { expr: Box::new(col(0, "c1")), alias: "a".to_string() },
                    constant(1),
                ),
                constant(2),
            ),
            binary(
                BinaryOperator::Lt,
                ScalarExpression::Unary { op: UnaryOperator::Minus, expr: Box::new(col(0, "c1")), ty: LogicalType::Integer },
                constant(9),
            ),
        )
    };
    let mut once = build();
    once.simplify()?;
    let mut twice = build();
    twice.simplify()?;
    twice.simplify()?;
    assert_eq!(twice, once);
    for n in [-20, -9, -8, 2, 3, 40] {
        let tuple = row(vec![("c1", DataValue::Int32(Some(n)))]);
        assert_eq!(once.eval_column(&tuple), build().eval_column(&tuple));
    }
    Ok(())
}

#[test]
fn test_simplify_can_remove_an_overflow() -> Result<(), TypeError> {
    // c1 - 1 >= 2 fails on the smallest number, c1 >= 2 + 1 does not
    let build = || binary(BinaryOperator::GtEq, binary(BinaryOperator::Minus, col(0, "c1"), constant(1)), constant(2));
    let tuple = row(vec![("c1", DataValue::Int32(Some(i32::MIN)))]);
    assert_eq!(build().eval_column(&tuple), Err(TypeError::Overflow));
    let mut simple = build();
    simple.simplify()?;
    assert_eq!(simple.eval_column(&tuple), Ok(Arc::new(DataValue::Boolean(Some(false)))));
    Ok(())
}

#[test]
fn test_simplify_loses_an_alias_in_a_second_pass() -> Result<(), TypeError> {
    // (c1 AS a) > c2 + 1  becomes  (c1 AS a) - 1 > c2, then c1 - 1 > c2
    let mut expr = binary(
        BinaryOperator::Gt,
        ScalarExpression::Alias { expr: Box::new(col(0, "c1")), alias: "a".to_string() },
        binary(BinaryOperator::Plus, col(1, "c2"), constant(1)),
    );
    expr.simplify()?;
    assert_eq!(
        expr,
        binary(
            BinaryOperator::Gt,
            binary(
                BinaryOperator::Minus,
                ScalarExpression::Alias { expr: Box::new(col(0, "c1")), alias: "a".to_string() },
                constant(1),
            ),
            col(1, "c2"),
        )
    );
    expr.simplify()?;
    assert_eq!(expr, binary(BinaryOperator::Gt, binary(BinaryOperator::Minus, col(0, "c1"), constant(1)), col(1, "c2")));
    Ok(())
}

#[test]
fn test_simplify_twice_with_a_sign_on_the_right() -> Result<(), TypeError> {
    // c2 > -c1  becomes  -c2 < c1, and stays so
    let negated = |e| ScalarExpression::Unary { op: UnaryOperator::Minus, expr: Box::new(e), ty: LogicalType::Integer };
    let mut expr = binary(BinaryOperator::Gt, col(1, "c2"), negated(col(0, "c1")));
    expr.simplify()?;
    assert_eq!(expr, binary(BinaryOperator::Lt, negated(col(1, "c2")), col(0, "c1")));
    expr.simplify()?;
    assert_eq!(expr, binary(BinaryOperator::Lt, negated(col(1, "c2")), col(0, "c1")));
    Ok(())
}
