use kite_sql::catalog::{ColumnCatalog, ColumnDesc};
use kite_sql::expression::simplify::ConstantBinary;
use kite_sql::expression::{BinaryOperator, ScalarExpression};
use kite_sql::types::errors::TypeError;
use kite_sql::types::value::DataValue;
use kite_sql::types::LogicalType;
use std::collections::Bound;
use std::sync::Arc;

fn build_test_expr() -> (ScalarExpression, ScalarExpression) {
    let col_1 = Arc::new(ColumnCatalog {
        id: Some(0),
        name: "c1".to_string(),
        table_name: None,
        nullable: false,
        desc: ColumnDesc {
            column_datatype: LogicalType::Integer,
            is_primary: false,
            is_unique: false,
        },
    });

    let c1_main_binary_expr = ScalarExpression::Binary {
        op: BinaryOperator::Minus,
        left_expr: Box::new(ScalarExpression::ColumnRef(col_1.clone())),
        right_expr: Box::new(ScalarExpression::Constant(Arc::new(DataValue::Int32(Some(1))))),
        ty: LogicalType::Integer,
    };
    let val_main_binary_expr = ScalarExpression::Binary {
        op: BinaryOperator::Minus,
        left_expr: Box::new(ScalarExpression::Constant(Arc::new(DataValue::Int32(Some(1))))),
        right_expr: Box::new(ScalarExpression::ColumnRef(col_1.clone())),
        ty: LogicalType::Integer,
    };

    let comparison_expr_op = |expr| {
        ScalarExpression::Binary {
            op: BinaryOperator::GtEq,
            left_expr: Box::new(ScalarExpression::Alias {
                expr: Box::from(expr),
                alias: "alias".to_string(),
            }),
            right_expr: Box::new(ScalarExpression::Constant(Arc::new(DataValue::Int32(Some(2))))),
            ty: LogicalType::Boolean,
        }
    };
    // c1 - 1 >= 2
    let c1_main_expr = comparison_expr_op(c1_main_binary_expr);
    // 1 - c1 >= 2
    let val_main_expr = comparison_expr_op(val_main_binary_expr);

    (c1_main_expr, val_main_expr)
}

#[test]
fn test_convert_binary_simple() -> Result<(), TypeError> {
    let col_1 = Arc::new(ColumnCatalog {
        id: Some(0),
        name: "c1".to_string(),
        table_name: None,
        nullable: false,
        desc: ColumnDesc {
            column_datatype: LogicalType::Integer,
            is_primary: false,
            is_unique: false,
        },
    });
    let val_1 = Arc::new(DataValue::Int32(Some(1)));

    let binary_eq = ScalarExpression::Binary {
        op: BinaryOperator::Eq,
        left_expr: Box::new(ScalarExpression::Constant(val_1.clone())),
        right_expr: Box::new(ScalarExpression::ColumnRef(col_1.clone())),
        ty: LogicalType::Boolean,
    }.convert_binary(&0)?.unwrap();

    assert_eq!(binary_eq, ConstantBinary::Eq(val_1.clone()));

    let binary_not_eq = ScalarExpression::Binary {
        op: BinaryOperator::NotEq,
        left_expr: Box::new(ScalarExpression::Constant(val_1.clone())),
        right_expr: Box::new(ScalarExpression::ColumnRef(col_1.clone())),
        ty: LogicalType::Boolean,
    }.convert_binary(&0)?.unwrap();

    assert_eq!(binary_not_eq, ConstantBinary::NotEq(val_1.clone()));

    let binary_lt = ScalarExpression::Binary {
        op: BinaryOperator::Lt,
        left_expr: Box::new(ScalarExpression::ColumnRef(col_1.clone())),
        right_expr: Box::new(ScalarExpression::Constant(val_1.clone())),
        ty: LogicalType::Boolean,
    }.convert_binary(&0)?.unwrap();

    assert_eq!(binary_lt, ConstantBinary::Scope {
        min: Bound::Unbounded,
        max: Bound::Excluded(val_1.clone())
    });

    let binary_lteq = ScalarExpression::Binary {
        op: BinaryOperator::LtEq,
        left_expr: Box::new(ScalarExpression::ColumnRef(col_1.clone())),
        right_expr: Box::new(ScalarExpression::Constant(val_1.clone())),
        ty: LogicalType::Boolean,
    }.convert_binary(&0)?.unwrap();

    assert_eq!(binary_lteq, ConstantBinary::Scope {
        min: Bound::Unbounded,
        max: Bound::Included(val_1.clone())
    });

    let binary_gt = ScalarExpression::Binary {
        op: BinaryOperator::Gt,
        left_expr: Box::new(ScalarExpression::ColumnRef(col_1.clone())),
        right_expr: Box::new(ScalarExpression::Constant(val_1.clone())),
        ty: LogicalType::Boolean,
    }.convert_binary(&0)?.unwrap();

    assert_eq!(binary_gt, ConstantBinary::Scope {
        min: Bound::Excluded(val_1.clone()),
        max: Bound::Unbounded
    });

    let binary_gteq = ScalarExpression::Binary {
        op: BinaryOperator::GtEq,
        left_expr: Box::new(ScalarExpression::ColumnRef(col_1.clone())),
        right_expr: Box::new(ScalarExpression::Constant(val_1.clone())),
        ty: LogicalType::Boolean,
    }.convert_binary(&0)?.unwrap();

    assert_eq!(binary_gteq, ConstantBinary::Scope {
        min: Bound::Included(val_1.clone()),
        max: Bound::Unbounded
    });

    Ok(())
}

#[test]
fn test_scope_aggregation_eq_noteq() -> Result<(), TypeError> {
    let val_0 = Arc::new(DataValue::Int32(Some(0)));
    let val_1 = Arc::new(DataValue::Int32(Some(1)));
    let val_2 = Arc::new(DataValue::Int32(Some(2)));
    let val_3 = Arc::new(DataValue::Int32(Some(3)));

    let mut binary = ConstantBinary::And(vec![
        ConstantBinary::Eq(val_0.clone()),
        ConstantBinary::NotEq(val_1.clone()),
        ConstantBinary::Eq(val_2.clone()),
        ConstantBinary::NotEq(val_3.clone()),
    ]);

    binary.scope_aggregation()?;

    assert_eq!(
        binary,
        ConstantBinary::And(vec![
            ConstantBinary::Eq(val_0),
            ConstantBinary::Eq(val_2),
        ])
    );

    Ok(())
}

#[test]
fn test_scope_aggregation_eq_noteq_cover() -> Result<(), TypeError> {
    let val_0 = Arc::new(DataValue::Int32(Some(0)));
    let val_1 = Arc::new(DataValue::Int32(Some(1)));
    let val_2 = Arc::new(DataValue::Int32(Some(2)));
    let val_3 = Arc::new(DataValue::Int32(Some(3)));

    let mut binary = ConstantBinary::And(vec![
        ConstantBinary::Eq(val_0.clone()),
        ConstantBinary::NotEq(val_1.clone()),
        ConstantBinary::Eq(val_2.clone()),
        ConstantBinary::NotEq(val_3.clone()),

        ConstantBinary::NotEq(val_0.clone()),
        ConstantBinary::NotEq(val_1.clone()),
        ConstantBinary::NotEq(val_2.clone()),
        ConstantBinary::NotEq(val_3.clone()),
    ]);

    binary.scope_aggregation()?;

    assert_eq!(
        binary,
        ConstantBinary::And(vec![])
    );

    Ok(())
}

#[test]
fn test_scope_aggregation_scope() -> Result<(), TypeError> {
    let val_0 = Arc::new(DataValue::Int32(Some(0)));
    let val_1 = Arc::new(DataValue::Int32(Some(1)));
    let val_2 = Arc::new(DataValue::Int32(Some(2)));
    let val_3 = Arc::new(DataValue::Int32(Some(3)));

    let mut binary = ConstantBinary::And(vec![
        ConstantBinary::Scope {
            min: Bound::Excluded(val_0.clone()),
            max: Bound::Included(val_3.clone())
        },
        ConstantBinary::Scope {
            min: Bound::Included(val_1.clone()),
            max: Bound::Excluded(val_2.clone())
        },
        ConstantBinary::Scope {
            min: Bound::Excluded(val_1.clone()),
            max: Bound::Included(val_2.clone())
        },
        ConstantBinary::Scope {
            min: Bound::Included(val_0.clone()),
            max: Bound::Excluded(val_3.clone())
        },
        ConstantBinary::Scope {
            min: Bound::Unbounded,
            max: Bound::Unbounded,
        },
    ]);

    binary.scope_aggregation()?;

    assert_eq!(
        binary,
        ConstantBinary::And(vec![
            ConstantBinary::Scope {
                min: Bound::Excluded(val_1.clone()),
                max: Bound::Excluded(val_2.clone()),
            }
        ])
    );

    Ok(())
}

#[test]
fn test_scope_aggregation_mixed() -> Result<(), TypeError> {
    let val_0 = Arc::new(DataValue::Int32(Some(0)));
    let val_1 = Arc::new(DataValue::Int32(Some(1)));
    let val_2 = Arc::new(DataValue::Int32(Some(2)));
    let val_3 = Arc::new(DataValue::Int32(Some(3)));

    let mut binary = ConstantBinary::And(vec![
        ConstantBinary::Scope {
            min: Bound::Excluded(val_0.clone()),
            max: Bound::Included(val_3.clone())
        },
        ConstantBinary::Scope {
            min: Bound::Included(val_1.clone()),
            max: Bound::Excluded(val_2.clone())
        },
        ConstantBinary::Scope {
            min: Bound::Excluded(val_1.clone()),
            max: Bound::Included(val_2.clone())
        },
        ConstantBinary::Scope {
            min: Bound::Included(val_0.clone()),
            max: Bound::Excluded(val_3.clone())
        },
        ConstantBinary::Scope {
            min: Bound::Unbounded,
            max: Bound::Unbounded,
        },
        ConstantBinary::Eq(val_1.clone()),
        ConstantBinary::Eq(val_0.clone()),
        ConstantBinary::NotEq(val_1.clone()),
    ]);

    binary.scope_aggregation()?;

    assert_eq!(
        binary,
        ConstantBinary::And(vec![
            ConstantBinary::Eq(val_0.clone()),
        ])
    );

    Ok(())
}

#[test]
fn test_rearrange() -> Result<(), TypeError> {
    let val_0 = Arc::new(DataValue::Int32(Some(0)));
    let val_1 = Arc::new(DataValue::Int32(Some(1)));
    let val_2 = Arc::new(DataValue::Int32(Some(2)));
    let val_3 = Arc::new(DataValue::Int32(Some(3)));

    let val_5 = Arc::new(DataValue::Int32(Some(5)));

    let val_6 = Arc::new(DataValue::Int32(Some(6)));
    let val_7 = Arc::new(DataValue::Int32(Some(7)));
    let val_8 = Arc::new(DataValue::Int32(Some(8)));

    let val_10 = Arc::new(DataValue::Int32(Some(10)));

    let binary = ConstantBinary::Or(vec![
        ConstantBinary::Scope {
            min: Bound::Excluded(val_6.clone()),
            max: Bound::Included(val_10.clone())
        },
        ConstantBinary::Scope {
            min: Bound::Excluded(val_0.clone()),
            max: Bound::Included(val_3.clone())
        },
        ConstantBinary::Scope {
            min: Bound::Included(val_1.clone()),
            max: Bound::Excluded(val_2.clone())
        },
        ConstantBinary::Scope {
            min: Bound::Excluded(val_1.clone()),
            max: Bound::Included(val_2.clone())
        },
        ConstantBinary::Scope {
            min: Bound::Included(val_0.clone()),
            max: Bound::Excluded(val_3.clone())
        },
        ConstantBinary::Scope {
            min: Bound::Included(val_6.clone()),
            max: Bound::Included(val_7.clone())
        },
        ConstantBinary::Scope {
            min: Bound::Unbounded,
            max: Bound::Unbounded,
        },
        ConstantBinary::NotEq(val_8.clone()),
        ConstantBinary::Eq(val_5.clone()),
        ConstantBinary::Eq(val_0.clone()),
        ConstantBinary::Eq(val_1.clone()),
    ]);

    assert_eq!(
        binary.rearrange()?,
        vec![
            ConstantBinary::Scope {
                min: Bound::Included(val_0.clone()),
                max: Bound::Included(val_3.clone()),
            },
            ConstantBinary::Eq(val_5.clone()),
            ConstantBinary::Scope {
                min: Bound::Included(val_6.clone()),
                max: Bound::Included(val_10.clone()),
            }
        ]
    );

    Ok(())
}

#[test]
fn test_simplify_column_on_the_left() -> Result<(), TypeError> {
    let (mut c1_main_expr, _) = build_test_expr();

    c1_main_expr.simplify()?;

    assert_eq!(
        c1_main_expr.convert_binary(&0)?,
        Some(ConstantBinary::Scope {
            min: Bound::Included(Arc::new(DataValue::Int32(Some(3)))),
            max: Bound::Unbounded,
        })
    );

    Ok(())
}

#[test]
fn test_simplify_column_on_the_right() -> Result<(), TypeError> {
    let (_, mut val_main_expr) = build_test_expr();

    val_main_expr.simplify()?;

    assert_eq!(
        val_main_expr.convert_binary(&0)?,
        Some(ConstantBinary::Scope {
            min: Bound::Unbounded,
            max: Bound::Included(Arc::new(DataValue::Int32(Some(-1)))),
        })
    );

    Ok(())
}

#[test]
fn test_simplify_negated_column() -> Result<(), TypeError> {
    let col_1 = Arc::new(ColumnCatalog {
        id: Some(0),
        name: "c1".to_string(),
        table_name: None,
        nullable: false,
        desc: ColumnDesc {
            column_datatype: LogicalType::Integer,
            is_primary: false,
            is_unique: false,
        },
    });
    let mut expr = ScalarExpression::Binary {
        op: BinaryOperator::Gt,
        left_expr: Box::new(ScalarExpression::Unary {
            op: kite_sql::expression::UnaryOperator::Minus,
            expr: Box::new(ScalarExpression::ColumnRef(col_1.clone())),
            ty: LogicalType::Integer,
        }),
        right_expr: Box::new(ScalarExpression::Constant(Arc::new(DataValue::Int32(Some(5))))),
        ty: LogicalType::Boolean,
    };

    expr.simplify()?;

    assert_eq!(
        expr,
        ScalarExpression::Binary {
            op: BinaryOperator::Lt,
            left_expr: Box::new(ScalarExpression::ColumnRef(col_1.clone())),
            right_expr: Box::new(ScalarExpression::Constant(Arc::new(DataValue::Int32(Some(-5))))),
            ty: LogicalType::Boolean,
        }
    );
    assert_eq!(
        expr.convert_binary(&0)?,
        Some(ConstantBinary::Scope {
            min: Bound::Unbounded,
            max: Bound::Excluded(Arc::new(DataValue::Int32(Some(-5)))),
        })
    );

    Ok(())
}
