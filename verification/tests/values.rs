use kite_sql::expression::value_compute::{binary_op, unary_op};
use kite_sql::expression::{BinaryOperator, UnaryOperator};
use kite_sql::types::errors::TypeError;
use kite_sql::types::value::{DataValue, Order};
use kite_sql::types::LogicalType;

#[test]
fn test_plus_widens_to_the_larger_type() {
    assert_eq!(
        binary_op(&DataValue::Int8(Some(100)), &DataValue::Int32(Some(100)), &BinaryOperator::Plus),
        Ok(DataValue::Int32(Some(200)))
    );
    assert_eq!(
        binary_op(&DataValue::Int64(Some(-7)), &DataValue::Int16(Some(2)), &BinaryOperator::Minus),
        Ok(DataValue::Int64(Some(-9)))
    );
}

#[test]
fn test_arithmetic_overflow_is_an_error() {
    assert_eq!(
        binary_op(&DataValue::Int8(Some(100)), &DataValue::Int8(Some(100)), &BinaryOperator::Plus),
        Err(TypeError::Overflow)
    );
    assert_eq!(
        binary_op(&DataValue::Int32(Some(i32::MIN)), &DataValue::Int32(Some(1)), &BinaryOperator::Minus),
        Err(TypeError::Overflow)
    );
    assert_eq!(
        binary_op(&DataValue::Int64(Some(i64::MAX)), &DataValue::Int64(Some(2)), &BinaryOperator::Multiply),
        Err(TypeError::Overflow)
    );
    assert_eq!(
        binary_op(&DataValue::Int64(Some(i64::MIN)), &DataValue::Int64(Some(-1)), &BinaryOperator::Divide),
        Err(TypeError::Overflow)
    );
    assert_eq!(unary_op(&DataValue::Int16(Some(i16::MIN)), &UnaryOperator::Minus), Err(TypeError::Overflow));
}

#[test]
fn test_division_rounds_toward_zero() {
    assert_eq!(
        binary_op(&DataValue::Int32(Some(7)), &DataValue::Int32(Some(2)), &BinaryOperator::Divide),
        Ok(DataValue::Int32(Some(3)))
    );
    assert_eq!(
        binary_op(&DataValue::Int32(Some(-7)), &DataValue::Int32(Some(2)), &BinaryOperator::Divide),
        Ok(DataValue::Int32(Some(-3)))
    );
    assert_eq!(
        binary_op(&DataValue::Int32(Some(7)), &DataValue::Int32(Some(-2)), &BinaryOperator::Divide),
        Ok(DataValue::Int32(Some(-3)))
    );
    assert_eq!(
        binary_op(&DataValue::Int32(Some(-7)), &DataValue::Int32(Some(-2)), &BinaryOperator::Divide),
        Ok(DataValue::Int32(Some(3)))
    );
}

#[test]
fn test_division_by_zero_is_an_error() {
    assert_eq!(
        binary_op(&DataValue::Int32(Some(7)), &DataValue::Int32(Some(0)), &BinaryOperator::Divide),
        Err(TypeError::DivisionByZero)
    );
}

#[test]
fn test_arithmetic_with_null_is_null() {
    assert_eq!(
        binary_op(&DataValue::Int32(None), &DataValue::Int32(Some(1)), &BinaryOperator::Plus),
        Ok(DataValue::Int32(None))
    );
    assert_eq!(
        binary_op(&DataValue::Null, &DataValue::Int64(Some(1)), &BinaryOperator::Multiply),
        Ok(DataValue::Int64(None))
    );
    assert_eq!(binary_op(&DataValue::Null, &DataValue::Null, &BinaryOperator::Plus), Ok(DataValue::Null));
}

#[test]
fn test_operands_without_a_common_type_are_refused() {
    assert_eq!(
        binary_op(&DataValue::Int32(Some(1)), &DataValue::Utf8(Some("1".to_string())), &BinaryOperator::Eq),
        Err(TypeError::InvalidType)
    );
    assert_eq!(
        binary_op(&DataValue::Boolean(Some(true)), &DataValue::Boolean(Some(true)), &BinaryOperator::Plus),
        Err(TypeError::InvalidType)
    );
    assert_eq!(
        binary_op(&DataValue::Int32(Some(1)), &DataValue::Int32(Some(1)), &BinaryOperator::And),
        Err(TypeError::InvalidType)
    );
    assert_eq!(unary_op(&DataValue::Int32(Some(1)), &UnaryOperator::Not), Err(TypeError::InvalidType));
    assert_eq!(unary_op(&DataValue::Boolean(Some(true)), &UnaryOperator::Minus), Err(TypeError::InvalidType));
}

#[test]
fn test_comparison_with_null_is_null() {
    assert_eq!(
        binary_op(&DataValue::Int32(None), &DataValue::Int32(Some(1)), &BinaryOperator::Eq),
        Ok(DataValue::Boolean(None))
    );
    assert_eq!(
        binary_op(&DataValue::Int32(Some(1)), &DataValue::Null, &BinaryOperator::Lt),
        Ok(DataValue::Boolean(None))
    );
    assert_eq!(DataValue::Int32(None).compare(&DataValue::Int32(None)), None);
    assert_eq!(DataValue::Null.compare(&DataValue::Null), None);
}

#[test]
fn test_comparisons() {
    let one = DataValue::Int32(Some(1));
    let two = DataValue::Int64(Some(2));
    assert_eq!(binary_op(&one, &two, &BinaryOperator::Lt), Ok(DataValue::Boolean(Some(true))));
    assert_eq!(binary_op(&one, &two, &BinaryOperator::LtEq), Ok(DataValue::Boolean(Some(true))));
    assert_eq!(binary_op(&one, &two, &BinaryOperator::Gt), Ok(DataValue::Boolean(Some(false))));
    assert_eq!(binary_op(&one, &two, &BinaryOperator::GtEq), Ok(DataValue::Boolean(Some(false))));
    assert_eq!(binary_op(&one, &two, &BinaryOperator::Eq), Ok(DataValue::Boolean(Some(false))));
    assert_eq!(binary_op(&one, &two, &BinaryOperator::NotEq), Ok(DataValue::Boolean(Some(true))));
    assert_eq!(binary_op(&one, &one, &BinaryOperator::Eq), Ok(DataValue::Boolean(Some(true))));
}

#[test]
fn test_null_safe_equality_is_never_null() {
    assert_eq!(
        binary_op(&DataValue::Int32(None), &DataValue::Int32(None), &BinaryOperator::Spaceship),
        Ok(DataValue::Boolean(Some(true)))
    );
    assert_eq!(
        binary_op(&DataValue::Int32(None), &DataValue::Int32(Some(1)), &BinaryOperator::Spaceship),
        Ok(DataValue::Boolean(Some(false)))
    );
    assert_eq!(
        binary_op(&DataValue::Int32(Some(1)), &DataValue::Int32(Some(1)), &BinaryOperator::Spaceship),
        Ok(DataValue::Boolean(Some(true)))
    );
}

#[test]
fn test_three_valued_logic() {
    let t = DataValue::Boolean(Some(true));
    let f = DataValue::Boolean(Some(false));
    let n = DataValue::Boolean(None);
    assert_eq!(binary_op(&f, &n, &BinaryOperator::And), Ok(DataValue::Boolean(Some(false))));
    assert_eq!(binary_op(&t, &n, &BinaryOperator::And), Ok(DataValue::Boolean(None)));
    assert_eq!(binary_op(&t, &t, &BinaryOperator::And), Ok(DataValue::Boolean(Some(true))));
    assert_eq!(binary_op(&t, &n, &BinaryOperator::Or), Ok(DataValue::Boolean(Some(true))));
    assert_eq!(binary_op(&f, &n, &BinaryOperator::Or), Ok(DataValue::Boolean(None)));
    assert_eq!(binary_op(&f, &f, &BinaryOperator::Or), Ok(DataValue::Boolean(Some(false))));
    assert_eq!(binary_op(&t, &f, &BinaryOperator::Xor), Ok(DataValue::Boolean(Some(true))));
    assert_eq!(binary_op(&t, &n, &BinaryOperator::Xor), Ok(DataValue::Boolean(None)));
    assert_eq!(unary_op(&t, &UnaryOperator::Not), Ok(f.clone()));
    assert_eq!(unary_op(&n, &UnaryOperator::Not), Ok(n.clone()));
}

#[test]
fn test_unary_operators() {
    assert_eq!(unary_op(&DataValue::Int32(Some(5)), &UnaryOperator::Minus), Ok(DataValue::Int32(Some(-5))));
    assert_eq!(unary_op(&DataValue::Int32(Some(5)), &UnaryOperator::Plus), Ok(DataValue::Int32(Some(5))));
    assert_eq!(unary_op(&DataValue::Int32(None), &UnaryOperator::Minus), Ok(DataValue::Int32(None)));
    assert_eq!(unary_op(&DataValue::Null, &UnaryOperator::Minus), Ok(DataValue::Null));
}

#[test]
fn test_text_is_ordered_byte_by_byte() {
    let a = DataValue::Utf8(Some("abc".to_string()));
    let b = DataValue::Utf8(Some("abd".to_string()));
    let c = DataValue::Utf8(Some("ab".to_string()));
    assert_eq!(a.compare(&b), Some(Order::Less));
    assert_eq!(b.compare(&a), Some(Order::Greater));
    assert_eq!(a.compare(&c), Some(Order::Greater));
    assert_eq!(a.compare(&a), Some(Order::Equal));
    assert_eq!(a.compare(&DataValue::Int32(Some(1))), None);
    assert_eq!(binary_op(&a, &b, &BinaryOperator::Lt), Ok(DataValue::Boolean(Some(true))));
}

#[test]
fn test_cast() {
    assert_eq!(DataValue::Int32(Some(300)).cast(LogicalType::Bigint), Ok(DataValue::Int64(Some(300))));
    assert_eq!(DataValue::Int32(Some(300)).cast(LogicalType::Tinyint), Err(TypeError::CastFail));
    assert_eq!(DataValue::Int32(Some(-128)).cast(LogicalType::Tinyint), Ok(DataValue::Int8(Some(-128))));
    assert_eq!(DataValue::Int32(Some(0)).cast(LogicalType::Boolean), Ok(DataValue::Boolean(Some(false))));
    assert_eq!(DataValue::Int32(Some(7)).cast(LogicalType::Boolean), Ok(DataValue::Boolean(Some(true))));
    assert_eq!(DataValue::Boolean(Some(true)).cast(LogicalType::Smallint), Ok(DataValue::Int16(Some(1))));
    assert_eq!(DataValue::Int32(None).cast(LogicalType::Varchar), Ok(DataValue::Utf8(None)));
    assert_eq!(DataValue::Null.cast(LogicalType::Date), Ok(DataValue::Date32(None)));
    assert_eq!(DataValue::Int32(Some(1)).cast(LogicalType::Varchar), Err(TypeError::CastFail));
    assert_eq!(DataValue::Int32(Some(1)).cast(LogicalType::SqlNull), Err(TypeError::CastFail));
    assert_eq!(
        DataValue::Utf8(Some("x".to_string())).cast(LogicalType::Varchar),
        Ok(DataValue::Utf8(Some("x".to_string())))
    );
    assert_eq!(DataValue::Date32(Some(3)).cast(LogicalType::Date), Ok(DataValue::Date32(Some(3))));
    assert_eq!(DataValue::Date32(Some(3)).cast(LogicalType::DateTime), Err(TypeError::CastFail));
}

#[test]
fn test_structural_equality() {
    assert!(DataValue::Int32(Some(1)).same(&DataValue::Int32(Some(1))));
    assert!(!DataValue::Int32(Some(1)).same(&DataValue::Int64(Some(1))));
    assert!(DataValue::Int32(None).same(&DataValue::Int32(None)));
    assert!(!DataValue::Int32(None).same(&DataValue::Null));
    assert!(DataValue::Utf8(Some("a".to_string())).same(&DataValue::Utf8(Some("a".to_string()))));
}

#[test]
fn test_common_type() {
    assert_eq!(LogicalType::Tinyint.max_logical_type(LogicalType::Bigint), Ok(LogicalType::Bigint));
    assert_eq!(LogicalType::SqlNull.max_logical_type(LogicalType::Varchar), Ok(LogicalType::Varchar));
    assert_eq!(LogicalType::Date.max_logical_type(LogicalType::Date), Ok(LogicalType::Date));
    assert_eq!(LogicalType::Date.max_logical_type(LogicalType::DateTime), Err(TypeError::InvalidType));
}
