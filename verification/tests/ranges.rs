use kite_sql::expression::simplify::ConstantBinary;
use kite_sql::types::errors::TypeError;
use kite_sql::types::value::{DataValue, Order, ValueRef};
use std::collections::Bound;
use std::sync::Arc;

fn i32v(n: i32) -> ValueRef {
    Arc::new(DataValue::Int32(Some(n)))
}

fn scope(min: Bound<ValueRef>, max: Bound<ValueRef>) -> ConstantBinary {
    ConstantBinary::Scope { min, max }
}

// Whether a leaf admits a value: between the bounds of a scope, equal to the
// value of an `Eq`, different from the value of a `NotEq`.
fn admits(range: &ConstantBinary, v: &DataValue) -> bool {
    match range {
        ConstantBinary::Scope { min, max } => {
            let above = match min {
                Bound::Unbounded => true,
                Bound::Included(k) => matches!(v.compare(k), Some(Order::Greater) | Some(Order::Equal)),
                Bound::Excluded(k) => matches!(v.compare(k), Some(Order::Greater)),
            };
            let below = match max {
                Bound::Unbounded => true,
                Bound::Included(k) => matches!(v.compare(k), Some(Order::Less) | Some(Order::Equal)),
                Bound::Excluded(k) => matches!(v.compare(k), Some(Order::Less)),
            };
            above && below
        }
        ConstantBinary::Eq(k) => matches!(v.compare(k), Some(Order::Equal)),
        ConstantBinary::NotEq(k) => matches!(v.compare(k), Some(Order::Less) | Some(Order::Greater)),
        ConstantBinary::And(parts) => parts.iter().all(|part| admits(part, v)),
        ConstantBinary::Or(parts) => parts.iter().any(|part| admits(part, v)),
    }
}

#[test]
fn test_bound_compared() {
    let three_in = Bound::Included(i32v(3));
    let three_out = Bound::Excluded(i32v(3));
    let four_in = Bound::Included(i32v(4));
    assert_eq!(ConstantBinary::bound_compared(&Bound::Unbounded, &Bound::Unbounded, true), Some(Order::Equal));
    assert_eq!(ConstantBinary::bound_compared(&Bound::Unbounded, &three_in, true), Some(Order::Less));
    assert_eq!(ConstantBinary::bound_compared(&Bound::Unbounded, &three_in, false), Some(Order::Greater));
    assert_eq!(ConstantBinary::bound_compared(&three_in, &Bound::Unbounded, true), Some(Order::Greater));
    assert_eq!(ConstantBinary::bound_compared(&three_in, &Bound::Unbounded, false), Some(Order::Less));
    assert_eq!(ConstantBinary::bound_compared(&three_in, &four_in, true), Some(Order::Less));
    assert_eq!(ConstantBinary::bound_compared(&three_in, &four_in, false), Some(Order::Less));
    assert_eq!(ConstantBinary::bound_compared(&three_in, &three_out, true), Some(Order::Less));
    assert_eq!(ConstantBinary::bound_compared(&three_in, &three_out, false), Some(Order::Greater));
    assert_eq!(ConstantBinary::bound_compared(&three_out, &three_in, true), Some(Order::Greater));
    assert_eq!(ConstantBinary::bound_compared(&three_out, &three_in, false), Some(Order::Less));
    assert_eq!(ConstantBinary::bound_compared(&three_out, &three_out, true), Some(Order::Equal));
    assert_eq!(
        ConstantBinary::bound_compared(&three_in, &Bound::Included(Arc::new(DataValue::Int32(None))), true),
        None
    );
}

#[test]
fn test_is_null() {
    assert_eq!(ConstantBinary::Eq(i32v(1)).is_null(), Ok(false));
    assert_eq!(ConstantBinary::Eq(Arc::new(DataValue::Null)).is_null(), Ok(true));
    assert_eq!(ConstantBinary::NotEq(Arc::new(DataValue::Int32(None))).is_null(), Ok(true));
    assert_eq!(scope(Bound::Unbounded, Bound::Unbounded).is_null(), Ok(true));
    assert_eq!(scope(Bound::Included(i32v(1)), Bound::Unbounded).is_null(), Ok(false));
    assert_eq!(scope(Bound::Included(i32v(1)), Bound::Excluded(Arc::new(DataValue::Null))).is_null(), Ok(true));
    assert_eq!(ConstantBinary::And(vec![]).is_null(), Err(TypeError::InvalidType));
    assert_eq!(ConstantBinary::Or(vec![]).is_null(), Err(TypeError::InvalidType));
}

#[test]
fn test_scope_aggregation_refuses_nested_parts() {
    let mut binary = ConstantBinary::And(vec![ConstantBinary::Eq(i32v(1)), ConstantBinary::And(vec![])]);
    assert_eq!(binary.scope_aggregation(), Err(TypeError::InvalidType));

    let mut binary = ConstantBinary::Or(vec![
        ConstantBinary::Eq(i32v(1)),
        ConstantBinary::And(vec![ConstantBinary::Or(vec![])]),
    ]);
    assert_eq!(binary.scope_aggregation(), Err(TypeError::InvalidType));
}

#[test]
fn test_scope_aggregation_inside_or() -> Result<(), TypeError> {
    let mut binary = ConstantBinary::Or(vec![
        ConstantBinary::And(vec![
            scope(Bound::Included(i32v(0)), Bound::Unbounded),
            scope(Bound::Unbounded, Bound::Excluded(i32v(9))),
        ]),
        ConstantBinary::Eq(i32v(20)),
        ConstantBinary::And(vec![ConstantBinary::Eq(i32v(3)), ConstantBinary::Eq(i32v(3)), ConstantBinary::Eq(i32v(1))]),
    ]);

    binary.scope_aggregation()?;

    assert_eq!(
        binary,
        ConstantBinary::Or(vec![
            ConstantBinary::And(vec![scope(Bound::Included(i32v(0)), Bound::Excluded(i32v(9)))]),
            ConstantBinary::Eq(i32v(20)),
            ConstantBinary::And(vec![ConstantBinary::Eq(i32v(1)), ConstantBinary::Eq(i32v(3))]),
        ])
    );

    Ok(())
}

#[test]
fn test_scope_aggregation_leaves_a_leaf() -> Result<(), TypeError> {
    let mut binary = ConstantBinary::NotEq(i32v(1));
    binary.scope_aggregation()?;
    assert_eq!(binary, ConstantBinary::NotEq(i32v(1)));
    Ok(())
}

#[test]
fn test_scope_aggregation_ignores_scopes_beside_a_value() -> Result<(), TypeError> {
    let mut binary = ConstantBinary::And(vec![
        scope(Bound::Included(i32v(10)), Bound::Unbounded),
        ConstantBinary::Eq(i32v(1)),
    ]);
    binary.scope_aggregation()?;
    assert_eq!(binary, ConstantBinary::And(vec![ConstantBinary::Eq(i32v(1))]));
    Ok(())
}

#[test]
fn test_scope_aggregation_null_bound_changes_nothing() -> Result<(), TypeError> {
    let mut binary = ConstantBinary::And(vec![
        scope(Bound::Included(i32v(1)), Bound::Included(i32v(5))),
        scope(Bound::Included(Arc::new(DataValue::Int32(None))), Bound::Included(Arc::new(DataValue::Int32(None)))),
    ]);
    binary.scope_aggregation()?;
    assert_eq!(binary, ConstantBinary::And(vec![scope(Bound::Included(i32v(1)), Bound::Included(i32v(5)))]));
    Ok(())
}

#[test]
fn test_scope_aggregation_normal_form_and_soundness() -> Result<(), TypeError> {
    let parts = vec![
        ConstantBinary::Eq(i32v(7)),
        ConstantBinary::Eq(i32v(3)),
        ConstantBinary::Eq(i32v(7)),
        ConstantBinary::NotEq(i32v(5)),
        ConstantBinary::Eq(i32v(5)),
        scope(Bound::Included(i32v(0)), Bound::Unbounded),
    ];
    let mut binary = ConstantBinary::And(parts);
    binary.scope_aggregation()?;
    assert_eq!(binary, ConstantBinary::And(vec![ConstantBinary::Eq(i32v(3)), ConstantBinary::Eq(i32v(7))]));

    let scopes = vec![
        scope(Bound::Included(i32v(0)), Bound::Included(i32v(8))),
        scope(Bound::Excluded(i32v(2)), Bound::Unbounded),
        ConstantBinary::NotEq(i32v(4)),
    ];
    let mut narrow = ConstantBinary::And(vec![
        scope(Bound::Included(i32v(0)), Bound::Included(i32v(8))),
        scope(Bound::Excluded(i32v(2)), Bound::Unbounded),
        ConstantBinary::NotEq(i32v(4)),
    ]);
    narrow.scope_aggregation()?;
    assert_eq!(narrow, ConstantBinary::And(vec![scope(Bound::Excluded(i32v(2)), Bound::Included(i32v(8)))]));
    for n in -2..12 {
        let v = DataValue::Int32(Some(n));
        if scopes.iter().all(|part| admits(part, &v)) {
            assert!(admits(&narrow, &v));
        }
    }
    Ok(())
}

#[test]
fn test_rearrange_of_and_and_leaf() -> Result<(), TypeError> {
    assert_eq!(
        ConstantBinary::And(vec![ConstantBinary::Eq(i32v(2)), ConstantBinary::Eq(i32v(1))]).rearrange()?,
        vec![ConstantBinary::Eq(i32v(2)), ConstantBinary::Eq(i32v(1))]
    );
    assert_eq!(ConstantBinary::NotEq(i32v(2)).rearrange()?, vec![ConstantBinary::NotEq(i32v(2))]);
    assert_eq!(ConstantBinary::Or(vec![]).rearrange()?, vec![]);
    Ok(())
}

#[test]
fn test_rearrange_refuses_nested_or() {
    assert_eq!(
        ConstantBinary::Or(vec![ConstantBinary::Eq(i32v(1)), ConstantBinary::Or(vec![])]).rearrange(),
        Err(TypeError::InvalidType)
    );
    assert_eq!(
        ConstantBinary::Or(vec![ConstantBinary::And(vec![ConstantBinary::And(vec![])])]).rearrange(),
        Err(TypeError::InvalidType)
    );
}

#[test]
fn test_rearrange_splices_and_parts() -> Result<(), TypeError> {
    let binary = ConstantBinary::Or(vec![
        ConstantBinary::And(vec![scope(Bound::Included(i32v(5)), Bound::Included(i32v(6)))]),
        scope(Bound::Included(i32v(0)), Bound::Included(i32v(1))),
    ]);
    assert_eq!(
        binary.rearrange()?,
        vec![
            scope(Bound::Included(i32v(0)), Bound::Included(i32v(1))),
            scope(Bound::Included(i32v(5)), Bound::Included(i32v(6))),
        ]
    );
    Ok(())
}

#[test]
fn test_rearrange_keeps_bare_values() -> Result<(), TypeError> {
    let binary = ConstantBinary::Or(vec![ConstantBinary::Eq(i32v(2)), ConstantBinary::Eq(i32v(1))]);
    assert_eq!(binary.rearrange()?, vec![ConstantBinary::Eq(i32v(1)), ConstantBinary::Eq(i32v(2))]);

    let binary = ConstantBinary::Or(vec![ConstantBinary::Eq(i32v(3)), ConstantBinary::Eq(i32v(1))]);
    assert_eq!(binary.rearrange()?, vec![ConstantBinary::Eq(i32v(1)), ConstantBinary::Eq(i32v(3))]);
    Ok(())
}

#[test]
fn test_rearrange_keeps_a_scope_behind_a_value() -> Result<(), TypeError> {
    let binary = ConstantBinary::Or(vec![
        ConstantBinary::Eq(i32v(1)),
        scope(Bound::Included(i32v(2)), Bound::Included(i32v(5))),
    ]);
    assert_eq!(
        binary.rearrange()?,
        vec![ConstantBinary::Eq(i32v(1)), scope(Bound::Included(i32v(2)), Bound::Included(i32v(5)))]
    );
    Ok(())
}

#[test]
fn test_rearrange_merges_scopes_without_lower_bound() -> Result<(), TypeError> {
    let binary = ConstantBinary::Or(vec![
        scope(Bound::Unbounded, Bound::Included(i32v(3))),
        scope(Bound::Unbounded, Bound::Included(i32v(5))),
    ]);
    assert_eq!(binary.rearrange()?, vec![scope(Bound::Unbounded, Bound::Included(i32v(5)))]);

    let binary = ConstantBinary::Or(vec![
        scope(Bound::Unbounded, Bound::Included(i32v(5))),
        scope(Bound::Included(i32v(9)), Bound::Unbounded),
        scope(Bound::Unbounded, Bound::Included(i32v(3))),
    ]);
    assert_eq!(
        binary.rearrange()?,
        vec![scope(Bound::Unbounded, Bound::Included(i32v(5))), scope(Bound::Included(i32v(9)), Bound::Unbounded)]
    );
    Ok(())
}

#[test]
fn test_rearrange_touching_scopes() -> Result<(), TypeError> {
    let binary = ConstantBinary::Or(vec![
        scope(Bound::Excluded(i32v(3)), Bound::Included(i32v(9))),
        scope(Bound::Included(i32v(0)), Bound::Included(i32v(3))),
    ]);
    assert_eq!(binary.rearrange()?, vec![scope(Bound::Included(i32v(0)), Bound::Included(i32v(9)))]);

    let binary = ConstantBinary::Or(vec![
        scope(Bound::Included(i32v(3)), Bound::Included(i32v(9))),
        scope(Bound::Included(i32v(0)), Bound::Excluded(i32v(3))),
    ]);
    assert_eq!(
        binary.rearrange()?,
        vec![
            scope(Bound::Included(i32v(0)), Bound::Excluded(i32v(3))),
            scope(Bound::Included(i32v(3)), Bound::Included(i32v(9))),
        ]
    );
    Ok(())
}

#[test]
fn test_rearrange_is_sorted_apart_and_loses_nothing() -> Result<(), TypeError> {
    let parts = vec![
        scope(Bound::Included(i32v(20)), Bound::Included(i32v(25))),
        scope(Bound::Unbounded, Bound::Excluded(i32v(2))),
        ConstantBinary::Eq(i32v(30)),
        scope(Bound::Included(i32v(4)), Bound::Included(i32v(8))),
        ConstantBinary::Eq(i32v(6)),
        scope(Bound::Excluded(i32v(7)), Bound::Included(i32v(12))),
        scope(Bound::Included(i32v(22)), Bound::Included(i32v(23))),
    ];
    let list = ConstantBinary::Or(vec![
        scope(Bound::Included(i32v(20)), Bound::Included(i32v(25))),
        scope(Bound::Unbounded, Bound::Excluded(i32v(2))),
        ConstantBinary::Eq(i32v(30)),
        scope(Bound::Included(i32v(4)), Bound::Included(i32v(8))),
        ConstantBinary::Eq(i32v(6)),
        scope(Bound::Excluded(i32v(7)), Bound::Included(i32v(12))),
        scope(Bound::Included(i32v(22)), Bound::Included(i32v(23))),
    ])
    .rearrange()?;

    assert_eq!(
        list,
        vec![
            scope(Bound::Unbounded, Bound::Excluded(i32v(2))),
            scope(Bound::Included(i32v(4)), Bound::Included(i32v(12))),
            scope(Bound::Included(i32v(20)), Bound::Included(i32v(25))),
            ConstantBinary::Eq(i32v(30)),
        ]
    );
    for n in -5..40 {
        let v = DataValue::Int32(Some(n));
        if parts.iter().any(|part| admits(part, &v)) {
            assert!(list.iter().any(|range| admits(range, &v)));
        }
        let scopes = list
            .iter()
            .filter(|range| matches!(range, ConstantBinary::Scope { .. }) && admits(range, &v))
            .count();
        assert!(scopes <= 1);
    }
    Ok(())
}

#[test]
fn test_clone_is_equal() {
    let binary = ConstantBinary::Or(vec![
        ConstantBinary::And(vec![scope(Bound::Included(i32v(0)), Bound::Unbounded), ConstantBinary::NotEq(i32v(4))]),
        ConstantBinary::Eq(i32v(20)),
    ]);
    assert_eq!(binary.clone(), binary);
}

#[test]
fn test_scope_aggregation_takes_values_before_what_leaves_them_out() -> Result<(), TypeError> {
    let mut binary = ConstantBinary::And(vec![
        scope(Bound::Included(i32v(0)), Bound::Unbounded),
        ConstantBinary::NotEq(i32v(1)),
        ConstantBinary::Eq(i32v(1)),
    ]);
    binary.scope_aggregation()?;
    assert_eq!(binary, ConstantBinary::And(vec![scope(Bound::Included(i32v(0)), Bound::Unbounded)]));

    let mut binary = ConstantBinary::And(vec![ConstantBinary::NotEq(i32v(1)), ConstantBinary::Eq(i32v(1))]);
    binary.scope_aggregation()?;
    assert_eq!(binary, ConstantBinary::And(vec![]));
    Ok(())
}
