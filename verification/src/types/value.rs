//! SQL values: typed, nullable, partially ordered, castable.
use super::errors::TypeError;
use super::LogicalType;
use std::sync::Arc;
use vstd::prelude::*;
use vstd::utf8::encode_utf8;

verus! {

/// A SQL value. Every typed variant holds `None` for the SQL null of its type;
/// `Null` is the null that has no type yet.
#[derive(Debug, Clone, PartialEq, Eq, Hash)]
pub enum DataValue {
    Null,
    Boolean(Option<bool>),
    Int8(Option<i8>),
    Int16(Option<i16>),
    Int32(Option<i32>),
    Int64(Option<i64>),
    Utf8(Option<String>),
    Date32(Option<i32>),
    Date64(Option<i64>),
}

/// How one value or bound stands to another.
#[derive(Debug, Clone, Copy, PartialEq, Eq, Structural)]
pub enum Order {
    Less,
    Equal,
    Greater,
}

impl Order {
    /// The order seen from the other side.
    pub open spec fn spec_reverse(self) -> Order {
        match self {
            Order::Less => Order::Greater,
            Order::Equal => Order::Equal,
            Order::Greater => Order::Less,
        }
    }

    /// This order, or `next` where this one is `Equal`.
    pub open spec fn spec_followed_by(self, next: Order) -> Order {
        if self is Equal {
            next
        } else {
            self
        }
    }

    /// The order seen from the other side.
    #[verifier::when_used_as_spec(spec_reverse)]
    pub fn reverse(self) -> (r: Order)
        ensures
            r == self.spec_reverse(),
    {
        match self {
            Order::Less => Order::Greater,
            Order::Equal => Order::Equal,
            Order::Greater => Order::Less,
        }
    }

    /// This order, or `next` where this one is `Equal`.
    #[verifier::when_used_as_spec(spec_followed_by)]
    pub fn followed_by(self, next: Order) -> (r: Order)
        ensures
            r == self.spec_followed_by(next),
    {
        match self {
            Order::Equal => next,
            _ => self,
        }
    }
}

/// A shared, immutable value.
pub type ValueRef = Arc<DataValue>;

/// Byte-wise lexicographic order of `a` and `b` from index `i` on, given that
/// they agree before `i`.
pub open spec fn lex_order_from(a: Seq<u8>, b: Seq<u8>, i: int) -> Order
    decreases a.len() - i,
{
    if i >= a.len() && i >= b.len() {
        Order::Equal
    } else if i >= a.len() {
        Order::Less
    } else if i >= b.len() {
        Order::Greater
    } else if i < 0 {
        Order::Equal
    } else if a[i] < b[i] {
        Order::Less
    } else if a[i] > b[i] {
        Order::Greater
    } else {
        lex_order_from(a, b, i + 1)
    }
}

/// Order of two integers.
pub open spec fn int_order(a: int, b: int) -> Order {
    if a < b {
        Order::Less
    } else if a > b {
        Order::Greater
    } else {
        Order::Equal
    }
}

/// The quotient of `x` by `d` rounded toward zero, for `d != 0`.
pub open spec fn quotient_toward_zero(x: int, d: int) -> int {
    if x >= 0 && d > 0 {
        x / d
    } else if x < 0 && d < 0 {
        (-x) / (-d)
    } else if x < 0 {
        -((-x) / d)
    } else {
        -(x / (-d))
    }
}

impl DataValue {
    /// Whether the value is a SQL null, typed or not.
    pub open spec fn spec_is_null(self) -> bool {
        match self {
            DataValue::Null => true,
            DataValue::Boolean(v) => v is None,
            DataValue::Int8(v) => v is None,
            DataValue::Int16(v) => v is None,
            DataValue::Int32(v) => v is None,
            DataValue::Int64(v) => v is None,
            DataValue::Utf8(v) => v is None,
            DataValue::Date32(v) => v is None,
            DataValue::Date64(v) => v is None,
        }
    }

    /// The logical type of the value.
    pub open spec fn spec_logical_type(self) -> LogicalType {
        match self {
            DataValue::Null => LogicalType::SqlNull,
            DataValue::Boolean(_) => LogicalType::Boolean,
            DataValue::Int8(_) => LogicalType::Tinyint,
            DataValue::Int16(_) => LogicalType::Smallint,
            DataValue::Int32(_) => LogicalType::Integer,
            DataValue::Int64(_) => LogicalType::Bigint,
            DataValue::Utf8(_) => LogicalType::Varchar,
            DataValue::Date32(_) => LogicalType::Date,
            DataValue::Date64(_) => LogicalType::DateTime,
        }
    }

    /// The number held by a non-null integer value.
    pub open spec fn spec_int(self) -> Option<int> {
        match self {
            DataValue::Int8(Some(v)) => Some(v as int),
            DataValue::Int16(Some(v)) => Some(v as int),
            DataValue::Int32(Some(v)) => Some(v as int),
            DataValue::Int64(Some(v)) => Some(v as int),
            _ => None,
        }
    }

    /// The truth value held by a boolean; nulls and other types give `None`.
    pub open spec fn spec_bool(self) -> Option<bool> {
        match self {
            DataValue::Boolean(v) => v,
            _ => None,
        }
    }

    /// The null of a type.
    pub open spec fn spec_null_of(ty: LogicalType) -> DataValue {
        match ty {
            LogicalType::SqlNull => DataValue::Null,
            LogicalType::Boolean => DataValue::Boolean(None),
            LogicalType::Tinyint => DataValue::Int8(None),
            LogicalType::Smallint => DataValue::Int16(None),
            LogicalType::Integer => DataValue::Int32(None),
            LogicalType::Bigint => DataValue::Int64(None),
            LogicalType::Varchar => DataValue::Utf8(None),
            LogicalType::Date => DataValue::Date32(None),
            LogicalType::DateTime => DataValue::Date64(None),
        }
    }

    /// The integer `n` as a value of the integer type `ty`; `Overflow` when
    /// the type cannot hold it.
    pub open spec fn spec_int_of(ty: LogicalType, n: int) -> Result<DataValue, TypeError> {
        if n < ty.spec_min() || n > ty.spec_max() {
            Err(TypeError::Overflow)
        } else {
            Ok(
                match ty {
                    LogicalType::Tinyint => DataValue::Int8(Some(n as i8)),
                    LogicalType::Smallint => DataValue::Int16(Some(n as i16)),
                    LogicalType::Integer => DataValue::Int32(Some(n as i32)),
                    _ => DataValue::Int64(Some(n as i64)),
                },
            )
        }
    }

    /// Structural equality: the same variant with the same content, a null
    /// being equal to the null of its own type only.
    pub open spec fn spec_same(self, other: DataValue) -> bool {
        match (self, other) {
            (DataValue::Null, DataValue::Null) => true,
            (DataValue::Boolean(a), DataValue::Boolean(b)) => a == b,
            (DataValue::Int8(a), DataValue::Int8(b)) => a == b,
            (DataValue::Int16(a), DataValue::Int16(b)) => a == b,
            (DataValue::Int32(a), DataValue::Int32(b)) => a == b,
            (DataValue::Int64(a), DataValue::Int64(b)) => a == b,
            (DataValue::Utf8(None), DataValue::Utf8(None)) => true,
            (DataValue::Utf8(Some(a)), DataValue::Utf8(Some(b))) => a@ == b@,
            (DataValue::Date32(a), DataValue::Date32(b)) => a == b,
            (DataValue::Date64(a), DataValue::Date64(b)) => a == b,
            _ => false,
        }
    }

    /// The cast of a value to a type.
    ///
    /// A null becomes the null of the target type. A boolean casts to itself
    /// and to the integers 0 and 1; an integer casts to every integer type
    /// that holds it and to the boolean "is not zero"; text and dates cast to
    /// their own type only. Every other cast fails with `CastFail`.
    pub open spec fn spec_cast(self, to: LogicalType) -> Result<DataValue, TypeError> {
        if self.spec_is_null() {
            Ok(Self::spec_null_of(to))
        } else if to.spec_is_integer() {
            match self {
                DataValue::Boolean(Some(b)) => Self::spec_int_of(to, if b { 1 } else { 0 }),
                _ => match self.spec_int() {
                    Some(n) => if to.spec_min() <= n <= to.spec_max() {
                        Self::spec_int_of(to, n)
                    } else {
                        Err(TypeError::CastFail)
                    },
                    None => Err(TypeError::CastFail),
                },
            }
        } else if to is Boolean {
            match self {
                DataValue::Boolean(_) => Ok(self),
                _ => match self.spec_int() {
                    Some(n) => Ok(DataValue::Boolean(Some(n != 0))),
                    None => Err(TypeError::CastFail),
                },
            }
        } else if to == self.spec_logical_type() {
            Ok(self)
        } else {
            Err(TypeError::CastFail)
        }
    }
}

/// The partial order of values: two non-null integers of any width compare as
/// numbers, two non-null values of one other type compare within that type
/// (`false` before `true`, text byte by byte), and every other pair, a null
/// among them, is unordered.
pub open spec fn value_order(l: DataValue, r: DataValue) -> Option<Order> {
    match (l, r) {
        (DataValue::Boolean(Some(a)), DataValue::Boolean(Some(b))) => Some(
            int_order(if a { 1 } else { 0 }, if b { 1 } else { 0 }),
        ),
        (DataValue::Utf8(Some(a)), DataValue::Utf8(Some(b))) => Some(
            lex_order_from(encode_utf8(a@), encode_utf8(b@), 0),
        ),
        (DataValue::Date32(Some(a)), DataValue::Date32(Some(b))) => Some(int_order(a as int, b as int)),
        (DataValue::Date64(Some(a)), DataValue::Date64(Some(b))) => Some(int_order(a as int, b as int)),
        _ => match (l.spec_int(), r.spec_int()) {
            (Some(a), Some(b)) => Some(int_order(a, b)),
            _ => None,
        },
    }
}

/// A second handle on a shared value.
///
/// Calls `Arc::clone`, which returns a pointer to the same allocation: the
/// value behind the result is the value behind the argument.
#[verifier::external_body]
pub(crate) fn share<T>(value: &Arc<T>) -> (r: Arc<T>)
    ensures
        r == *value,
{
    Arc::clone(value)
}

/// Compares two byte strings lexicographically.
fn order_bytes(a: &[u8], b: &[u8]) -> (r: Order)
    ensures
        r == lex_order_from(a@, b@, 0),
{
    let mut i: usize = 0;
    while i < a.len() && i < b.len()
        invariant
            i <= a.len(),
            i <= b.len(),
            lex_order_from(a@, b@, 0) == lex_order_from(a@, b@, i as int),
        decreases a.len() - i,
    {
        if a[i] < b[i] {
            return Order::Less;
        }
        if a[i] > b[i] {
            return Order::Greater;
        }
        i += 1;
    }
    if i < b.len() {
        Order::Less
    } else if i < a.len() {
        Order::Greater
    } else {
        Order::Equal
    }
}

fn order_i64(a: i64, b: i64) -> (r: Order)
    ensures
        r == int_order(a as int, b as int),
{
    if a < b {
        Order::Less
    } else if a > b {
        Order::Greater
    } else {
        Order::Equal
    }
}

impl DataValue {
    /// Whether the value is a SQL null, typed or not.
    pub fn is_null(&self) -> (r: bool)
        ensures
            r == self.spec_is_null(),
    {
        match self {
            DataValue::Null => true,
            DataValue::Boolean(v) => v.is_none(),
            DataValue::Int8(v) => v.is_none(),
            DataValue::Int16(v) => v.is_none(),
            DataValue::Int32(v) => v.is_none(),
            DataValue::Int64(v) => v.is_none(),
            DataValue::Utf8(v) => v.is_none(),
            DataValue::Date32(v) => v.is_none(),
            DataValue::Date64(v) => v.is_none(),
        }
    }

    /// The logical type of the value.
    pub fn logical_type(&self) -> (r: LogicalType)
        ensures
            r == self.spec_logical_type(),
    {
        match self {
            DataValue::Null => LogicalType::SqlNull,
            DataValue::Boolean(_) => LogicalType::Boolean,
            DataValue::Int8(_) => LogicalType::Tinyint,
            DataValue::Int16(_) => LogicalType::Smallint,
            DataValue::Int32(_) => LogicalType::Integer,
            DataValue::Int64(_) => LogicalType::Bigint,
            DataValue::Utf8(_) => LogicalType::Varchar,
            DataValue::Date32(_) => LogicalType::Date,
            DataValue::Date64(_) => LogicalType::DateTime,
        }
    }

    /// The null of the type `ty`.
    pub fn none(ty: LogicalType) -> (r: DataValue)
        ensures
            r == Self::spec_null_of(ty),
    {
        match ty {
            LogicalType::SqlNull => DataValue::Null,
            LogicalType::Boolean => DataValue::Boolean(None),
            LogicalType::Tinyint => DataValue::Int8(None),
            LogicalType::Smallint => DataValue::Int16(None),
            LogicalType::Integer => DataValue::Int32(None),
            LogicalType::Bigint => DataValue::Int64(None),
            LogicalType::Varchar => DataValue::Utf8(None),
            LogicalType::Date => DataValue::Date32(None),
            LogicalType::DateTime => DataValue::Date64(None),
        }
    }

    /// The number of a non-null integer value, widened.
    pub fn integer(&self) -> (r: Option<i64>)
        ensures
            match r {
                Some(n) => self.spec_int() == Some(n as int),
                None => self.spec_int() is None,
            },
    {
        match self {
            DataValue::Int8(Some(v)) => Some(*v as i64),
            DataValue::Int16(Some(v)) => Some(*v as i64),
            DataValue::Int32(Some(v)) => Some(*v as i64),
            DataValue::Int64(Some(v)) => Some(*v),
            _ => None,
        }
    }

    /// The number `n` as a value of the integer type `ty`.
    pub fn int_of(ty: LogicalType, n: i64) -> (r: Result<DataValue, TypeError>)
        ensures
            r == Self::spec_int_of(ty, n as int),
    {
        match ty {
            LogicalType::Tinyint => if n < -128 || n > 127 {
                Err(TypeError::Overflow)
            } else {
                Ok(DataValue::Int8(Some(n as i8)))
            },
            LogicalType::Smallint => if n < -32768 || n > 32767 {
                Err(TypeError::Overflow)
            } else {
                Ok(DataValue::Int16(Some(n as i16)))
            },
            LogicalType::Integer => if n < -2147483648 || n > 2147483647 {
                Err(TypeError::Overflow)
            } else {
                Ok(DataValue::Int32(Some(n as i32)))
            },
            _ => Ok(DataValue::Int64(Some(n))),
        }
    }

    /// Structural equality of two values.
    pub fn same(&self, other: &DataValue) -> (r: bool)
        ensures
            r == self.spec_same(*other),
    {
        match (self, other) {
            (DataValue::Null, DataValue::Null) => true,
            (DataValue::Boolean(None), DataValue::Boolean(None)) => true,
            (DataValue::Boolean(Some(a)), DataValue::Boolean(Some(b))) => *a == *b,
            (DataValue::Int8(None), DataValue::Int8(None)) => true,
            (DataValue::Int8(Some(a)), DataValue::Int8(Some(b))) => *a == *b,
            (DataValue::Int16(None), DataValue::Int16(None)) => true,
            (DataValue::Int16(Some(a)), DataValue::Int16(Some(b))) => *a == *b,
            (DataValue::Int32(None), DataValue::Int32(None)) => true,
            (DataValue::Int32(Some(a)), DataValue::Int32(Some(b))) => *a == *b,
            (DataValue::Int64(None), DataValue::Int64(None)) => true,
            (DataValue::Int64(Some(a)), DataValue::Int64(Some(b))) => *a == *b,
            (DataValue::Utf8(None), DataValue::Utf8(None)) => true,
            (DataValue::Utf8(Some(a)), DataValue::Utf8(Some(b))) => *a == *b,
            (DataValue::Date32(None), DataValue::Date32(None)) => true,
            (DataValue::Date32(Some(a)), DataValue::Date32(Some(b))) => *a == *b,
            (DataValue::Date64(None), DataValue::Date64(None)) => true,
            (DataValue::Date64(Some(a)), DataValue::Date64(Some(b))) => *a == *b,
            _ => false,
        }
    }

    /// Casts the value to the type `to`.
    pub fn cast(&self, to: LogicalType) -> (r: Result<DataValue, TypeError>)
        ensures
            r == self.spec_cast(to),
    {
        if self.is_null() {
            return Ok(Self::none(to));
        }
        if to.is_integer() {
            match self {
                DataValue::Boolean(Some(b)) => Self::int_of(to, if *b { 1 } else { 0 }),
                _ => match self.integer() {
                    Some(n) => match Self::int_of(to, n) {
                        Ok(v) => Ok(v),
                        Err(_) => Err(TypeError::CastFail),
                    },
                    None => Err(TypeError::CastFail),
                },
            }
        } else if to == LogicalType::Boolean {
            match self {
                DataValue::Boolean(b) => Ok(DataValue::Boolean(*b)),
                _ => match self.integer() {
                    Some(n) => Ok(DataValue::Boolean(Some(n != 0))),
                    None => Err(TypeError::CastFail),
                },
            }
        } else {
            match (self, to) {
                (DataValue::Utf8(Some(text)), LogicalType::Varchar) => Ok(DataValue::Utf8(Some(text.clone()))),
                (DataValue::Date32(v), LogicalType::Date) => Ok(DataValue::Date32(*v)),
                (DataValue::Date64(v), LogicalType::DateTime) => Ok(DataValue::Date64(*v)),
                _ => Err(TypeError::CastFail),
            }
        }
    }

    /// The partial order of two values, see [`value_order`].
    pub fn compare(&self, other: &DataValue) -> (r: Option<Order>)
        ensures
            r == value_order(*self, *other),
    {
        match (self, other) {
            (DataValue::Boolean(Some(a)), DataValue::Boolean(Some(b))) => Some(
                order_i64(if *a { 1 } else { 0 }, if *b { 1 } else { 0 }),
            ),
            (DataValue::Utf8(Some(a)), DataValue::Utf8(Some(b))) => Some(
                order_bytes(a.as_str().as_bytes(), b.as_str().as_bytes()),
            ),
            (DataValue::Date32(Some(a)), DataValue::Date32(Some(b))) => Some(order_i64(*a as i64, *b as i64)),
            (DataValue::Date64(Some(a)), DataValue::Date64(Some(b))) => Some(order_i64(*a, *b)),
            _ => match (self.integer(), other.integer()) {
                (Some(a), Some(b)) => Some(order_i64(a, b)),
                _ => None,
            },
        }
    }
}

} // verus!
