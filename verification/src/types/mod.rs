//! Logical types of SQL values.
use vstd::prelude::*;

pub mod errors;
pub mod index;
pub mod order;
pub mod tuple;
pub mod value;

verus! {

/// Identifier of a column inside its table.
pub type ColumnId = u32;

/// The logical type of a SQL value.
#[derive(Debug, Clone, Copy, PartialEq, Eq, Hash, Structural)]
pub enum LogicalType {
    SqlNull,
    Boolean,
    Tinyint,
    Smallint,
    Integer,
    Bigint,
    Varchar,
    Date,
    DateTime,
}

impl LogicalType {
    /// Whether the type is one of the signed integer types.
    pub open spec fn spec_is_integer(self) -> bool {
        self is Tinyint || self is Smallint || self is Integer || self is Bigint
    }

    /// Width in bytes of an integer type, 0 for every other type.
    pub open spec fn spec_width(self) -> nat {
        match self {
            LogicalType::Tinyint => 1,
            LogicalType::Smallint => 2,
            LogicalType::Integer => 4,
            LogicalType::Bigint => 8,
            _ => 0,
        }
    }

    /// Smallest number an integer type holds.
    pub open spec fn spec_min(self) -> int {
        match self {
            LogicalType::Tinyint => i8::MIN as int,
            LogicalType::Smallint => i16::MIN as int,
            LogicalType::Integer => i32::MIN as int,
            _ => i64::MIN as int,
        }
    }

    /// Largest number an integer type holds.
    pub open spec fn spec_max(self) -> int {
        match self {
            LogicalType::Tinyint => i8::MAX as int,
            LogicalType::Smallint => i16::MAX as int,
            LogicalType::Integer => i32::MAX as int,
            _ => i64::MAX as int,
        }
    }

    /// The type two operands are brought to before an operator is applied:
    /// equal types stay, the null type yields to the other, two integer
    /// types widen to the larger; any other pair has no common type.
    pub open spec fn spec_unify(self, other: LogicalType) -> Option<LogicalType> {
        if self == other {
            Some(self)
        } else if self is SqlNull {
            Some(other)
        } else if other is SqlNull {
            Some(self)
        } else if self.spec_is_integer() && other.spec_is_integer() {
            Some(if self.spec_width() >= other.spec_width() { self } else { other })
        } else {
            None
        }
    }

    /// Whether the type is one of the signed integer types.
    #[verifier::when_used_as_spec(spec_is_integer)]
    pub fn is_integer(self) -> (r: bool)
        ensures
            r == self.spec_is_integer(),
    {
        match self {
            LogicalType::Tinyint | LogicalType::Smallint | LogicalType::Integer | LogicalType::Bigint => true,
            _ => false,
        }
    }

    fn width(self) -> (r: u8)
        ensures
            r == self.spec_width(),
    {
        match self {
            LogicalType::Tinyint => 1,
            LogicalType::Smallint => 2,
            LogicalType::Integer => 4,
            LogicalType::Bigint => 8,
            _ => 0,
        }
    }

    /// The common type of two operand types, see [`LogicalType::spec_unify`].
    pub fn max_logical_type(self, other: LogicalType) -> (r: Result<LogicalType, errors::TypeError>)
        ensures
            r == (match self.spec_unify(other) {
                Some(ty) => Ok::<LogicalType, errors::TypeError>(ty),
                None => Err(errors::TypeError::InvalidType),
            }),
    {
        if self == other {
            Ok(self)
        } else if self == LogicalType::SqlNull {
            Ok(other)
        } else if other == LogicalType::SqlNull {
            Ok(self)
        } else if self.is_integer() && other.is_integer() {
            Ok(if self.width() >= other.width() { self } else { other })
        } else {
            Err(errors::TypeError::InvalidType)
        }
    }
}

} // verus!
