//! The byte that stands for the side of a `TRIM`.
use sqlparser::ast::TrimWhereField;
use vstd::prelude::*;

verus! {

/// The side from which `TRIM` removes characters, as the SQL parser defines
/// it: both sides, the leading or the trailing one.
#[verifier::external_type_specification]
pub struct ExTrimWhereField(TrimWhereField);

/// The byte of a side.
pub open spec fn type_id(field: TrimWhereField) -> u8 {
    match field {
        TrimWhereField::Both => 0,
        TrimWhereField::Leading => 1,
        TrimWhereField::Trailing => 2,
    }
}

/// The byte that is written for a side.
pub fn encode(field: &TrimWhereField) -> (r: u8)
    ensures
        r == type_id(*field),
{
    match field {
        TrimWhereField::Both => 0,
        TrimWhereField::Leading => 1,
        TrimWhereField::Trailing => 2,
    }
}

/// The side that a byte stands for; none for a byte that no side is written
/// as.
pub open spec fn from_type_id(byte: u8) -> Option<TrimWhereField> {
    if byte == 0 {
        Some(TrimWhereField::Both)
    } else if byte == 1 {
        Some(TrimWhereField::Leading)
    } else if byte == 2 {
        Some(TrimWhereField::Trailing)
    } else {
        None
    }
}

/// The side that a byte stands for, see [`from_type_id`].
pub fn decode(byte: u8) -> (r: Option<TrimWhereField>)
    ensures
        r == from_type_id(byte),
{
    match byte {
        0 => Some(TrimWhereField::Both),
        1 => Some(TrimWhereField::Leading),
        2 => Some(TrimWhereField::Trailing),
        _ => None,
    }
}

/// A side that is written and read back is the same side.
pub proof fn lemma_decode_encode(field: TrimWhereField)
    ensures
        from_type_id(type_id(field)) == Some(field),
{
}

} // verus!
