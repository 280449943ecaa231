//! What holds of the order of values.
use super::value::{lex_order_from, value_order, DataValue, Order};
use vstd::prelude::*;
use vstd::utf8::encode_utf8;

verus! {

/// Read from the other side, the order of two byte strings is reversed.
pub proof fn lemma_lex_reversed(a: Seq<u8>, b: Seq<u8>, i: int)
    ensures
        lex_order_from(b, a, i) == lex_order_from(a, b, i).spec_reverse(),
    decreases a.len() - i,
{
    if 0 <= i < a.len() && i < b.len() && a[i] == b[i] {
        lemma_lex_reversed(a, b, i + 1);
    }
}

/// Byte strings that agree before `i` and are equal in order from `i` on are
/// the same.
pub proof fn lemma_lex_equal(a: Seq<u8>, b: Seq<u8>, i: int)
    requires
        0 <= i,
        forall|k: int| 0 <= k < i && k < a.len() && k < b.len() ==> a[k] == b[k],
        i <= a.len(),
        i <= b.len(),
    ensures
        lex_order_from(a, b, i) is Equal <==> a == b,
    decreases a.len() - i,
{
    if i >= a.len() && i >= b.len() {
        assert(a =~= b);
    } else if i >= a.len() || i >= b.len() {
    } else if a[i] == b[i] {
        lemma_lex_equal(a, b, i + 1);
    }
}

/// The order of byte strings is transitive.
pub proof fn lemma_lex_transitive(a: Seq<u8>, b: Seq<u8>, c: Seq<u8>, i: int)
    requires
        0 <= i,
        !(lex_order_from(a, b, i) is Greater),
        !(lex_order_from(b, c, i) is Greater),
    ensures
        !(lex_order_from(a, c, i) is Greater),
        lex_order_from(a, c, i) is Equal ==> lex_order_from(a, b, i) is Equal && lex_order_from(b, c, i) is Equal,
    decreases a.len() - i,
{
    if i < a.len() && i < b.len() && i < c.len() && a[i] == b[i] && b[i] == c[i] {
        lemma_lex_transitive(a, b, c, i + 1);
    }
}

/// Whether two values can be ordered: neither is null, and both are integers
/// or both are of one other type.
pub open spec fn ordered(a: DataValue, b: DataValue) -> bool {
    value_order(a, b) is Some
}

/// Read from the other side, the order of two values is reversed.
pub proof fn lemma_order_reversed(a: DataValue, b: DataValue)
    ensures
        value_order(b, a) == match value_order(a, b) {
            Some(order) => Some(order.spec_reverse()),
            None => None,
        },
{
    match (a, b) {
        (DataValue::Utf8(Some(x)), DataValue::Utf8(Some(y))) => {
            lemma_lex_reversed(encode_utf8(x@), encode_utf8(y@), 0);
        },
        _ => {},
    }
}

/// The order of values is transitive: what can be ordered with a second
/// value that can be ordered with a third can be ordered with the third, and
/// "not greater" carries over, strictly where one of the two steps is strict.
pub proof fn lemma_order_transitive(a: DataValue, b: DataValue, c: DataValue)
    requires
        ordered(a, b),
        ordered(b, c),
    ensures
        ordered(a, c),
        !(value_order(a, b)->0 is Greater) && !(value_order(b, c)->0 is Greater) ==> {
            &&& !(value_order(a, c)->0 is Greater)
            &&& value_order(a, c)->0 is Equal ==> value_order(a, b)->0 is Equal && value_order(b, c)->0 is Equal
        },
{
    match (a, b, c) {
        (DataValue::Utf8(Some(x)), DataValue::Utf8(Some(y)), DataValue::Utf8(Some(z))) => {
            if !(value_order(a, b)->0 is Greater) && !(value_order(b, c)->0 is Greater) {
                lemma_lex_transitive(encode_utf8(x@), encode_utf8(y@), encode_utf8(z@), 0);
            }
        },
        _ => {},
    }
}

/// Two values of one type that are equal in order are structurally equal.
pub proof fn lemma_order_equal_same(a: DataValue, b: DataValue)
    requires
        a.spec_logical_type() == b.spec_logical_type(),
        value_order(a, b) == Some(Order::Equal),
    ensures
        a.spec_same(b),
{
    match (a, b) {
        (DataValue::Utf8(Some(x)), DataValue::Utf8(Some(y))) => {
            lemma_lex_equal(encode_utf8(x@), encode_utf8(y@), 0);
            vstd::utf8::encode_utf8_decode_utf8(x@);
            vstd::utf8::encode_utf8_decode_utf8(y@);
        },
        _ => {},
    }
}

} // verus!
