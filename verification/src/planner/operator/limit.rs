//! `LIMIT` and `OFFSET`.
use super::Operator;
use crate::planner::LogicalPlan;
use vstd::prelude::*;
use vstd::string::StringExecFns;

verus! {

/// Passes on `limit` rows at most, after skipping `offset` rows.
#[derive(Debug, PartialEq, Eq, Clone, Copy, Hash)]
pub struct LimitOperator {
    pub offset: Option<usize>,
    pub limit: Option<usize>,
}

/// The character of a decimal digit.
pub open spec fn digit_char(d: nat) -> char {
    if d == 0 {
        '0'
    } else if d == 1 {
        '1'
    } else if d == 2 {
        '2'
    } else if d == 3 {
        '3'
    } else if d == 4 {
        '4'
    } else if d == 5 {
        '5'
    } else if d == 6 {
        '6'
    } else if d == 7 {
        '7'
    } else if d == 8 {
        '8'
    } else {
        '9'
    }
}

/// A number in decimal digits, without leading zeros.
pub open spec fn decimal(n: nat) -> Seq<char>
    decreases n,
{
    if n < 10 {
        seq![digit_char(n)]
    } else {
        decimal(n / 10).push(digit_char(n % 10))
    }
}

/// The words that describe a limit and an offset: `Limit n`, `Offset m`, or
/// both with a comma between them; nothing where neither is given.
pub open spec fn limit_text(op: LimitOperator) -> Seq<char> {
    let limit = match op.limit {
        Some(n) => "Limit "@ + decimal(n as nat),
        None => Seq::empty(),
    };
    let comma = if op.limit is Some && op.offset is Some {
        ", "@
    } else {
        Seq::empty()
    };
    let offset = match op.offset {
        Some(n) => "Offset "@ + decimal(n as nat),
        None => Seq::empty(),
    };
    limit + comma + offset
}

fn digit(d: usize) -> (r: &'static str)
    requires
        d < 10,
    ensures
        r@ == seq![digit_char(d as nat)],
{
    proof {
        reveal_strlit("0");
        reveal_strlit("1");
        reveal_strlit("2");
        reveal_strlit("3");
        reveal_strlit("4");
        reveal_strlit("5");
        reveal_strlit("6");
        reveal_strlit("7");
        reveal_strlit("8");
        reveal_strlit("9");
    }
    let r = if d == 0 {
        "0"
    } else if d == 1 {
        "1"
    } else if d == 2 {
        "2"
    } else if d == 3 {
        "3"
    } else if d == 4 {
        "4"
    } else if d == 5 {
        "5"
    } else if d == 6 {
        "6"
    } else if d == 7 {
        "7"
    } else if d == 8 {
        "8"
    } else {
        "9"
    };
    assert(r@ =~= seq![digit_char(d as nat)]);
    r
}

fn write_decimal(text: &mut String, n: usize)
    ensures
        final(text)@ == old(text)@ + decimal(n as nat),
    decreases n,
{
    if n >= 10 {
        write_decimal(text, n / 10);
    }
    text.append(digit(n % 10));
    assert(final(text)@ =~= old(text)@ + decimal(n as nat));
}

impl LimitOperator {
    /// The plan that limits the rows of `children`.
    pub fn build(offset: Option<usize>, limit: Option<usize>, children: LogicalPlan) -> (r: LogicalPlan)
        ensures
            r.operator == Operator::Limit(LimitOperator { offset, limit }),
            r.childrens@ == seq![children],
    {
        let mut childrens: Vec<LogicalPlan> = Vec::new();
        childrens.push(children);
        LogicalPlan::new(Operator::Limit(LimitOperator { offset, limit }), childrens)
    }

    /// The operator in words, see [`limit_text`].
    pub fn describe(&self) -> (r: String)
        ensures
            r@ == limit_text(*self),
    {
        let mut text = String::new();
        if let Some(limit) = self.limit {
            text.append("Limit ");
            write_decimal(&mut text, limit);
        }
        if self.limit.is_some() && self.offset.is_some() {
            text.append(", ");
        }
        if let Some(offset) = self.offset {
            text.append("Offset ");
            write_decimal(&mut text, offset);
        }
        assert(text@ =~= limit_text(*self));
        text
    }
}

} // verus!
