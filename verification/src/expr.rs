use crate::attribute::ExprValue;
use vstd::prelude::*;

verus! {

/// The value of a string literal; `None` for any other expression.
pub open spec fn literal_value(e: ExprValue) -> Option<Seq<char>> {
    match e {
        ExprValue::LitStr(s) => Some(s@),
        ExprValue::Other => None,
    }
}

/// The string of an expression that is a string literal.  Anything else is
/// refused (`None`), which the macro reports as "Expected a string literal".
pub fn as_lit_str(e: &ExprValue) -> (res: Option<&String>)
    ensures
        match e {
            ExprValue::LitStr(s) => res == Some(s),
            ExprValue::Other => res is None,
        },
{
    match e {
        ExprValue::LitStr(s) => Some(s),
        ExprValue::Other => None,
    }
}

} // verus!
