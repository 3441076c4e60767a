use crate::rank::{digit_char, digit_symbol, symbol_str};
use vstd::prelude::*;
use vstd::string::StringExecFns;

verus! {

/// The decimal digits of a number, the most significant first.
pub open spec fn decimal_digits(n: nat) -> Seq<char>
    decreases n,
{
    if n < 10 {
        seq![digit_symbol(n as int)]
    } else {
        decimal_digits(n / 10).push(digit_symbol((n % 10) as int))
    }
}

/// The number written in decimal digits.
pub fn decimal(n: usize) -> (text: String)
    ensures
        text@ == decimal_digits(n as nat),
    decreases n,
{
    if n < 10 {
        let mut text = String::new();
        text.append(symbol_str(digit_char(n as u8)));
        assert(text@ =~= decimal_digits(n as nat));
        text
    } else {
        let mut text = decimal(n / 10);
        text.append(symbol_str(digit_char((n % 10) as u8)));
        assert(text@ =~= decimal_digits(n as nat));
        text
    }
}

} // verus!
