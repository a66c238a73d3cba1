//! Arbitrary-precision decimals, parsed and rendered by `bigdecimal`.
use crate::error::RespError;
use bigdecimal::{BigDecimal, ParseBigDecimalError};
use std::str::FromStr;
use vstd::prelude::*;

verus! {

#[verifier::external_type_specification]
#[verifier::external_body]
pub struct ExParseBigDecimalError(ParseBigDecimalError);

/// Whether `BigDecimal::from_str` accepts the text.
pub uninterp spec fn decimal_parses(s: Seq<char>) -> bool;

/// Whether the decimal that `BigDecimal::from_str` reads from the text is below zero.
pub uninterp spec fn decimal_is_negative(s: Seq<char>) -> bool;

/// How `BigDecimal`'s `Display` renders the decimal read from the text.
pub uninterp spec fn decimal_display(s: Seq<char>) -> Seq<char>;

/// A character of a decimal's canonical text: a digit, a sign, a point or an
/// exponent mark.
pub open spec fn decimal_char(c: char) -> bool {
    ('0' <= c && c <= '9') || c == '+' || c == '-' || c == '.' || c == 'e' || c == 'E'
}

pub open spec fn decimal_text(t: Seq<char>) -> bool {
    forall|i: int| 0 <= i < t.len() ==> decimal_char(#[trigger] t[i])
}

/// Relies on `BigDecimal::from_str` to read the text, on its comparison with
/// zero for the sign, and on its `Display` for the canonical rendering, which
/// writes only ASCII digits, signs, a point and an exponent mark.
#[verifier::external_body]
fn read_decimal(s: &str) -> (r: Result<(bool, String), ParseBigDecimalError>)
    ensures
        r is Ok <==> decimal_parses(s@),
        r matches Ok((neg, t)) ==> neg == decimal_is_negative(s@) && t@ == decimal_display(s@)
            && decimal_text(t@),
{
    match BigDecimal::from_str(s) {
        Ok(d) => Ok((d < BigDecimal::from(0), d.to_string())),
        Err(e) => Err(e),
    }
}

/// An arbitrary-precision decimal, held as its sign and its canonical text.
#[derive(Debug, Clone, PartialEq, Eq)]
pub struct BigNumber {
    negative: bool,
    text: String,
}

impl BigNumber {
    pub closed spec fn spec_negative(&self) -> bool {
        self.negative
    }

    pub closed spec fn spec_text(&self) -> Seq<char> {
        self.text@
    }

    /// Its text is made of decimal characters only.
    pub open spec fn wf(&self) -> bool {
        decimal_text(self.spec_text())
    }

    /// Reads a decimal literal such as `-2222.122`.
    pub fn new(s: &str) -> (r: Result<BigNumber, RespError>)
        ensures
            r is Ok <==> decimal_parses(s@),
            r matches Ok(b) ==> b.spec_negative() == decimal_is_negative(s@) && b.spec_text()
                == decimal_display(s@) && b.wf(),
            r matches Err(e) ==> e == RespError::ParseBigNumberError,
    {
        match read_decimal(s) {
            Ok((negative, text)) => Ok(BigNumber { negative, text }),
            Err(_) => Err(RespError::ParseBigNumberError),
        }
    }

    /// Whether the decimal is below zero.
    pub fn is_negative(&self) -> (r: bool)
        ensures
            r == self.spec_negative(),
    {
        self.negative
    }

    /// The decimal's canonical text, with its own minus sign when negative.
    pub fn text(&self) -> (r: &str)
        ensures
            r@ == self.spec_text(),
    {
        self.text.as_str()
    }
}

} // verus!
