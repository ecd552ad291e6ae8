//! An explicit sign prefix for integer replies.

use vstd::prelude::*;

verus! {

#[derive(Debug, Clone, Copy, PartialEq, Eq, Structural)]
pub enum Sign {
    Plus,
    Minus,
}

/// The literal prefix character of each sign.
pub open spec fn spec_sign_char(s: Sign) -> char {
    match s {
        Sign::Plus => '+',
        Sign::Minus => '-',
    }
}

impl Sign {
    /// The sign as a one-character string.
    pub fn as_str(&self) -> (r: &'static str)
        ensures
            r@ == seq![spec_sign_char(*self)],
    {
        proof {
            reveal_strlit("+");
            reveal_strlit("-");
        }
        match self {
            Sign::Plus => "+",
            Sign::Minus => "-",
        }
    }
}

} // verus!
