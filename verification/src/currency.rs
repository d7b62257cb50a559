//! The currencies an account can be denominated in.

use vstd::prelude::*;
use vstd::std_specs::convert::FromSpecImpl;
use crate::text::same_text;

verus! {

/// The resource an account is denominated in.
///
/// Currently, only US Dollars are supported.
#[derive(Clone, Copy, PartialEq, Eq, Debug, Structural)]
pub enum Currency {
    /// United States Dollars.
    USDollar,
    /// The currency of an abbreviation that is not known.
    Unknown,
}

/// The currency that an abbreviation stands for: exactly `USD` is the US
/// dollar, every other text is `Unknown`.
pub open spec fn currency_of(abbrev: Seq<char>) -> Currency {
    if abbrev == "USD"@ {
        Currency::USDollar
    } else {
        Currency::Unknown
    }
}

/// The US dollar is what the three letters U, S, D stand for, in upper
/// case and with nothing around them; every other text, the empty one
/// among them, stands for `Unknown`.
pub proof fn lemma_currency_of(abbrev: Seq<char>)
    ensures
        currency_of(abbrev) == Currency::USDollar <==> abbrev == seq!['U', 'S', 'D'],
        currency_of(abbrev) == Currency::Unknown <==> abbrev != seq!['U', 'S', 'D'],
{
    reveal_strlit("USD");
    assert("USD"@ =~= seq!['U', 'S', 'D']);
}

impl<'a> FromSpecImpl<&'a str> for Currency {
    open spec fn obeys_from_spec() -> bool {
        true
    }

    open spec fn from_spec(abbrev: &'a str) -> Currency {
        currency_of(abbrev@)
    }
}

impl<'a> From<&'a str> for Currency {
    /// Resolves a currency abbreviation; the match is exact and never fails.
    fn from(abbrev: &'a str) -> (currency: Currency)
        ensures
            currency == currency_of(abbrev@),
    {
        if same_text(abbrev, "USD") {
            Currency::USDollar
        } else {
            Currency::Unknown
        }
    }
}

} // verus!
