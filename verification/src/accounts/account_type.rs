//! The classification of an account.

use vstd::prelude::*;
use vstd::std_specs::convert::FromSpecImpl;
use crate::text::{lowercase, lowercase_of, same_text};

verus! {

/// The kind of an account, which decides the side of its normal balance.
#[derive(Clone, Copy, PartialEq, Eq, Debug, Structural)]
pub enum AccountType {
    /// An asset account; normally carries a debit balance.
    Asset,
    /// An equity account.
    Equity,
    /// An expense account; normally carries a debit balance.
    Expense,
    /// An income account; normally carries a credit balance.
    Income,
    /// A liability account; normally carries a credit balance.
    Liability,
    /// An account of none of the kinds above.
    Other,
}

/// The account type that a lower-case name stands for. Any text that is not
/// one of the five names is `Other`.
pub open spec fn account_type_named(name: Seq<char>) -> AccountType {
    if name == "asset"@ {
        AccountType::Asset
    } else if name == "equity"@ {
        AccountType::Equity
    } else if name == "expense"@ {
        AccountType::Expense
    } else if name == "income"@ {
        AccountType::Income
    } else if name == "liability"@ {
        AccountType::Liability
    } else {
        AccountType::Other
    }
}

/// Each of the five names stands for its own type, and every other text,
/// among them a name that is not all in lower case, stands for `Other`.
pub proof fn lemma_account_type_named(name: Seq<char>)
    ensures
        account_type_named(name) == AccountType::Asset <==> name == "asset"@,
        account_type_named(name) == AccountType::Equity <==> name == "equity"@,
        account_type_named(name) == AccountType::Expense <==> name == "expense"@,
        account_type_named(name) == AccountType::Income <==> name == "income"@,
        account_type_named(name) == AccountType::Liability <==> name == "liability"@,
        account_type_named(name) == AccountType::Other <==> name != "asset"@ && name != "equity"@
            && name != "expense"@ && name != "income"@ && name != "liability"@,
        "asset"@ == seq!['a', 's', 's', 'e', 't'],
        "equity"@ == seq!['e', 'q', 'u', 'i', 't', 'y'],
        "expense"@ == seq!['e', 'x', 'p', 'e', 'n', 's', 'e'],
        "income"@ == seq!['i', 'n', 'c', 'o', 'm', 'e'],
        "liability"@ == seq!['l', 'i', 'a', 'b', 'i', 'l', 'i', 't', 'y'],
{
    reveal_strlit("asset");
    reveal_strlit("equity");
    reveal_strlit("expense");
    reveal_strlit("income");
    reveal_strlit("liability");
    assert("expense"@ =~= seq!['e', 'x', 'p', 'e', 'n', 's', 'e']);
    assert("liability"@ =~= seq!['l', 'i', 'a', 'b', 'i', 'l', 'i', 't', 'y']);
    assert("equity"@[0] != "income"@[0]);
}

impl AccountType {
    /// The number that stands for this type in stored data, from 1 for
    /// `Asset` to 6 for `Other`.
    pub open spec fn spec_code(self) -> u32 {
        match self {
            AccountType::Asset => 1,
            AccountType::Equity => 2,
            AccountType::Expense => 3,
            AccountType::Income => 4,
            AccountType::Liability => 5,
            AccountType::Other => 6,
        }
    }

    /// The number that stands for this type in stored data.
    pub fn code(self) -> (code: u32)
        ensures
            code == self.spec_code(),
    {
        match self {
            AccountType::Asset => 1,
            AccountType::Equity => 2,
            AccountType::Expense => 3,
            AccountType::Income => 4,
            AccountType::Liability => 5,
            AccountType::Other => 6,
        }
    }

    /// Resolves a name that is already in lower case. The match is exact;
    /// a name that is none of the five known ones gives `Other`.
    pub fn from_lowercase(name: &str) -> (account_type: AccountType)
        ensures
            account_type == account_type_named(name@),
    {
        if same_text(name, "asset") {
            AccountType::Asset
        } else if same_text(name, "equity") {
            AccountType::Equity
        } else if same_text(name, "expense") {
            AccountType::Expense
        } else if same_text(name, "income") {
            AccountType::Income
        } else if same_text(name, "liability") {
            AccountType::Liability
        } else {
            AccountType::Other
        }
    }
}

impl<'a> FromSpecImpl<&'a str> for AccountType {
    open spec fn obeys_from_spec() -> bool {
        true
    }

    open spec fn from_spec(value: &'a str) -> AccountType {
        account_type_named(lowercase_of(value@))
    }
}

impl<'a> From<&'a str> for AccountType {
    /// Resolves the name of an account type without regard to case: the
    /// name is brought to lower case and then matched exactly. It never
    /// fails; an unknown name gives `Other`.
    fn from(value: &'a str) -> (account_type: AccountType)
        ensures
            account_type == account_type_named(lowercase_of(value@)),
    {
        let lowered = lowercase(value);
        AccountType::from_lowercase(lowered.as_str())
    }
}

} // verus!
