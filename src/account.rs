use vstd::prelude::*;

use crate::money::{str_equal, Currency, CurrencyView};

verus! {

/// The five kinds of account of a chart of accounts.
#[derive(Debug, Clone, Copy, PartialEq, Eq, Structural, Hash)]
pub enum AccountType {
    Asset,
    Liability,
    Equity,
    Income,
    Expense,
}

/// Which side of the postings makes an account's balance grow.
#[derive(Debug, Clone, Copy, PartialEq, Eq, Structural)]
pub enum NormalBalance {
    DebitPositive,
    CreditPositive,
}

pub open spec fn spec_normal_balance(t: AccountType) -> NormalBalance {
    match t {
        AccountType::Asset | AccountType::Expense => NormalBalance::DebitPositive,
        AccountType::Liability | AccountType::Equity | AccountType::Income => NormalBalance::CreditPositive,
    }
}

/// The balance of an account of type `t` whose postings total `debits` and `credits`.
pub open spec fn signed_balance(t: AccountType, debits: int, credits: int) -> int {
    match spec_normal_balance(t) {
        NormalBalance::DebitPositive => debits - credits,
        NormalBalance::CreditPositive => credits - debits,
    }
}

/// The place of a type in listings: assets first, expenses last.
pub open spec fn spec_rank(t: AccountType) -> u8 {
    match t {
        AccountType::Asset => 1,
        AccountType::Liability => 2,
        AccountType::Equity => 3,
        AccountType::Income => 4,
        AccountType::Expense => 5,
    }
}

pub open spec fn spec_storage_name(t: AccountType) -> Seq<char> {
    match t {
        AccountType::Asset => "asset"@,
        AccountType::Liability => "liability"@,
        AccountType::Equity => "equity"@,
        AccountType::Income => "income"@,
        AccountType::Expense => "expense"@,
    }
}

/// The type that a caller names as "Asset", "Liability", "Equity", "Income"
/// or "Expense".
pub open spec fn spec_type_named(s: Seq<char>) -> Option<AccountType> {
    if s == "Asset"@ {
        Some(AccountType::Asset)
    } else if s == "Liability"@ {
        Some(AccountType::Liability)
    } else if s == "Equity"@ {
        Some(AccountType::Equity)
    } else if s == "Income"@ {
        Some(AccountType::Income)
    } else if s == "Expense"@ {
        Some(AccountType::Expense)
    } else {
        None
    }
}

impl AccountType {
    /// The type named `s`; `None` for any other text.
    pub fn from_name(s: &str) -> (r: Option<AccountType>)
        ensures
            r == spec_type_named(s@),
    {
        if str_equal(s, "Asset") {
            Some(AccountType::Asset)
        } else if str_equal(s, "Liability") {
            Some(AccountType::Liability)
        } else if str_equal(s, "Equity") {
            Some(AccountType::Equity)
        } else if str_equal(s, "Income") {
            Some(AccountType::Income)
        } else if str_equal(s, "Expense") {
            Some(AccountType::Expense)
        } else {
            None
        }
    }

    /// The sign rule of this type.
    pub fn normal_balance(&self) -> (r: NormalBalance)
        ensures
            r == spec_normal_balance(*self),
    {
        match self {
            AccountType::Asset | AccountType::Expense => NormalBalance::DebitPositive,
            _ => NormalBalance::CreditPositive,
        }
    }

    pub fn rank(&self) -> (r: u8)
        ensures
            r == spec_rank(*self),
    {
        match self {
            AccountType::Asset => 1,
            AccountType::Liability => 2,
            AccountType::Equity => 3,
            AccountType::Income => 4,
            AccountType::Expense => 5,
        }
    }

    /// The lower-case name under which the type is stored.
    pub fn storage_name(&self) -> (r: &'static str)
        ensures
            r@ == spec_storage_name(*self),
    {
        match self {
            AccountType::Asset => "asset",
            AccountType::Liability => "liability",
            AccountType::Equity => "equity",
            AccountType::Income => "income",
            AccountType::Expense => "expense",
        }
    }
}

/// The balance of an account of type `t` whose postings total `debits` and
/// `credits`, both of them sums of positive amounts.
pub fn apply_normal_balance(t: AccountType, debits: i64, credits: i64) -> (r: i64)
    requires
        debits >= 0,
        credits >= 0,
    ensures
        r as int == signed_balance(t, debits as int, credits as int),
{
    match t.normal_balance() {
        NormalBalance::DebitPositive => debits - credits,
        NormalBalance::CreditPositive => credits - debits,
    }
}

/// A point in time, in microseconds since the Unix epoch.
pub type Timestamp = i64;

/// An account of the chart of accounts.
#[derive(Debug)]
pub struct Account {
    pub id: Option<i64>,
    pub name: String,
    pub account_type: AccountType,
    pub parent_id: Option<i64>,
    pub currency: Currency,
    pub description: Option<String>,
    pub is_active: bool,
    pub created_at: Timestamp,
    pub updated_at: Timestamp,
}

/// What an account is.
pub struct AccountView {
    pub id: Option<i64>,
    pub name: Seq<char>,
    pub account_type: AccountType,
    pub parent_id: Option<i64>,
    pub currency: CurrencyView,
    pub description: Option<Seq<char>>,
    pub is_active: bool,
    pub created_at: Timestamp,
    pub updated_at: Timestamp,
}

pub open spec fn opt_text(s: Option<String>) -> Option<Seq<char>> {
    match s {
        Some(t) => Some(t@),
        None => None,
    }
}

/// A copy of an optional text.
pub fn copy_opt_text(s: &Option<String>) -> (r: Option<String>)
    ensures
        opt_text(r) == opt_text(*s),
{
    match s {
        Some(t) => Some(t.clone()),
        None => None,
    }
}

impl View for Account {
    type V = AccountView;

    open spec fn view(&self) -> AccountView {
        AccountView {
            id: self.id,
            name: self.name@,
            account_type: self.account_type,
            parent_id: self.parent_id,
            currency: self.currency@,
            description: opt_text(self.description),
            is_active: self.is_active,
            created_at: self.created_at,
            updated_at: self.updated_at,
        }
    }
}

impl Account {
    /// A copy of this account.
    pub fn copied(&self) -> (r: Account)
        ensures
            r@ == self@,
    {
        Account {
            id: self.id,
            name: self.name.clone(),
            account_type: self.account_type,
            parent_id: self.parent_id,
            currency: self.currency.copied(),
            description: copy_opt_text(&self.description),
            is_active: self.is_active,
            created_at: self.created_at,
            updated_at: self.updated_at,
        }
    }
}

/// An account in the tree of active accounts, with its depth below its root
/// and the names from the root down to it.
#[derive(Debug)]
pub struct AccountNode {
    pub account: Account,
    pub level: i32,
    pub path: String,
}

} // verus!
