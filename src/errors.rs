use vstd::prelude::*;

use vstd::string::StringExecFns;

verus! {

/// A currency code that cannot be used.
#[derive(Debug)]
pub enum CurrencyError {
    InvalidCurrencyCode(String),
}

/// A broken business rule.
#[derive(Debug, Clone, Copy, PartialEq, Eq, Structural)]
pub enum ValidationError {
    ParentRequired,
    ParentTypeMismatch,
    EmptyName,
    HierarchyTooDeep,
    SelfParent,
    ActiveChildren { account_id: i64, count: u64 },
    AccountInactive(i64),
    AccountMissing(i64),
    TooFewEntries,
    NonPositiveAmount,
    MixedCurrencies,
    Unbalanced { debits: i64, credits: i64 },
    TotalOverflow,
    InvalidDate,
    MissingAccountId,
}

/// A lookup of a row that does not exist.
#[derive(Debug, Clone, Copy, PartialEq, Eq, Structural)]
pub enum NotFound {
    Account(i64),
    Transaction(i64),
}

/// A failure of the store itself.
#[derive(Debug, Clone, Copy, PartialEq, Eq, Structural)]
pub enum StorageFault {
    IdSpaceExhausted,
    SumOverflow,
    LevelOverflow,
}

#[derive(Debug)]
pub enum WalletError {
    CurrencyError(CurrencyError),
    ValidationError(ValidationError),
    NotFoundError(NotFound),
    StorageError(StorageFault),
}

/// The decimal digits of `n`, with a minus sign where negative, as
/// `i64::to_string` writes them.
pub uninterp spec fn decimal_text(n: int) -> Seq<char>;

/// Relies on `ToString` for `i64`: the text depends on the number alone.
#[verifier::external_body]
fn int_to_text(n: i64) -> (r: String)
    ensures
        r@ == decimal_text(n as int),
{
    n.to_string()
}

/// `head` followed by the decimal text of `n` and then `tail`.
fn with_number(head: &str, n: i64, tail: &str) -> (r: String)
    ensures
        r@ == head@ + decimal_text(n as int) + tail@,
{
    let mut s = String::from_str(head);
    let t = int_to_text(n);
    s.append(t.as_str());
    s.append(tail);
    s
}

/// The message of an unbalanced transaction, which names both totals.
pub open spec fn unbalanced_text(debits: i64, credits: i64) -> Seq<char> {
    "Transaction is not balanced: debits="@ + decimal_text(debits as int) + ", credits="@ + decimal_text(credits as int)
}

impl ValidationError {
    /// A sentence that describes the broken rule.
    pub fn message(&self) -> (r: String)
        ensures
            *self matches ValidationError::Unbalanced { debits, credits } ==> r@ == unbalanced_text(debits, credits),
    {
        match self {
            ValidationError::ParentRequired => String::from_str("Parent account is required"),
            ValidationError::ParentTypeMismatch => String::from_str(
                "Account type must be under a parent of the same type",
            ),
            ValidationError::EmptyName => String::from_str("Account name cannot be empty"),
            ValidationError::HierarchyTooDeep => String::from_str("Account hierarchy too deep (max 5 levels)"),
            ValidationError::SelfParent => String::from_str("Account cannot be its own parent"),
            ValidationError::ActiveChildren { account_id, count } => {
                let mut s = with_number("Cannot deactivate account ", *account_id, " - it has ");
                let c = if *count > i64::MAX as u64 {
                    i64::MAX
                } else {
                    *count as i64
                };
                let t = with_number("", c, " child accounts");
                s.append(t.as_str());
                s
            },
            ValidationError::AccountInactive(id) => with_number("Account ", *id, " is inactive"),
            ValidationError::AccountMissing(id) => with_number("Account ", *id, " does not exist"),
            ValidationError::TooFewEntries => String::from_str("Transaction must have at least 2 entries"),
            ValidationError::NonPositiveAmount => String::from_str("All transaction amounts must be positive"),
            ValidationError::MixedCurrencies => String::from_str("Multi-currency transactions not supported yet"),
            ValidationError::Unbalanced { debits, credits } => {
                let mut s = with_number("Transaction is not balanced: debits=", *debits, ", credits=");
                let t = int_to_text(*credits);
                s.append(t.as_str());
                s
            },
            ValidationError::TotalOverflow => String::from_str("Transaction totals do not fit in 64 bits"),
            ValidationError::InvalidDate => String::from_str("Invalid date"),
            ValidationError::MissingAccountId => String::from_str("Account ID is required for update"),
        }
    }
}

impl WalletError {
    /// A sentence that describes the error.
    pub fn message(&self) -> (r: String)
        ensures
            *self matches WalletError::ValidationError(ValidationError::Unbalanced { debits, credits }) ==> r@
                == unbalanced_text(debits, credits),
    {
        match self {
            WalletError::CurrencyError(CurrencyError::InvalidCurrencyCode(code)) => {
                let mut s = String::from_str("Invalid currency code: ");
                s.append(code.as_str());
                s
            },
            WalletError::ValidationError(v) => v.message(),
            WalletError::NotFoundError(NotFound::Account(id)) => with_number("Account ", *id, " not found"),
            WalletError::NotFoundError(NotFound::Transaction(id)) => with_number("Transaction ", *id, " not found"),
            WalletError::StorageError(StorageFault::IdSpaceExhausted) => String::from_str("The store has no ids left"),
            WalletError::StorageError(StorageFault::SumOverflow) => String::from_str("A sum of amounts does not fit in 64 bits"),
            WalletError::StorageError(StorageFault::LevelOverflow) => String::from_str("An account lies too deep to number its level"),
        }
    }
}

} // verus!
