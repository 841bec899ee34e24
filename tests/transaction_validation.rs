use wallet_core::errors::{ValidationError, WalletError};
use wallet_core::money::{Currency, Money};
use wallet_core::transaction::{EntryType, TransactionEntryInput};
use wallet_core::transaction_service::TransactionService;

fn input(account_id: i64, amount: Money, entry_type: EntryType) -> TransactionEntryInput {
    TransactionEntryInput { account_id, amount, entry_type, description: None }
}

#[test]
fn test_validate_transaction_balance_success() {
    let currency = Currency::new("EUR", 2, "€").unwrap();
    let amount = Money::from_minor_units(1000, currency.copied());

    let entries = vec![
        input(1, amount.copied(), EntryType::Credit),
        input(2, amount, EntryType::Debit),
    ];

    assert!(TransactionService::validate_transaction_balance(&entries).is_ok());
}

#[test]
fn test_validate_transaction_balance_unbalanced() {
    let currency = Currency::new("EUR", 2, "€").unwrap();
    let amount1 = Money::from_minor_units(1000, currency.copied());
    let amount2 = Money::from_minor_units(1500, currency.copied());

    let entries = vec![input(1, amount1, EntryType::Credit), input(2, amount2, EntryType::Debit)];

    let result = TransactionService::validate_transaction_balance(&entries);
    assert!(result.is_err());
    assert!(result.unwrap_err().message().contains("not balanced"));
}

#[test]
fn test_validate_transaction_balance_too_few_entries() {
    let currency = Currency::new("EUR", 2, "€").unwrap();
    let amount = Money::from_minor_units(1000, currency);

    let entries = vec![input(1, amount, EntryType::Credit)];

    let result = TransactionService::validate_transaction_balance(&entries);
    assert!(result.is_err());
    assert!(result.unwrap_err().message().contains("at least 2 entries"));
}

#[test]
fn test_validate_transaction_balance_negative_amount() {
    let currency = Currency::new("EUR", 2, "€").unwrap();
    let amount = Money::from_minor_units(-1000, currency.copied());
    let amount2 = Money::from_minor_units(1000, currency);

    let entries = vec![input(1, amount, EntryType::Credit), input(2, amount2, EntryType::Debit)];

    let result = TransactionService::validate_transaction_balance(&entries);
    assert!(result.is_err());
    assert!(result.unwrap_err().message().contains("must be positive"));
}

#[test]
fn unbalanced_error_names_both_totals() {
    let eur = Currency::eur();
    let entries = vec![
        input(1, Money::from_minor_units(700, eur.copied()), EntryType::Credit),
        input(2, Money::from_minor_units(300, eur.copied()), EntryType::Credit),
        input(3, Money::from_minor_units(1200, eur.copied()), EntryType::Debit),
    ];
    let err = TransactionService::validate_transaction_balance(&entries).unwrap_err();
    assert!(matches!(
        err,
        WalletError::ValidationError(ValidationError::Unbalanced { debits: 1200, credits: 1000 })
    ));
    assert_eq!(err.message(), "Transaction is not balanced: debits=1200, credits=1000");
}

#[test]
fn accepted_entries_have_equal_debit_and_credit_totals() {
    let eur = Currency::eur();
    let entries = vec![
        input(1, Money::from_minor_units(250, eur.copied()), EntryType::Debit),
        input(2, Money::from_minor_units(750, eur.copied()), EntryType::Debit),
        input(3, Money::from_minor_units(1000, eur.copied()), EntryType::Credit),
    ];
    assert!(TransactionService::validate_transaction_balance(&entries).is_ok());
    let debits: i64 = entries.iter().filter(|e| e.entry_type == EntryType::Debit).map(|e| e.amount.amount_minor()).sum();
    let credits: i64 = entries.iter().filter(|e| e.entry_type == EntryType::Credit).map(|e| e.amount.amount_minor()).sum();
    assert_eq!(debits, credits);
}

#[test]
fn mixed_currencies_are_refused() {
    let entries = vec![
        input(1, Money::from_minor_units(100, Currency::eur()), EntryType::Credit),
        input(2, Money::from_minor_units(100, Currency::btc()), EntryType::Debit),
    ];
    let err = TransactionService::validate_transaction_balance(&entries).unwrap_err();
    assert!(matches!(err, WalletError::ValidationError(ValidationError::MixedCurrencies)));
}

#[test]
fn zero_amount_is_refused() {
    let entries = vec![
        input(1, Money::from_minor_units(0, Currency::eur()), EntryType::Credit),
        input(2, Money::from_minor_units(0, Currency::eur()), EntryType::Debit),
    ];
    let err = TransactionService::validate_transaction_balance(&entries).unwrap_err();
    assert!(matches!(err, WalletError::ValidationError(ValidationError::NonPositiveAmount)));
}

#[test]
fn totals_beyond_sixty_four_bits_are_refused() {
    let entries = vec![
        input(1, Money::from_minor_units(i64::MAX, Currency::eur()), EntryType::Debit),
        input(2, Money::from_minor_units(i64::MAX, Currency::eur()), EntryType::Debit),
        input(3, Money::from_minor_units(1, Currency::eur()), EntryType::Credit),
    ];
    let err = TransactionService::validate_transaction_balance(&entries).unwrap_err();
    assert!(matches!(err, WalletError::ValidationError(ValidationError::TotalOverflow)));
}
