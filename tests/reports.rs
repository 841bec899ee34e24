use wallet_core::account::AccountType;
use wallet_core::account_service::AccountService;
use wallet_core::date::Date;
use wallet_core::db::Database;
use wallet_core::errors::{ValidationError, WalletError};
use wallet_core::money::{Currency, Money};
use wallet_core::report_service::ReportService;
use wallet_core::transaction::{EntryType, TransactionEntryInput};
use wallet_core::transaction_service::TransactionService;

fn entry(account_id: i64, amount: i64, entry_type: EntryType) -> TransactionEntryInput {
    TransactionEntryInput {
        account_id,
        amount: Money::from_minor_units(amount, Currency::eur()),
        entry_type,
        description: None,
    }
}

fn day(y: i32, m: u32, d: u32) -> Date {
    Date::from_ymd_opt(y, m, d).unwrap()
}

fn child(db: &mut Database, name: &str, t: AccountType, parent: i64) -> i64 {
    AccountService::new()
        .create_account(db, name.to_string(), t, Some(parent), Currency::eur())
        .unwrap()
        .id
        .unwrap()
}

#[test]
fn net_worth_after_salary() {
    let mut db = Database::new();
    db.migrate();
    let bank = child(&mut db, "Bank", AccountType::Asset, 1);
    let salary = child(&mut db, "Salary", AccountType::Income, 4);
    TransactionService::new()
        .create_transaction(
            &mut db,
            "Salary".to_string(),
            day(2025, 7, 6),
            vec![entry(bank, 100000, EntryType::Debit), entry(salary, 100000, EntryType::Credit)],
        )
        .unwrap();
    let reports = ReportService::new();
    let net = reports.get_net_worth(&db).unwrap();
    assert_eq!(net.total.amount_minor(), 100000);
    assert_eq!(net.total.currency().code(), "EUR");
    assert!(net.failures.is_empty());
}

#[test]
fn net_worth_subtracts_liabilities() {
    let mut db = Database::new();
    db.migrate();
    let bank = child(&mut db, "Bank", AccountType::Asset, 1);
    let card = child(&mut db, "Card", AccountType::Liability, 2);
    let salary = child(&mut db, "Salary", AccountType::Income, 4);
    let food = child(&mut db, "Food", AccountType::Expense, 5);
    let service = TransactionService::new();
    service
        .create_transaction(&mut db, "Pay".to_string(), day(2025, 7, 1), vec![entry(bank, 5000, EntryType::Debit), entry(salary, 5000, EntryType::Credit)])
        .unwrap();
    service
        .create_transaction(&mut db, "Dinner".to_string(), day(2025, 7, 2), vec![entry(food, 1200, EntryType::Debit), entry(card, 1200, EntryType::Credit)])
        .unwrap();
    let reports = ReportService::new();
    assert_eq!(reports.get_total_assets(&db).total.amount_minor(), 5000);
    assert_eq!(reports.get_total_liabilities(&db).total.amount_minor(), 1200);
    assert_eq!(reports.get_net_worth(&db).unwrap().total.amount_minor(), 3800);
    assert_eq!(reports.get_total_by_account_type(&db, AccountType::Expense).total.amount_minor(), 1200);
}

#[test]
fn failing_root_is_listed_and_left_out() {
    let mut db = Database::new();
    db.migrate();
    let bank = child(&mut db, "Bank", AccountType::Asset, 1);
    let service = TransactionService::new();
    for _ in 0..2 {
        service
            .create_transaction(&mut db, "Big".to_string(), day(2025, 1, 1), vec![entry(bank, i64::MAX, EntryType::Debit), entry(3, i64::MAX, EntryType::Credit)])
            .unwrap();
    }
    let report = ReportService::new().get_total_assets(&db);
    assert_eq!(report.total.amount_minor(), 0);
    assert_eq!(report.failures.len(), 1);
    assert_eq!(report.failures[0].0, 1);
}

#[test]
fn monthly_totals_use_root_postings() {
    let mut db = Database::new();
    db.migrate();
    let service = TransactionService::new();
    service
        .create_transaction(&mut db, "June".to_string(), day(2025, 6, 15), vec![entry(1, 100, EntryType::Debit), entry(4, 100, EntryType::Credit)])
        .unwrap();
    service
        .create_transaction(&mut db, "July".to_string(), day(2025, 7, 10), vec![entry(1, 40, EntryType::Debit), entry(4, 40, EntryType::Credit)])
        .unwrap();
    service
        .create_transaction(&mut db, "Shop".to_string(), day(2025, 7, 11), vec![entry(5, 15, EntryType::Debit), entry(1, 15, EntryType::Credit)])
        .unwrap();
    let reports = ReportService::new();
    assert_eq!(reports.get_monthly_income(&db, 2025, 7).unwrap().total.amount_minor(), 40);
    assert_eq!(reports.get_monthly_expenses(&db, 2025, 7).unwrap().total.amount_minor(), 15);
    assert_eq!(reports.get_monthly_income(&db, 2025, 6).unwrap().total.amount_minor(), 100);
    assert_eq!(reports.get_monthly_income(&db, 2025, 12).unwrap().total.amount_minor(), 0);
    let err = reports.get_monthly_income(&db, 2025, 13).unwrap_err();
    assert!(matches!(err, WalletError::ValidationError(ValidationError::InvalidDate)));
    assert!(reports.get_current_month_income(&db).is_ok());
    assert!(reports.get_current_month_expenses(&db).is_ok());

    let july = reports.get_monthly_transactions(&db, 2025, 7).unwrap();
    let ids: Vec<i64> = july.iter().map(|t| t.id.unwrap()).collect();
    assert_eq!(ids, vec![3, 2]);
    let recent = reports.get_recent_transactions(&db, 1);
    assert_eq!(recent.len(), 1);
    assert_eq!(recent[0].id, Some(3));
}
