use wallet_core::account::{Account, AccountType};
use wallet_core::date::Date;
use wallet_core::db::{AccountRepository, Database};
use wallet_core::errors::{NotFound, StorageFault, ValidationError, WalletError};
use wallet_core::money::{Currency, Money};
use wallet_core::transaction::{EntryType, TransactionEntryInput, TransactionFilters};
use wallet_core::transaction_repository::TransactionRepository;
use wallet_core::transaction_service::TransactionService;

fn create_test_account() -> Account {
    Account {
        id: None,
        name: "Test Checking Account".to_string(),
        account_type: AccountType::Asset,
        parent_id: None,
        currency: Currency::eur(),
        description: Some("Test account for unit tests".to_string()),
        is_active: true,
        created_at: chrono::Utc::now().timestamp_micros(),
        updated_at: chrono::Utc::now().timestamp_micros(),
    }
}

fn entry(account_id: i64, amount: i64, entry_type: EntryType) -> TransactionEntryInput {
    TransactionEntryInput {
        account_id,
        amount: Money::from_minor_units(amount, Currency::eur()),
        entry_type,
        description: None,
    }
}

fn day(y: i32, m: u32, d: u32) -> Date {
    Date::from_ymd_opt(y, m, d).unwrap()
}

#[test]
fn test_create_account() {
    let mut db = Database::new();
    db.migrate();
    let repo = AccountRepository::new();
    let test_account = create_test_account();

    let created_account = repo.create(&mut db, &test_account).unwrap();

    assert!(created_account.id.is_some());
    assert_eq!(created_account.name, test_account.name);
    assert_eq!(created_account.account_type, test_account.account_type);
    assert_eq!(created_account.parent_id, test_account.parent_id);
    assert_eq!(created_account.currency.code(), test_account.currency.code());
    assert_eq!(created_account.description, test_account.description);
    assert_eq!(created_account.is_active, test_account.is_active);

    assert!(created_account.created_at <= chrono::Utc::now().timestamp_micros());
    assert!(created_account.updated_at <= chrono::Utc::now().timestamp_micros());
}

#[test]
fn test_get_by_id() {
    let mut db = Database::new();
    db.migrate();
    let repo = AccountRepository::new();
    let test_account = create_test_account();

    let created_account = repo.create(&mut db, &test_account).unwrap();
    let account_id = created_account.id.unwrap();

    let retrieved_account = repo.get_by_id(&db, account_id).unwrap();

    assert_eq!(retrieved_account.id, Some(account_id));
    assert_eq!(retrieved_account.name, test_account.name);
    assert_eq!(retrieved_account.account_type, test_account.account_type);
    assert_eq!(retrieved_account.parent_id, test_account.parent_id);
    assert_eq!(retrieved_account.currency.code(), test_account.currency.code());
    assert_eq!(retrieved_account.description, test_account.description);
    assert_eq!(retrieved_account.is_active, test_account.is_active);

    assert_eq!(retrieved_account.created_at, created_account.created_at);
    assert_eq!(retrieved_account.updated_at, created_account.updated_at);
}

#[test]
fn test_get_by_id_not_found() {
    let mut db = Database::new();
    db.migrate();
    let repo = AccountRepository::new();

    let result = repo.get_by_id(&db, 999);

    assert!(result.is_err());
}

#[test]
fn test_create_account_with_parent() {
    let mut db = Database::new();
    db.migrate();
    let repo = AccountRepository::new();

    let parent_account = create_test_account();
    let created_parent = repo.create(&mut db, &parent_account).unwrap();
    let parent_id = created_parent.id.unwrap();

    let mut child_account = create_test_account();
    child_account.name = "Child Account".to_string();
    child_account.parent_id = Some(parent_id);

    let created_child = repo.create(&mut db, &child_account).unwrap();

    assert_eq!(created_child.parent_id, Some(parent_id));

    let retrieved_parent = repo.get_by_id(&db, parent_id).unwrap();
    let retrieved_child = repo.get_by_id(&db, created_child.id.unwrap()).unwrap();

    assert_eq!(retrieved_parent.name, "Test Checking Account");
    assert_eq!(retrieved_child.name, "Child Account");
    assert_eq!(retrieved_child.parent_id, Some(parent_id));
}

#[test]
fn test_database_creation_and_migration() {
    let mut db = Database::new();
    db.migrate();
    let count = AccountRepository::new().get_all(&db).len();
    assert_eq!(count, 5);
}

#[test]
fn migration_seeds_the_five_roots_once() {
    let mut db = Database::new();
    db.migrate();
    db.migrate();
    let repo = AccountRepository::new();
    let names: Vec<String> = repo.get_all(&db).into_iter().map(|a| a.name).collect();
    assert_eq!(names, vec!["Expenses", "Income", "Equity", "Liabilities", "Assets"]);
    for a in repo.get_all(&db) {
        assert!(a.parent_id.is_none());
        assert_eq!(a.currency.code(), "EUR");
    }
}

#[test]
fn creating_under_a_missing_parent_fails() {
    let mut db = Database::new();
    let repo = AccountRepository::new();
    let mut account = create_test_account();
    account.parent_id = Some(3);
    let err = repo.create(&mut db, &account).unwrap_err();
    assert!(matches!(err, WalletError::NotFoundError(NotFound::Account(3))));
    assert_eq!(repo.get_all(&db).len(), 0);
}

#[test]
fn failed_entry_insert_leaves_no_rows() {
    let mut db = Database::new();
    db.migrate();
    let service = TransactionService::new();
    let entries = vec![
        entry(1, 500, EntryType::Debit),
        entry(2, 200, EntryType::Credit),
        entry(404, 300, EntryType::Credit),
    ];
    let err = service.create_transaction(&mut db, "Broken".to_string(), day(2025, 1, 5), entries).unwrap_err();
    assert!(matches!(err, WalletError::NotFoundError(NotFound::Account(404))));
    assert_eq!(db.transactions.len(), 0);
    assert_eq!(db.entries.len(), 0);

    let err = service
        .create_transaction(&mut db, "Unbalanced".to_string(), day(2025, 1, 5), vec![entry(1, 5, EntryType::Debit), entry(2, 6, EntryType::Credit)])
        .unwrap_err();
    assert!(matches!(err, WalletError::ValidationError(ValidationError::Unbalanced { debits: 5, credits: 6 })));
    assert_eq!(db.transactions.len(), 0);
    assert_eq!(db.entries.len(), 0);
}

#[test]
fn created_transaction_is_stored_whole() {
    let mut db = Database::new();
    db.migrate();
    let service = TransactionService::new();
    let t = service
        .create_transaction(
            &mut db,
            "Rent".to_string(),
            day(2025, 2, 1),
            vec![entry(5, 800, EntryType::Debit), entry(1, 800, EntryType::Credit)],
        )
        .unwrap();
    assert_eq!(t.id, Some(1));
    assert_eq!(t.entries.len(), 2);
    assert_eq!(t.entries[0].id, Some(1));
    assert_eq!(t.entries[1].id, Some(2));
    assert_eq!(t.entries[1].transaction_id, 1);
    let read = service.get_transaction(&db, 1).unwrap();
    assert_eq!(read.description, "Rent");
    assert_eq!(read.transaction_date, day(2025, 2, 1));
    assert_eq!(read.entries.len(), 2);
    assert_eq!(read.entries[0].account_id, 5);
    assert_eq!(read.entries[0].entry_type, EntryType::Debit);
    assert_eq!(read.entries[1].amount.amount_minor(), 800);
    let err = service.get_transaction(&db, 2).unwrap_err();
    assert!(matches!(err, WalletError::NotFoundError(NotFound::Transaction(2))));
}

#[test]
fn simple_transaction_credits_source_and_debits_target() {
    let mut db = Database::new();
    db.migrate();
    let service = TransactionService::new();
    let t = service
        .create_simple_transaction(&mut db, "Move".to_string(), day(2025, 4, 4), Money::from_minor_units(42, Currency::eur()), 4, 1)
        .unwrap();
    assert_eq!(t.entries.len(), 2);
    assert_eq!(t.entries[0].account_id, 4);
    assert_eq!(t.entries[0].entry_type, EntryType::Credit);
    assert_eq!(t.entries[1].account_id, 1);
    assert_eq!(t.entries[1].entry_type, EntryType::Debit);
    let err = service
        .create_simple_transaction(&mut db, "Nothing".to_string(), day(2025, 4, 4), Money::from_minor_units(0, Currency::eur()), 4, 1)
        .unwrap_err();
    assert!(matches!(err, WalletError::ValidationError(ValidationError::NonPositiveAmount)));
}

#[test]
fn listing_orders_filters_and_pages() {
    let mut db = Database::new();
    db.migrate();
    let service = TransactionService::new();
    let dates = [day(2025, 1, 10), day(2025, 3, 1), day(2025, 1, 10), day(2024, 12, 31)];
    for (i, d) in dates.iter().enumerate() {
        let other = if i == 1 { 3 } else { 4 };
        service
            .create_transaction(&mut db, format!("T{i}"), *d, vec![entry(1, 10, EntryType::Debit), entry(other, 10, EntryType::Credit)])
            .unwrap();
    }
    let all = TransactionFilters { account_id: None, from_date: None, to_date: None, limit: None, offset: None };
    let ids: Vec<i64> = service.get_transactions(&db, all).into_iter().map(|t| t.id.unwrap()).collect();
    assert_eq!(ids, vec![2, 3, 1, 4]);

    let paged = TransactionFilters { limit: Some(2), offset: Some(1), ..all };
    let ids: Vec<i64> = service.get_transactions(&db, paged).into_iter().map(|t| t.id.unwrap()).collect();
    assert_eq!(ids, vec![3, 1]);

    let january = TransactionFilters { from_date: Some(day(2025, 1, 1)), to_date: Some(day(2025, 1, 31)), ..all };
    let ids: Vec<i64> = service.get_transactions(&db, january).into_iter().map(|t| t.id.unwrap()).collect();
    assert_eq!(ids, vec![3, 1]);

    let equity = TransactionFilters { account_id: Some(3), ..all };
    let listed = service.get_transactions(&db, equity);
    assert_eq!(listed.len(), 1);
    assert_eq!(listed[0].entries.len(), 2);

    let beyond = TransactionFilters { offset: Some(9), ..all };
    assert!(service.get_transactions(&db, beyond).is_empty());

    let repo = TransactionRepository::new();
    assert_eq!(repo.get_transactions(&db, Some(4), None, None, Some(1), None)[0].id, Some(3));
}

#[test]
fn descendants_and_sums() {
    let mut db = Database::new();
    db.migrate();
    let repo = AccountRepository::new();
    let mut child = create_test_account();
    child.parent_id = Some(1);
    let c = repo.create(&mut db, &child).unwrap().id.unwrap();
    let mut grandchild = create_test_account();
    grandchild.parent_id = Some(c);
    let g = repo.create(&mut db, &grandchild).unwrap().id.unwrap();
    assert_eq!(repo.get_descendant_account_ids(&db, 1), vec![1, c, g]);
    assert_eq!(repo.get_descendant_account_ids(&db, c), vec![c, g]);
    assert!(repo.get_descendant_account_ids(&db, 99).is_empty());

    let service = TransactionService::new();
    service
        .create_transaction(&mut db, "A".to_string(), day(2025, 1, 1), vec![entry(g, 30, EntryType::Debit), entry(4, 30, EntryType::Credit)])
        .unwrap();
    service
        .create_transaction(&mut db, "B".to_string(), day(2025, 2, 1), vec![entry(g, 5, EntryType::Credit), entry(4, 5, EntryType::Debit)])
        .unwrap();
    let (d, cr, code) = repo.get_account_transaction_sums(&db, g).unwrap().unwrap();
    assert_eq!((d, cr, code.as_str()), (30, 5, "EUR"));
    let (d, cr, _) = repo.get_account_transaction_sums_before_date(&db, g, day(2025, 2, 1)).unwrap().unwrap();
    assert_eq!((d, cr), (30, 0));
    assert!(repo.get_account_transaction_sums(&db, c).unwrap().is_none());
    let (d, cr, _) = repo.get_multiple_accounts_transaction_sums(&db, &vec![c, g, 4]).unwrap().unwrap();
    assert_eq!((d, cr), (35, 35));
    assert!(repo.get_multiple_accounts_transaction_sums(&db, &vec![]).unwrap().is_none());
}

#[test]
fn sums_beyond_sixty_four_bits_are_a_storage_error() {
    let mut db = Database::new();
    db.migrate();
    let service = TransactionService::new();
    for _ in 0..2 {
        service
            .create_transaction(
                &mut db,
                "Big".to_string(),
                day(2025, 1, 1),
                vec![entry(1, i64::MAX, EntryType::Debit), entry(2, i64::MAX, EntryType::Credit)],
            )
            .unwrap();
    }
    let err = AccountRepository::new().get_account_transaction_sums(&db, 1).unwrap_err();
    assert!(matches!(err, WalletError::StorageError(StorageFault::SumOverflow)));
}

#[test]
fn well_formedness_of_loaded_rows() {
    let mut db = Database::new();
    db.migrate();
    assert!(db.is_well_formed());
    db.accounts[2].parent_id = Some(3);
    assert!(!db.is_well_formed());
    db.accounts[2].parent_id = None;
    db.accounts[4].id = Some(9);
    assert!(!db.is_well_formed());
}
