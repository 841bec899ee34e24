use wallet_core::account::{Account, AccountType};
use wallet_core::account_service::AccountService;
use wallet_core::date::Date;
use wallet_core::db::Database;
use wallet_core::errors::{NotFound, ValidationError, WalletError};
use wallet_core::money::{Currency, Money};
use wallet_core::transaction::{EntryType, TransactionEntryInput};
use wallet_core::transaction_service::TransactionService;

fn ledger() -> Database {
    let mut db = Database::new();
    db.migrate();
    db
}

fn root_id(service: &AccountService, db: &Database, account_type: AccountType) -> i64 {
    let root_name = match account_type {
        AccountType::Asset => "Assets",
        AccountType::Liability => "Liabilities",
        AccountType::Equity => "Equity",
        AccountType::Income => "Income",
        AccountType::Expense => "Expenses",
    };
    let accounts = service.get_accounts(db);
    accounts
        .iter()
        .find(|acc| acc.name == root_name && acc.parent_id.is_none())
        .map(|acc| acc.id.unwrap())
        .unwrap_or_else(|| panic!("Root account '{root_name}' not found"))
}

fn create_test_account(
    service: &AccountService,
    db: &mut Database,
    name: &str,
    account_type: AccountType,
    parent_id: Option<i64>,
) -> Account {
    let currency = Currency::new("EUR", 2, "€").unwrap();
    let parent_id = match parent_id {
        Some(id) => id,
        None => root_id(service, db, account_type),
    };
    service.create_account(db, name.to_string(), account_type, Some(parent_id), currency).unwrap()
}

fn entry(account_id: i64, amount: i64, entry_type: EntryType) -> TransactionEntryInput {
    let currency = Currency::new("EUR", 2, "€").unwrap();
    TransactionEntryInput {
        account_id,
        amount: Money::from_minor_units(amount, currency),
        entry_type,
        description: None,
    }
}

fn day(y: i32, m: u32, d: u32) -> Date {
    Date::from_ymd_opt(y, m, d).unwrap()
}

#[test]
fn test_calculate_balance_no_transactions() {
    let mut db = ledger();
    let account_service = AccountService::new();

    let account = create_test_account(&account_service, &mut db, "Test Asset", AccountType::Asset, None);
    let account_id = account.id.unwrap();

    let balance = account_service.calculate_balance(&db, account_id).unwrap();

    assert_eq!(balance.amount_minor(), 0);
    assert_eq!(balance.currency().code(), "EUR");
}

#[test]
fn test_calculate_balance_asset_account() {
    let mut db = ledger();
    let account_service = AccountService::new();
    let transaction_service = TransactionService::new();

    let asset_id = create_test_account(&account_service, &mut db, "Bank Account", AccountType::Asset, None).id.unwrap();
    let income_id = create_test_account(&account_service, &mut db, "Salary", AccountType::Income, None).id.unwrap();

    let entries = vec![entry(income_id, 100000, EntryType::Credit), entry(asset_id, 100000, EntryType::Debit)];
    transaction_service
        .create_transaction(&mut db, "Salary payment".to_string(), day(2025, 7, 6), entries)
        .unwrap();

    let asset_balance = account_service.calculate_balance(&db, asset_id).unwrap();
    assert_eq!(asset_balance.amount_minor(), 100000);

    let income_balance = account_service.calculate_balance(&db, income_id).unwrap();
    assert_eq!(income_balance.amount_minor(), 100000);
}

#[test]
fn test_calculate_balance_expense_transaction() {
    let mut db = ledger();
    let account_service = AccountService::new();
    let transaction_service = TransactionService::new();

    let asset_id = create_test_account(&account_service, &mut db, "Bank Account", AccountType::Asset, None).id.unwrap();
    let expense_id = create_test_account(&account_service, &mut db, "Groceries", AccountType::Expense, None).id.unwrap();
    let income_id = create_test_account(&account_service, &mut db, "Salary", AccountType::Income, None).id.unwrap();

    let income_entries = vec![entry(income_id, 100000, EntryType::Credit), entry(asset_id, 100000, EntryType::Debit)];
    transaction_service
        .create_transaction(&mut db, "Initial income".to_string(), day(2025, 7, 1), income_entries)
        .unwrap();

    let expense_entries = vec![entry(asset_id, 5000, EntryType::Credit), entry(expense_id, 5000, EntryType::Debit)];
    transaction_service
        .create_transaction(&mut db, "Grocery shopping".to_string(), day(2025, 7, 6), expense_entries)
        .unwrap();

    let asset_balance = account_service.calculate_balance(&db, asset_id).unwrap();
    assert_eq!(asset_balance.amount_minor(), 95000);

    let expense_balance = account_service.calculate_balance(&db, expense_id).unwrap();
    assert_eq!(expense_balance.amount_minor(), 5000);
}

#[test]
fn test_calculate_balance_with_children() {
    let mut db = ledger();
    let account_service = AccountService::new();
    let transaction_service = TransactionService::new();

    let parent_id = create_test_account(&account_service, &mut db, "Bank Accounts", AccountType::Asset, None).id.unwrap();
    let child_id =
        create_test_account(&account_service, &mut db, "Checking Account", AccountType::Asset, Some(parent_id)).id.unwrap();
    let income_id = create_test_account(&account_service, &mut db, "Salary", AccountType::Income, None).id.unwrap();

    let entries = vec![entry(income_id, 50000, EntryType::Credit), entry(child_id, 50000, EntryType::Debit)];
    transaction_service
        .create_transaction(&mut db, "Money to child account".to_string(), day(2025, 7, 6), entries)
        .unwrap();

    let parent_balance = account_service.calculate_balance(&db, parent_id).unwrap();
    let child_balance = account_service.calculate_balance(&db, child_id).unwrap();
    assert_eq!(parent_balance.amount_minor(), 0);
    assert_eq!(child_balance.amount_minor(), 50000);

    let hierarchical_balance = account_service.calculate_balance_with_children(&db, parent_id).unwrap();
    assert_eq!(hierarchical_balance.amount_minor(), 50000);

    let child_hierarchical = account_service.calculate_balance_with_children(&db, child_id).unwrap();
    assert_eq!(child_hierarchical.amount_minor(), 50000);
}

#[test]
fn test_get_children() {
    let mut db = ledger();
    let account_service = AccountService::new();

    let parent_id = create_test_account(&account_service, &mut db, "Bank Accounts", AccountType::Asset, None).id.unwrap();
    let _child1 = create_test_account(&account_service, &mut db, "Checking", AccountType::Asset, Some(parent_id));
    let _child2 = create_test_account(&account_service, &mut db, "Savings", AccountType::Asset, Some(parent_id));

    let children = account_service.get_children(&db, parent_id);
    assert_eq!(children.len(), 2);

    let child_names: Vec<&String> = children.iter().map(|a| &a.name).collect();
    assert!(child_names.contains(&&"Checking".to_string()));
    assert!(child_names.contains(&&"Savings".to_string()));
}

#[test]
fn test_get_account_balances() {
    let mut db = ledger();
    let account_service = AccountService::new();

    let account1 = create_test_account(&account_service, &mut db, "Account 1", AccountType::Asset, None);
    let account2 = create_test_account(&account_service, &mut db, "Account 2", AccountType::Asset, None);

    let account_ids = vec![account1.id.unwrap(), account2.id.unwrap()];

    let balances = account_service.get_account_balances(&db, &account_ids);
    assert_eq!(balances.len(), 2);

    for (_, balance) in balances {
        assert_eq!(balance.amount_minor(), 0);
    }
}

#[test]
fn test_validate_accounts() {
    let mut db = ledger();
    let account_service = AccountService::new();

    let account = create_test_account(&account_service, &mut db, "Test Account", AccountType::Asset, None);
    let account_id = account.id.unwrap();

    let result = account_service.validate_accounts(&db, &[account_id]);
    assert!(result.is_ok());

    let result = account_service.validate_accounts(&db, &[999999]);
    assert!(result.is_err());
}

#[test]
fn test_deactivate_account() {
    let mut db = ledger();
    let account_service = AccountService::new();

    let account = create_test_account(&account_service, &mut db, "Test Account", AccountType::Asset, None);
    let account_id = account.id.unwrap();

    let result = account_service.deactivate_account(&mut db, account_id);
    assert!(result.is_ok());

    let updated_account = account_service.get_account(&db, account_id).unwrap();
    assert!(!updated_account.is_active);
}

#[test]
fn bank_and_salary_balances() {
    let mut db = ledger();
    let accounts = AccountService::new();
    let transactions = TransactionService::new();
    let bank = create_test_account(&accounts, &mut db, "Bank", AccountType::Asset, None).id.unwrap();
    let salary = create_test_account(&accounts, &mut db, "Salary", AccountType::Income, None).id.unwrap();
    transactions
        .create_transaction(
            &mut db,
            "Salary".to_string(),
            day(2025, 7, 6),
            vec![entry(bank, 100000, EntryType::Debit), entry(salary, 100000, EntryType::Credit)],
        )
        .unwrap();
    assert_eq!(accounts.calculate_balance(&db, bank).unwrap().amount_minor(), 100000);
    assert_eq!(accounts.calculate_balance(&db, salary).unwrap().amount_minor(), 100000);
}

#[test]
fn groceries_paid_from_bank() {
    let mut db = ledger();
    let accounts = AccountService::new();
    let transactions = TransactionService::new();
    let bank = create_test_account(&accounts, &mut db, "Bank", AccountType::Asset, None).id.unwrap();
    let salary = create_test_account(&accounts, &mut db, "Salary", AccountType::Income, None).id.unwrap();
    let groceries = create_test_account(&accounts, &mut db, "Groceries", AccountType::Expense, None).id.unwrap();
    transactions
        .create_transaction(
            &mut db,
            "Salary".to_string(),
            day(2025, 7, 6),
            vec![entry(bank, 100000, EntryType::Debit), entry(salary, 100000, EntryType::Credit)],
        )
        .unwrap();
    transactions
        .create_transaction(
            &mut db,
            "Groceries".to_string(),
            day(2025, 7, 6),
            vec![entry(groceries, 5000, EntryType::Debit), entry(bank, 5000, EntryType::Credit)],
        )
        .unwrap();
    assert_eq!(accounts.calculate_balance(&db, bank).unwrap().amount_minor(), 95000);
    assert_eq!(accounts.calculate_balance(&db, groceries).unwrap().amount_minor(), 5000);
}

#[test]
fn rollup_equals_sum_of_own_balances() {
    let mut db = ledger();
    let accounts = AccountService::new();
    let transactions = TransactionService::new();
    let assets = root_id(&accounts, &db, AccountType::Asset);
    let bank = create_test_account(&accounts, &mut db, "Bank", AccountType::Asset, None).id.unwrap();
    let checking = create_test_account(&accounts, &mut db, "Checking", AccountType::Asset, Some(bank)).id.unwrap();
    let cash = create_test_account(&accounts, &mut db, "Cash", AccountType::Asset, None).id.unwrap();
    let salary = create_test_account(&accounts, &mut db, "Salary", AccountType::Income, None).id.unwrap();
    transactions
        .create_transaction(
            &mut db,
            "Pay".to_string(),
            day(2025, 3, 1),
            vec![
                entry(salary, 9000, EntryType::Credit),
                entry(checking, 4000, EntryType::Debit),
                entry(cash, 3000, EntryType::Debit),
                entry(assets, 2000, EntryType::Debit),
            ],
        )
        .unwrap();
    transactions
        .create_transaction(
            &mut db,
            "Withdrawal".to_string(),
            day(2025, 3, 2),
            vec![entry(checking, 500, EntryType::Credit), entry(cash, 500, EntryType::Debit)],
        )
        .unwrap();
    let mut sum = 0;
    for id in [assets, bank, checking, cash] {
        sum += accounts.calculate_balance(&db, id).unwrap().amount_minor();
    }
    assert_eq!(sum, 9000);
    assert_eq!(accounts.calculate_balance_with_children(&db, assets).unwrap().amount_minor(), sum);
}

#[test]
fn inactive_accounts_leave_the_rollup() {
    let mut db = ledger();
    let accounts = AccountService::new();
    let transactions = TransactionService::new();
    let bank = create_test_account(&accounts, &mut db, "Bank", AccountType::Asset, None).id.unwrap();
    let old = create_test_account(&accounts, &mut db, "Old", AccountType::Asset, Some(bank)).id.unwrap();
    let salary = create_test_account(&accounts, &mut db, "Salary", AccountType::Income, None).id.unwrap();
    transactions
        .create_transaction(
            &mut db,
            "Pay".to_string(),
            day(2025, 3, 1),
            vec![entry(salary, 700, EntryType::Credit), entry(old, 700, EntryType::Debit)],
        )
        .unwrap();
    assert_eq!(accounts.calculate_balance_with_children(&db, bank).unwrap().amount_minor(), 700);
    accounts.deactivate_account(&mut db, old).unwrap();
    assert_eq!(accounts.calculate_balance_with_children(&db, bank).unwrap().amount_minor(), 0);
}

#[test]
fn deactivation_blocked_by_active_child() {
    let mut db = ledger();
    let accounts = AccountService::new();
    let bank = create_test_account(&accounts, &mut db, "Bank", AccountType::Asset, None).id.unwrap();
    let child = create_test_account(&accounts, &mut db, "Checking", AccountType::Asset, Some(bank)).id.unwrap();
    let err = accounts.deactivate_account(&mut db, bank).unwrap_err();
    assert!(matches!(
        err,
        WalletError::ValidationError(ValidationError::ActiveChildren { account_id, count: 1 }) if account_id == bank
    ));
    assert!(accounts.get_account(&db, bank).unwrap().is_active);
    accounts.deactivate_account(&mut db, child).unwrap();
    accounts.deactivate_account(&mut db, bank).unwrap();
    assert!(!accounts.get_account(&db, bank).unwrap().is_active);
}

#[test]
fn deactivating_a_missing_account_fails() {
    let mut db = ledger();
    let accounts = AccountService::new();
    let err = accounts.deactivate_account(&mut db, 42).unwrap_err();
    assert!(matches!(err, WalletError::NotFoundError(NotFound::Account(42))));
}

#[test]
fn create_account_rules() {
    let mut db = ledger();
    let accounts = AccountService::new();
    let assets = root_id(&accounts, &db, AccountType::Asset);
    let income = root_id(&accounts, &db, AccountType::Income);

    let err = accounts.create_account(&mut db, "Bank".to_string(), AccountType::Asset, None, Currency::eur()).unwrap_err();
    assert!(matches!(err, WalletError::ValidationError(ValidationError::ParentRequired)));

    let err = accounts
        .create_account(&mut db, "Bank".to_string(), AccountType::Asset, Some(income), Currency::eur())
        .unwrap_err();
    assert!(matches!(err, WalletError::ValidationError(ValidationError::ParentTypeMismatch)));

    let err = accounts
        .create_account(&mut db, "   ".to_string(), AccountType::Asset, Some(assets), Currency::eur())
        .unwrap_err();
    assert!(matches!(err, WalletError::ValidationError(ValidationError::EmptyName)));

    let err = accounts
        .create_account(&mut db, "Bank".to_string(), AccountType::Asset, Some(999), Currency::eur())
        .unwrap_err();
    assert!(matches!(err, WalletError::NotFoundError(NotFound::Account(999))));

    assert_eq!(accounts.get_accounts(&db).len(), 5);

    let bank = accounts
        .create_account(&mut db, "  Bank  ".to_string(), AccountType::Asset, Some(assets), Currency::eur())
        .unwrap();
    assert_eq!(bank.name, "Bank");
    assert!(bank.is_active);
    assert_eq!(bank.parent_id, Some(assets));
    assert_eq!(bank.id, Some(6));
}

#[test]
fn hierarchy_depth_is_limited() {
    let mut db = ledger();
    let accounts = AccountService::new();
    let mut parent = root_id(&accounts, &db, AccountType::Asset);
    for level in 1..5 {
        parent = accounts
            .create_account(&mut db, format!("Level {level}"), AccountType::Asset, Some(parent), Currency::eur())
            .unwrap()
            .id
            .unwrap();
    }
    let deepest = accounts
        .create_account(&mut db, "Level 5".to_string(), AccountType::Asset, Some(parent), Currency::eur())
        .unwrap();
    let err = accounts
        .create_account(&mut db, "Level 6".to_string(), AccountType::Asset, deepest.id, Currency::eur())
        .unwrap_err();
    assert!(matches!(err, WalletError::ValidationError(ValidationError::HierarchyTooDeep)));

    let mut too_deep = accounts.get_account(&db, deepest.id.unwrap()).unwrap();
    too_deep.parent_id = deepest.id;
    too_deep.id = Some(1);
    let err = accounts.update_account(&mut db, &too_deep).unwrap_err();
    assert!(matches!(err, WalletError::ValidationError(ValidationError::HierarchyTooDeep)));
}

#[test]
fn update_account_renames() {
    let mut db = ledger();
    let accounts = AccountService::new();
    let bank = create_test_account(&accounts, &mut db, "Bank", AccountType::Asset, None);
    let mut changed = bank.copied();
    changed.name = "Main bank".to_string();
    changed.description = Some("Current account".to_string());
    let stored = accounts.update_account(&mut db, &changed).unwrap();
    assert_eq!(stored.name, "Main bank");
    assert_eq!(stored.description.as_deref(), Some("Current account"));
    assert_eq!(accounts.get_account(&db, bank.id.unwrap()).unwrap().name, "Main bank");

    let mut own_parent = stored.copied();
    own_parent.parent_id = own_parent.id;
    let err = accounts.update_account(&mut db, &own_parent).unwrap_err();
    assert!(matches!(err, WalletError::ValidationError(ValidationError::SelfParent)));

    let mut missing = stored.copied();
    missing.id = None;
    let err = accounts.update_account(&mut db, &missing).unwrap_err();
    assert!(matches!(err, WalletError::NotFoundError(NotFound::Account(0))));
}

#[test]
fn children_are_ordered_by_name() {
    let mut db = ledger();
    let accounts = AccountService::new();
    let bank = create_test_account(&accounts, &mut db, "Bank", AccountType::Asset, None).id.unwrap();
    for name in ["Savings", "Checking", "Deposit"] {
        create_test_account(&accounts, &mut db, name, AccountType::Asset, Some(bank));
    }
    let names: Vec<String> = accounts.get_children(&db, bank).into_iter().map(|a| a.name).collect();
    assert_eq!(names, vec!["Checking", "Deposit", "Savings"]);
}

#[test]
fn validate_accounts_reports_the_first_problem() {
    let mut db = ledger();
    let accounts = AccountService::new();
    let bank = create_test_account(&accounts, &mut db, "Bank", AccountType::Asset, None).id.unwrap();
    accounts.deactivate_account(&mut db, bank).unwrap();
    let err = accounts.validate_accounts(&db, &[1, bank, 77]).unwrap_err();
    assert!(matches!(err, WalletError::ValidationError(ValidationError::AccountInactive(id)) if id == bank));
    let err = accounts.validate_accounts(&db, &[77, bank]).unwrap_err();
    assert!(matches!(err, WalletError::ValidationError(ValidationError::AccountMissing(77))));
}

#[test]
fn balance_before_a_date() {
    let mut db = ledger();
    let accounts = AccountService::new();
    let transactions = TransactionService::new();
    let bank = create_test_account(&accounts, &mut db, "Bank", AccountType::Asset, None).id.unwrap();
    let salary = create_test_account(&accounts, &mut db, "Salary", AccountType::Income, None).id.unwrap();
    for (d, amount) in [(day(2025, 6, 30), 100), (day(2025, 7, 1), 20), (day(2025, 7, 2), 3)] {
        transactions
            .create_transaction(
                &mut db,
                "Pay".to_string(),
                d,
                vec![entry(bank, amount, EntryType::Debit), entry(salary, amount, EntryType::Credit)],
            )
            .unwrap();
    }
    assert_eq!(accounts.calculate_account_balance(&db, bank, Some(day(2025, 7, 1))).unwrap().amount_minor(), 100);
    assert_eq!(accounts.calculate_account_balance(&db, bank, Some(day(2025, 7, 2))).unwrap().amount_minor(), 120);
    assert_eq!(accounts.calculate_account_balance(&db, bank, None).unwrap().amount_minor(), 123);
    assert_eq!(accounts.calculate_account_balance(&db, bank, Some(day(2025, 1, 1))).unwrap().amount_minor(), 0);
}

#[test]
fn credit_normal_accounts_grow_with_credits() {
    let mut db = ledger();
    let accounts = AccountService::new();
    let transactions = TransactionService::new();
    let bank = create_test_account(&accounts, &mut db, "Bank", AccountType::Asset, None).id.unwrap();
    let loan = create_test_account(&accounts, &mut db, "Loan", AccountType::Liability, None).id.unwrap();
    transactions
        .create_transaction(
            &mut db,
            "Loan".to_string(),
            day(2025, 2, 1),
            vec![entry(bank, 300, EntryType::Debit), entry(loan, 300, EntryType::Credit)],
        )
        .unwrap();
    transactions
        .create_transaction(
            &mut db,
            "Repay".to_string(),
            day(2025, 2, 2),
            vec![entry(bank, 100, EntryType::Credit), entry(loan, 100, EntryType::Debit)],
        )
        .unwrap();
    assert_eq!(accounts.calculate_balance(&db, loan).unwrap().amount_minor(), 200);
    assert_eq!(accounts.calculate_balance(&db, bank).unwrap().amount_minor(), 200);
}

#[test]
fn missing_account_balance_fails() {
    let db = ledger();
    let accounts = AccountService::new();
    let err = accounts.calculate_balance(&db, 9).unwrap_err();
    assert!(matches!(err, WalletError::NotFoundError(NotFound::Account(9))));
}

#[test]
fn account_tree_levels_paths_and_order() {
    let mut db = ledger();
    let accounts = AccountService::new();
    let bank = create_test_account(&accounts, &mut db, "Bank", AccountType::Asset, None).id.unwrap();
    create_test_account(&accounts, &mut db, "Savings", AccountType::Asset, Some(bank));
    let cash = create_test_account(&accounts, &mut db, "Cash", AccountType::Asset, None).id.unwrap();
    let old = create_test_account(&accounts, &mut db, "Old", AccountType::Asset, Some(cash)).id.unwrap();
    create_test_account(&accounts, &mut db, "Rent", AccountType::Expense, None);
    accounts.deactivate_account(&mut db, old).unwrap();

    let tree = accounts.get_account_tree(&db).unwrap();
    let rows: Vec<(String, i32)> = tree.iter().map(|n| (n.path.clone(), n.level)).collect();
    let expected: Vec<(String, i32)> = vec![
        ("Assets".to_string(), 0),
        ("Assets > Bank".to_string(), 1),
        ("Assets > Bank > Savings".to_string(), 2),
        ("Assets > Cash".to_string(), 1),
        ("Liabilities".to_string(), 0),
        ("Equity".to_string(), 0),
        ("Income".to_string(), 0),
        ("Expenses".to_string(), 0),
        ("Expenses > Rent".to_string(), 1),
    ];
    assert_eq!(rows, expected);
}

#[test]
fn account_type_names() {
    assert_eq!(AccountType::from_name("Liability"), Some(AccountType::Liability));
    assert_eq!(AccountType::from_name("Expense"), Some(AccountType::Expense));
    assert_eq!(AccountType::from_name("asset"), None);
}
