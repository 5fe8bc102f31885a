use rufm::import::{
    AccountType as ImportAccountType, ImportRecord, TransactionType, get_or_create_account,
    handle_initial_balance, handle_withdrawal, import_firefly_iii,
};
use rufm::models::date::Date;
use rufm::{AccountType, Client, NewAccount};

fn record(
    transaction_type: TransactionType,
    amount: i64,
    description: &str,
    date: Date,
    source: (&str, ImportAccountType),
    destination: (&str, ImportAccountType),
) -> ImportRecord {
    ImportRecord {
        transaction_type,
        amount,
        description: description.to_owned(),
        date,
        source_name: source.0.to_owned(),
        source_type: source.1,
        destination_name: destination.0.to_owned(),
        destination_type: destination.1,
    }
}

#[test]
fn get_or_create_reuses_an_existing_account() {
    let mut client = Client::new();
    let existing = client
        .create_account(&NewAccount {
            name: "wallet",
            account_type: AccountType::Expense,
            initial_balance: 42,
        })
        .unwrap();

    // the import's account type is ignored when the account already exists
    let found = get_or_create_account(&mut client, "wallet", &ImportAccountType::Asset).unwrap();
    assert_eq!(found, existing);
    assert_eq!(client.list_accounts().unwrap().len(), 1);

    let created = get_or_create_account(&mut client, "loan", &ImportAccountType::Loan).unwrap();
    assert_eq!(created.name, "loan");
    assert_eq!(created.account_type, AccountType::Asset);
    assert_eq!(created.initial_balance, 0);
    assert_eq!(client.list_accounts().unwrap().len(), 2);
}

#[test]
fn imported_account_types_fold_into_the_ledger_set() {
    assert_eq!(AccountType::from(ImportAccountType::Asset), AccountType::Asset);
    assert_eq!(
        AccountType::from(ImportAccountType::Expense),
        AccountType::Expense
    );
    assert_eq!(
        AccountType::from(ImportAccountType::Revenue),
        AccountType::Revenue
    );
    assert_eq!(AccountType::from(ImportAccountType::Loan), AccountType::Asset);
    assert_eq!(
        AccountType::from(ImportAccountType::InitialBalance),
        AccountType::Asset
    );
}

#[test]
fn a_withdrawal_record_negates_the_exported_amount() {
    let mut client = Client::new();
    // the export writes a withdrawal of 5.00 as -500
    let r = record(
        TransactionType::Withdrawal,
        -500,
        "groceries run",
        Date::from_ymd(2021, 4, 2),
        ("wallet", ImportAccountType::Asset),
        ("supermarket", ImportAccountType::Expense),
    );

    let (transaction, source, destination) = handle_withdrawal(&mut client, &r).unwrap();
    assert_eq!(transaction.name, "groceries run");
    assert_eq!(transaction.amount, 500);
    assert_eq!(transaction.source_account_id, source.id);
    assert_eq!(transaction.destination_account_id, destination.id);
    assert_eq!(source.name, "wallet");
    assert_eq!(destination.name, "supermarket");

    assert_eq!(client.get_account_balance(&source.id).unwrap(), -500);
    assert_eq!(client.get_account_balance(&destination.id).unwrap(), 500);
}

#[test]
fn an_opening_balance_record_seeds_the_account() {
    let mut client = Client::new();
    // the export writes the balancing leg's amount, so -12345 seeds 123.45
    let r = record(
        TransactionType::OpeningBalance,
        -12345,
        "opening",
        Date::from_ymd(2021, 1, 1),
        ("init", ImportAccountType::InitialBalance),
        ("wallet", ImportAccountType::Asset),
    );

    let account = handle_initial_balance(&mut client, &r).unwrap();
    assert_eq!(account.name, "wallet");
    assert_eq!(account.initial_balance, 12345);
    assert_eq!(client.get_account_balance(&account.id).unwrap(), 12345);
    assert!(client.list_transactions().unwrap().is_empty());
}

#[test]
fn an_export_replays_oldest_record_first() {
    let mut client = Client::new();
    // exports list the most recent record first; the import walks them in
    // reverse, so the opening balance at the bottom is applied first
    let records = vec![
        record(
            TransactionType::Withdrawal,
            -700,
            "books",
            Date::from_ymd(2021, 2, 3),
            ("wallet", ImportAccountType::Asset),
            ("bookshop", ImportAccountType::Expense),
        ),
        record(
            TransactionType::Deposit,
            -2000,
            "salary",
            Date::from_ymd(2021, 2, 1),
            ("employer", ImportAccountType::Revenue),
            ("wallet", ImportAccountType::Asset),
        ),
        record(
            TransactionType::OpeningBalance,
            -1000,
            "opening",
            Date::from_ymd(2021, 1, 15),
            ("init", ImportAccountType::InitialBalance),
            ("wallet", ImportAccountType::Asset),
        ),
    ];

    import_firefly_iii(&mut client, &records).unwrap();

    let wallet = client.get_account_by_name("wallet").unwrap();
    assert_eq!(wallet.initial_balance, 1000);
    // 1000 opening + 2000 salary - 700 books
    assert_eq!(client.get_account_balance(&wallet.id).unwrap(), 2300);

    // wallet, bookshop, employer; the opening-balance source never becomes
    // an account
    assert_eq!(client.list_accounts().unwrap().len(), 3);
    assert!(matches!(
        client.get_account_by_name("init"),
        Err(rufm::LedgerError::NotFound)
    ));

    let history = client.list_transactions().unwrap();
    assert_eq!(history.len(), 2);
    assert_eq!(history[0].name, "books");
    assert_eq!(history[1].name, "salary");
}
