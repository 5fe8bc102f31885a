use rufm::cli::{
    AccountsCommand, AccountsCreateOpt, AccountsReport, AccountsShowOpt, Command, Handler, Money,
    Report, TransactionsCommand, TransactionsCreateOpt, TransactionsReport,
    handle_accounts_command, handle_transactions_command,
};
use rufm::models::date::Date;
use rufm::{AccountType, Client, LedgerError};

fn today() -> Date {
    Date::from_ymd(2023, 5, 17)
}

fn create_account(client: &mut Client, name: &str, cents: i64) {
    let report = handle_accounts_command(
        client,
        AccountsCommand::Create(AccountsCreateOpt {
            name: name.to_owned(),
            initial_balance: Money(cents),
        }),
    )
    .unwrap();
    match report {
        AccountsReport::Created(a) => {
            assert_eq!(a.name, name);
            assert_eq!(a.initial_balance, cents);
            assert_eq!(a.account_type, AccountType::Asset);
        }
        _ => panic!("expected a created account"),
    }
}

fn create_transaction(client: &mut Client, name: &str, cents: i64, source: &str, destination: &str) {
    let report = handle_transactions_command(
        client,
        TransactionsCommand::Create(TransactionsCreateOpt {
            name: name.to_owned(),
            amount: Money(cents),
            source_account: source.to_owned(),
            destination_account: destination.to_owned(),
        }),
        today(),
    )
    .unwrap();
    match report {
        TransactionsReport::Created(t) => {
            assert_eq!(t.name, name);
            assert_eq!(t.amount, cents);
            assert_eq!(t.date, today());
        }
        _ => panic!("expected a created transaction"),
    }
}

#[test]
fn accounts_create_and_list_report_balances() {
    let mut client = Client::new();
    create_account(&mut client, "checking", 1000);
    create_account(&mut client, "savings", 0);
    create_transaction(&mut client, "stash", 300, "checking", "savings");

    let report = handle_accounts_command(&mut client, AccountsCommand::List).unwrap();
    match report {
        AccountsReport::Listing(rows) => {
            assert_eq!(rows.len(), 2);
            assert_eq!(rows[0].0.name, "checking");
            assert_eq!(rows[0].1, 700);
            assert_eq!(rows[1].0.name, "savings");
            assert_eq!(rows[1].1, 300);
        }
        _ => panic!("expected a listing"),
    }
}

#[test]
fn accounts_show_tags_directions() {
    let mut client = Client::new();
    create_account(&mut client, "checking", 0);
    create_account(&mut client, "savings", 0);
    create_transaction(&mut client, "in", 40, "savings", "checking");
    create_transaction(&mut client, "out", 90, "checking", "savings");

    let report = handle_accounts_command(
        &mut client,
        AccountsCommand::Show(AccountsShowOpt {
            name: "checking".to_owned(),
        }),
    )
    .unwrap();
    match report {
        AccountsReport::Shown(account, balance, rows) => {
            assert_eq!(account.name, "checking");
            assert_eq!(balance, -50);
            assert_eq!(rows.len(), 2);
            // both dated today: the earlier-created one comes first
            assert_eq!(rows[0].transaction.name, "in");
            assert!(!rows[0].is_debit);
            assert_eq!(rows[1].transaction.name, "out");
            assert!(rows[1].is_debit);
        }
        _ => panic!("expected a shown account"),
    }
}

#[test]
fn accounts_show_unknown_name_fails() {
    let mut client = Client::new();
    let err = handle_accounts_command(
        &mut client,
        AccountsCommand::Show(AccountsShowOpt {
            name: "missing".to_owned(),
        }),
    )
    .unwrap_err();
    assert_eq!(err, LedgerError::NotFound);
}

#[test]
fn transactions_create_with_unknown_name_fails() {
    let mut client = Client::new();
    create_account(&mut client, "checking", 0);

    let err = handle_transactions_command(
        &mut client,
        TransactionsCommand::Create(TransactionsCreateOpt {
            name: "t".to_owned(),
            amount: Money(10),
            source_account: "checking".to_owned(),
            destination_account: "missing".to_owned(),
        }),
        today(),
    )
    .unwrap_err();
    assert_eq!(err, LedgerError::NotFound);
}

#[test]
fn transactions_list_resolves_each_account_once() {
    let mut client = Client::new();
    create_account(&mut client, "a", 0);
    create_account(&mut client, "b", 0);
    create_account(&mut client, "unused", 0);
    create_transaction(&mut client, "t1", 10, "a", "b");
    create_transaction(&mut client, "t2", 20, "b", "a");

    let report =
        handle_transactions_command(&mut client, TransactionsCommand::List, today()).unwrap();
    match report {
        TransactionsReport::Listing(transactions, accounts) => {
            assert_eq!(transactions.len(), 2);
            // one record per referenced id, the unused account absent
            assert_eq!(accounts.len(), 2);
            let mut names: Vec<&str> = accounts.iter().map(|a| a.name.as_str()).collect();
            names.sort();
            assert_eq!(names, vec!["a", "b"]);
            for t in &transactions {
                assert!(accounts.iter().any(|a| a.id == t.source_account_id));
                assert!(accounts.iter().any(|a| a.id == t.destination_account_id));
            }
        }
        _ => panic!("expected a listing"),
    }
}

#[test]
fn commands_dispatch_through_the_handler() {
    let mut client = Client::new();
    let report = Command::Accounts(AccountsCommand::Create(AccountsCreateOpt {
        name: "via trait".to_owned(),
        initial_balance: Money(5),
    }))
    .handle(&mut client, today())
    .unwrap();
    match report {
        Report::Accounts(AccountsReport::Created(a)) => assert_eq!(a.name, "via trait"),
        _ => panic!("expected a created account"),
    }

    let report = Command::Transactions(TransactionsCommand::List)
        .handle(&mut client, today())
        .unwrap();
    match report {
        Report::Transactions(TransactionsReport::Listing(transactions, accounts)) => {
            assert!(transactions.is_empty());
            assert!(accounts.is_empty());
        }
        _ => panic!("expected a listing"),
    }
}
