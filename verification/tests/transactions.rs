use rufm::models::date::Date;
use rufm::{AccountType, Client, NewAccount, NewTransaction};

#[test]
fn can_create_transaction() {
    let mut client = Client::new();
    let source_account = client
        .create_account(&NewAccount {
            name: "source",
            account_type: AccountType::Asset,
            initial_balance: 0,
        })
        .unwrap();
    let destination_account = client
        .create_account(&NewAccount {
            name: "destination",
            account_type: AccountType::Asset,
            initial_balance: 0,
        })
        .unwrap();

    let expected = NewTransaction {
        name: "test",
        source_account_id: source_account.id,
        destination_account_id: destination_account.id,
        amount: 100,
        date: Date::from_ymd(1970, 1, 1),
    };

    let actual = client.create_transaction(&expected).unwrap();

    assert_eq!(expected.name, actual.name);
    assert_eq!(expected.source_account_id, actual.source_account_id);
    assert_eq!(
        expected.destination_account_id,
        actual.destination_account_id
    );
    assert_eq!(expected.amount, actual.amount);
}

#[test]
fn transactions_are_listed_most_recent_first() {
    let mut client = Client::new();
    let a = client
        .create_account(&NewAccount {
            name: "a",
            account_type: AccountType::Asset,
            initial_balance: 0,
        })
        .unwrap();
    let b = client
        .create_account(&NewAccount {
            name: "b",
            account_type: AccountType::Asset,
            initial_balance: 0,
        })
        .unwrap();

    // created out of date order on purpose
    for (name, day) in [("second", 10), ("first", 5), ("third", 20)] {
        client
            .create_transaction(&NewTransaction {
                name,
                source_account_id: a.id,
                destination_account_id: b.id,
                amount: 1,
                date: Date::from_ymd(2020, 3, day),
            })
            .unwrap();
    }

    let listed = client.list_transactions().unwrap();
    let names: Vec<&str> = listed.iter().map(|t| t.name.as_str()).collect();
    assert_eq!(names, vec!["third", "second", "first"]);
}

#[test]
fn transactions_for_account_are_filtered_and_ordered() {
    let mut client = Client::new();
    let a = client
        .create_account(&NewAccount {
            name: "a",
            account_type: AccountType::Asset,
            initial_balance: 0,
        })
        .unwrap();
    let b = client
        .create_account(&NewAccount {
            name: "b",
            account_type: AccountType::Asset,
            initial_balance: 0,
        })
        .unwrap();
    let c = client
        .create_account(&NewAccount {
            name: "c",
            account_type: AccountType::Asset,
            initial_balance: 0,
        })
        .unwrap();

    client
        .create_transaction(&NewTransaction {
            name: "a to b",
            source_account_id: a.id,
            destination_account_id: b.id,
            amount: 10,
            date: Date::from_ymd(2021, 6, 1),
        })
        .unwrap();
    client
        .create_transaction(&NewTransaction {
            name: "b to c",
            source_account_id: b.id,
            destination_account_id: c.id,
            amount: 20,
            date: Date::from_ymd(2021, 6, 3),
        })
        .unwrap();
    client
        .create_transaction(&NewTransaction {
            name: "c to a",
            source_account_id: c.id,
            destination_account_id: a.id,
            amount: 30,
            date: Date::from_ymd(2021, 6, 2),
        })
        .unwrap();

    let for_a = client.get_transactions_for_account(&a.id).unwrap();
    let names: Vec<&str> = for_a.iter().map(|t| t.name.as_str()).collect();
    assert_eq!(names, vec!["c to a", "a to b"]);

    let unknown = client
        .get_transactions_for_account(&rufm::AccountId(99))
        .unwrap();
    assert!(unknown.is_empty());
}

#[test]
fn transactions_before_date_include_that_date() {
    let mut client = Client::new();
    let a = client
        .create_account(&NewAccount {
            name: "a",
            account_type: AccountType::Asset,
            initial_balance: 0,
        })
        .unwrap();
    let b = client
        .create_account(&NewAccount {
            name: "b",
            account_type: AccountType::Asset,
            initial_balance: 0,
        })
        .unwrap();

    for (name, day) in [("early", 1), ("cutoff", 15), ("late", 28)] {
        client
            .create_transaction(&NewTransaction {
                name,
                source_account_id: a.id,
                destination_account_id: b.id,
                amount: 7,
                date: Date::from_ymd(2022, 2, day),
            })
            .unwrap();
    }

    let upto = client
        .get_transactions_for_account_before_date_included(&a.id, &Date::from_ymd(2022, 2, 15))
        .unwrap();
    let names: Vec<&str> = upto.iter().map(|t| t.name.as_str()).collect();
    assert_eq!(names, vec!["cutoff", "early"]);
}

#[test]
fn transaction_referencing_unknown_account_is_rejected() {
    let mut client = Client::new();
    let a = client
        .create_account(&NewAccount {
            name: "a",
            account_type: AccountType::Asset,
            initial_balance: 0,
        })
        .unwrap();

    let err = client
        .create_transaction(&NewTransaction {
            name: "bad",
            source_account_id: a.id,
            destination_account_id: rufm::AccountId(42),
            amount: 5,
            date: Date::from_ymd(2020, 1, 1),
        })
        .unwrap_err();

    assert_eq!(err, rufm::LedgerError::ReferentialIntegrityViolation);
    assert!(client.list_transactions().unwrap().is_empty());
}
