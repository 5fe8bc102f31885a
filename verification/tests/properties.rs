use rufm::balance::{get_account_balance_from_transactions, get_transactions_amount_sum};
use rufm::models::date::Date;
use rufm::{AccountType, Client, LedgerError, NewAccount, NewTransaction};

fn asset(name: &str) -> NewAccount<'_> {
    NewAccount {
        name,
        account_type: AccountType::Asset,
        initial_balance: 0,
    }
}

#[test]
fn transfer_conserves_value() {
    let mut client = Client::new();
    let x = client.create_account(&asset("x")).unwrap();
    let y = client.create_account(&asset("y")).unwrap();
    let z = client.create_account(&asset("z")).unwrap();

    let before_x = client.get_account_balance(&x.id).unwrap();
    let before_y = client.get_account_balance(&y.id).unwrap();
    let before_z = client.get_account_balance(&z.id).unwrap();

    let amount = 250;
    client
        .create_transaction(&NewTransaction {
            name: "transfer",
            source_account_id: x.id,
            destination_account_id: y.id,
            amount,
            date: Date::from_ymd(2021, 1, 1),
        })
        .unwrap();

    assert_eq!(client.get_account_balance(&x.id).unwrap(), before_x - amount);
    assert_eq!(client.get_account_balance(&y.id).unwrap(), before_y + amount);
    assert_eq!(client.get_account_balance(&z.id).unwrap(), before_z);
}

#[test]
fn lookup_by_name_then_by_id_is_idempotent() {
    let mut client = Client::new();
    client.create_account(&asset("main")).unwrap();
    client.create_account(&asset("other")).unwrap();

    let by_name = client.get_account_by_name("main").unwrap();
    let by_id = client.get_account_by_id(&by_name.id).unwrap();

    assert_eq!(by_name, by_id);
}

#[test]
fn duplicate_account_name_is_rejected() {
    let mut client = Client::new();
    client.create_account(&asset("main")).unwrap();

    let err = client.create_account(&asset("main")).unwrap_err();

    assert_eq!(err, LedgerError::UniqueConstraintViolation);
    assert_eq!(client.list_accounts().unwrap().len(), 1);
}

#[test]
fn as_of_balance_is_constant_between_transactions() {
    let mut client = Client::new();
    let a = client.create_account(&asset("a")).unwrap();
    let b = client.create_account(&asset("b")).unwrap();

    client
        .create_transaction(&NewTransaction {
            name: "t1",
            source_account_id: a.id,
            destination_account_id: b.id,
            amount: 100,
            date: Date::from_ymd(2020, 1, 10),
        })
        .unwrap();
    client
        .create_transaction(&NewTransaction {
            name: "t2",
            source_account_id: a.id,
            destination_account_id: b.id,
            amount: 50,
            date: Date::from_ymd(2020, 3, 10),
        })
        .unwrap();

    // no transaction is dated in (2020-01-10, 2020-03-09]
    let d1 = client
        .get_account_balance_as_of_date(&a.id, &Date::from_ymd(2020, 1, 10))
        .unwrap();
    let d2 = client
        .get_account_balance_as_of_date(&a.id, &Date::from_ymd(2020, 3, 9))
        .unwrap();
    assert_eq!(d1, d2);
    assert_eq!(d1, -100);
}

#[test]
fn pre_history_balance_is_the_initial_balance() {
    let mut client = Client::new();
    let a = client
        .create_account(&NewAccount {
            name: "seeded",
            account_type: AccountType::Asset,
            initial_balance: 777,
        })
        .unwrap();
    let b = client.create_account(&asset("b")).unwrap();

    client
        .create_transaction(&NewTransaction {
            name: "t",
            source_account_id: a.id,
            destination_account_id: b.id,
            amount: 5,
            date: Date::from_ymd(2020, 6, 15),
        })
        .unwrap();

    let balance = client
        .get_account_balance_as_of_date(&a.id, &Date::from_ymd(2020, 6, 14))
        .unwrap();
    assert_eq!(balance, 777);
}

#[test]
fn unknown_account_lookups_fail_with_not_found() {
    let client = Client::new();

    assert_eq!(
        client.get_account_by_name("nobody").unwrap_err(),
        LedgerError::NotFound
    );
    assert_eq!(
        client.get_account_by_id(&rufm::AccountId(1)).unwrap_err(),
        LedgerError::NotFound
    );
    assert_eq!(
        client.get_account_balance(&rufm::AccountId(1)).unwrap_err(),
        LedgerError::NotFound
    );
    assert_eq!(
        client
            .get_account_balance_as_of_date(&rufm::AccountId(1), &Date::from_ymd(2020, 1, 1))
            .unwrap_err(),
        LedgerError::NotFound
    );
}

#[test]
fn update_initial_balance_shifts_the_balance() {
    let mut client = Client::new();
    let a = client.create_account(&asset("a")).unwrap();
    let b = client.create_account(&asset("b")).unwrap();

    client
        .create_transaction(&NewTransaction {
            name: "t",
            source_account_id: b.id,
            destination_account_id: a.id,
            amount: 30,
            date: Date::from_ymd(2020, 1, 1),
        })
        .unwrap();

    let mut changed = client.get_account_by_id(&a.id).unwrap();
    changed.initial_balance = 1000;
    let refreshed = client.update_account_initial_balance(&changed).unwrap();

    assert_eq!(refreshed.initial_balance, 1000);
    assert_eq!(refreshed.name, "a");
    assert_eq!(client.get_account_balance(&a.id).unwrap(), 1030);

    let mut unknown = changed;
    unknown.id = rufm::AccountId(99);
    assert_eq!(
        client.update_account_initial_balance(&unknown).unwrap_err(),
        LedgerError::NotFound
    );
}

#[test]
fn accounts_can_be_listed_by_type() {
    let mut client = Client::new();
    client.create_account(&asset("savings")).unwrap();
    client
        .create_account(&NewAccount {
            name: "groceries",
            account_type: AccountType::Expense,
            initial_balance: 0,
        })
        .unwrap();
    client
        .create_account(&NewAccount {
            name: "salary",
            account_type: AccountType::Revenue,
            initial_balance: 0,
        })
        .unwrap();

    let assets = client.list_accounts_by_type(AccountType::Asset).unwrap();
    assert_eq!(assets.len(), 1);
    assert_eq!(assets[0].name, "savings");

    let expenses = client.list_accounts_by_type(AccountType::Expense).unwrap();
    assert_eq!(expenses.len(), 1);
    assert_eq!(expenses[0].name, "groceries");
}

#[test]
fn account_type_codes_round_trip() {
    for t in [AccountType::Asset, AccountType::Expense, AccountType::Revenue] {
        assert_eq!(AccountType::try_from_code(t.code()).unwrap(), t);
    }
    assert_eq!(AccountType::Asset.code(), 0);
    assert_eq!(AccountType::Expense.code(), 1);
    assert_eq!(AccountType::Revenue.code(), 2);
    assert_eq!(
        AccountType::try_from_code(3).unwrap_err(),
        LedgerError::UnknownAccountTypeCode
    );
    assert_eq!(
        AccountType::try_from_code(-1).unwrap_err(),
        LedgerError::UnknownAccountTypeCode
    );
}

#[test]
fn dates_compare_in_calendar_order() {
    let d = Date::from_ymd(2020, 6, 15);
    assert!(Date::from_ymd(2019, 12, 31).lt(&d));
    assert!(Date::from_ymd(2020, 5, 30).lt(&d));
    assert!(Date::from_ymd(2020, 6, 14).lt(&d));
    assert!(d.le(&d));
    assert!(!d.lt(&d));
    assert!(!Date::from_ymd(2020, 6, 16).le(&d));
    assert!(!Date::from_ymd(2021, 1, 1).le(&d));
}

#[test]
fn amount_sums_are_exact() {
    let mut client = Client::new();
    let a = client.create_account(&asset("a")).unwrap();
    let b = client.create_account(&asset("b")).unwrap();

    for (amount, day) in [(100, 1), (-40, 2), (7, 3)] {
        client
            .create_transaction(&NewTransaction {
                name: "t",
                source_account_id: a.id,
                destination_account_id: b.id,
                amount,
                date: Date::from_ymd(2020, 1, day),
            })
            .unwrap();
    }

    let all = client.list_transactions().unwrap();
    assert_eq!(get_transactions_amount_sum(all), 67);

    let all = client.list_transactions().unwrap();
    assert_eq!(get_account_balance_from_transactions(all, &a.id), -67);
    let all = client.list_transactions().unwrap();
    assert_eq!(get_account_balance_from_transactions(all, &b.id), 67);
}
