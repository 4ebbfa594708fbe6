use octopus::accounting::{AccountEntry, Accounts};
use octopus::errors::ApplicationError;
use octopus::tx::Tx;

#[test]
fn test_accounts_withdraw_underfunded() {
    let mut accounts = Accounts::new();
    accounts.deposit("a-key", 0).unwrap();
    let actual = accounts.withdraw("a-key", 100);
    assert_eq!(
        actual,
        Err(ApplicationError::AccountUnderFunded(
            "a-key".to_string(),
            100
        ))
    );
}

#[test]
fn test_accounts_deposit_overfunded() {
    let mut accounts = Accounts::new();
    accounts
        .deposit("a-key", 1)
        .expect("Initial deposit failed");
    let actual = accounts.deposit("a-key", u64::MAX);
    assert_eq!(
        actual,
        Err(ApplicationError::AccountOverFunded(
            "a-key".to_string(),
            u64::MAX
        ))
    );
}

#[test]
fn test_accounts_deposit_works() {
    let mut accounts = Accounts::new();
    let amt = 100;
    let actual = accounts.deposit("a-key", amt);
    assert_eq!(
        actual,
        Ok(Tx::Deposit {
            account: "a-key".to_string(),
            amount: amt
        })
    );
}

#[test]
fn test_accounts_withdraw_works() {
    let mut accounts = Accounts::new();
    let amt = 100;
    accounts.deposit("a-key", amt).expect("Couldn't deposit");
    let actual = accounts.withdraw("a-key", amt);
    assert_eq!(
        actual,
        Ok(Tx::Withdraw {
            account: "a-key".to_string(),
            amount: amt
        })
    );
}

#[test]
fn test_accounts_send_works() {
    let mut accounts = Accounts::new();
    let amt = 100;
    accounts.deposit("a-key", amt).expect("Couldn't deposit");

    // creating the receiver is also required
    accounts.deposit("b-key", 0).expect("Couldn't deposit");

    let (tx1, tx2) = accounts.send("a-key", "b-key", amt).expect("Send failed");
    assert_eq!(
        tx1,
        Tx::Withdraw {
            account: "a-key".to_string(),
            amount: amt
        }
    );
    assert_eq!(
        tx2,
        Tx::Deposit {
            account: "b-key".to_string(),
            amount: amt
        }
    );

    let actual = accounts.withdraw("b-key", amt);
    assert_eq!(
        actual,
        Ok(Tx::Withdraw {
            account: "b-key".to_string(),
            amount: amt
        })
    );
}

#[test]
fn test_accounts_send_underfunded_fails_and_rolls_back() {
    let mut accounts = Accounts::new();
    let amt = 100;
    accounts.deposit("a-key", amt).expect("Couldn't deposit");

    // creating the receiver is also required
    accounts.deposit("b-key", 0).expect("Couldn't deposit");

    let actual = accounts.send("a-key", "b-key", amt + 1);
    assert!(actual.is_err());
    let expected = vec![
        AccountEntry {
            signer: "a-key".to_string(),
            balance: amt,
        },
        AccountEntry {
            signer: "b-key".to_string(),
            balance: 0,
        },
    ];
    assert_eq!(accounts.accounts(), &expected);
}

#[test]
fn test_accounts_send_overfunded_fails_and_rolls_back() {
    let mut accounts = Accounts::new();
    let amt = 100;
    accounts.deposit("a-key", amt).expect("Couldn't deposit");

    // creating the receiver is also required
    accounts
        .deposit("b-key", u64::MAX)
        .expect("Couldn't deposit");

    let actual = accounts.send("a-key", "b-key", 1);
    assert!(actual.is_err());
    let expected = vec![
        AccountEntry {
            signer: "a-key".to_string(),
            balance: amt,
        },
        AccountEntry {
            signer: "b-key".to_string(),
            balance: u64::MAX,
        },
    ];
    assert_eq!(accounts.accounts(), &expected);
}

#[test]
fn test_accounts_send_underfunded_error_kind() {
    let mut accounts = Accounts::new();
    accounts.deposit("a-key", 10).unwrap();
    accounts.deposit("b-key", 0).unwrap();
    let actual = accounts.send("a-key", "b-key", 11);
    assert_eq!(
        actual,
        Err(ApplicationError::AccountUnderFunded(
            "a-key".to_string(),
            11
        ))
    );
}

#[test]
fn test_accounts_send_missing_parties() {
    let mut accounts = Accounts::new();
    accounts.deposit("a-key", 10).unwrap();
    assert_eq!(
        accounts.send("ghost", "a-key", 1),
        Err(ApplicationError::AccountNotFound("ghost".to_string()))
    );
    assert_eq!(
        accounts.send("a-key", "ghost", 1),
        Err(ApplicationError::AccountNotFound("ghost".to_string()))
    );
}

#[test]
fn test_accounts_zero_amount_operations() {
    let mut accounts = Accounts::new();
    // a deposit of zero still creates the account and yields a transaction
    assert_eq!(
        accounts.deposit("a-key", 0),
        Ok(Tx::Deposit {
            account: "a-key".to_string(),
            amount: 0
        })
    );
    assert_eq!(accounts.balance_of("a-key"), Ok(&0));
    // a withdraw of zero against an existing account succeeds
    assert_eq!(
        accounts.withdraw("a-key", 0),
        Ok(Tx::Withdraw {
            account: "a-key".to_string(),
            amount: 0
        })
    );
    // a zero-amount send between existing accounts succeeds with both txs
    accounts.deposit("b-key", 0).unwrap();
    let (t1, t2) = accounts.send("a-key", "b-key", 0).expect("Send failed");
    assert_eq!(
        t1,
        Tx::Withdraw {
            account: "a-key".to_string(),
            amount: 0
        }
    );
    assert_eq!(
        t2,
        Tx::Deposit {
            account: "b-key".to_string(),
            amount: 0
        }
    );
}

#[test]
fn test_balance_of_unknown_account() {
    let accounts = Accounts::new();
    assert_eq!(
        accounts.balance_of("nobody"),
        Err(ApplicationError::AccountNotFound("nobody".to_string()))
    );
}
