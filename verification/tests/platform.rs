use octopus::errors::ApplicationError;
use octopus::trading_platform::{replay_journal, TradingPlatform};
use octopus::tx::Tx;
use octopus::types::{Order, Side};

fn buy(signer: &str, price: u64, amount: u64) -> Order {
    Order {
        price,
        amount,
        side: Side::Buy,
        signer: signer.to_string(),
    }
}

fn sell(signer: &str, price: u64, amount: u64) -> Order {
    Order {
        price,
        amount,
        side: Side::Sell,
        signer: signer.to_string(),
    }
}

#[test]
fn test_withdraw_unknown_account_is_not_found() {
    let mut platform = TradingPlatform::new();
    platform.deposit("funded", 50).unwrap();
    // an unknown account fails with AccountNotFound, not with underflow
    assert_eq!(
        platform.withdraw("ghost", 100),
        Err(ApplicationError::AccountNotFound("ghost".to_string()))
    );
    assert_eq!(platform.txlog().len(), 1);
}

#[test]
fn test_deposit_zero_creates_account_and_journals() {
    let mut platform = TradingPlatform::new();
    let tx = platform.deposit("newcomer", 0).unwrap();
    assert_eq!(
        tx,
        Tx::Deposit {
            account: "newcomer".to_string(),
            amount: 0
        }
    );
    assert_eq!(platform.balance_of("newcomer"), Ok(&0));
    assert_eq!(
        platform.txlog(),
        &vec![Tx::Deposit {
            account: "newcomer".to_string(),
            amount: 0
        }]
    );
}

#[test]
fn test_equal_price_crosses() {
    let mut platform = TradingPlatform::new();
    platform.deposit("a", 0).unwrap();
    platform.deposit("b", 100).unwrap();
    platform.order(sell("a", 10, 5)).unwrap();
    // a Buy at price 10 matches the resting Sell at exactly price 10
    let receipt = platform.order(buy("b", 10, 5)).unwrap();
    assert_eq!(receipt.matches.len(), 1);
    assert_eq!(receipt.matches[0].signer, "a".to_string());
    assert_eq!(receipt.matches[0].price, 10);
    assert_eq!(receipt.matches[0].amount, 5);
    assert!(platform.orderbook().is_empty());
    assert_eq!(platform.balance_of("a"), Ok(&50));
    assert_eq!(platform.balance_of("b"), Ok(&50));
}

#[test]
fn test_time_priority_smaller_ordinal_first() {
    let mut platform = TradingPlatform::new();
    platform.deposit("a", 0).unwrap();
    platform.deposit("b", 0).unwrap();
    platform.deposit("c", 1000).unwrap();
    let r1 = platform.order(sell("a", 10, 5)).unwrap();
    assert_eq!(r1.ordinal, 1);
    let r2 = platform.order(sell("b", 10, 5)).unwrap();
    assert_eq!(r2.ordinal, 2);
    // fills entirely against a, the older of the two equal-priced sells
    let r3 = platform.order(buy("c", 10, 5)).unwrap();
    assert_eq!(r3.ordinal, 3);
    assert_eq!(r3.matches.len(), 1);
    assert_eq!(r3.matches[0].signer, "a".to_string());
    assert_eq!(r3.matches[0].ordinal, 1);
    assert_eq!(r3.matches[0].amount, 5);
    let book = platform.orderbook();
    assert_eq!(book.len(), 1);
    assert_eq!(book[0].signer, "b".to_string());
    assert_eq!(book[0].remaining, 5);
    assert_eq!(platform.balance_of("a"), Ok(&50));
    assert_eq!(platform.balance_of("c"), Ok(&950));
}

#[test]
fn test_price_improvement() {
    let mut platform = TradingPlatform::new();
    platform.deposit("a", 100).unwrap();
    platform.deposit("b", 0).unwrap();
    platform.order(sell("a", 10, 5)).unwrap();
    platform.deposit("b", 60).unwrap();
    // the aggressor's limit is 12 but the fill executes at the maker's 10
    let receipt = platform.order(buy("b", 12, 5)).unwrap();
    assert_eq!(receipt.matches.len(), 1);
    assert_eq!(receipt.matches[0].price, 10);
    assert_eq!(receipt.matches[0].amount, 5);
    assert!(platform.orderbook().is_empty());
    assert_eq!(platform.balance_of("a"), Ok(&150));
    assert_eq!(platform.balance_of("b"), Ok(&10));
    let txlog = platform.txlog();
    let n = txlog.len();
    assert_eq!(
        txlog[n - 2],
        Tx::Withdraw {
            account: "b".to_string(),
            amount: 50
        }
    );
    assert_eq!(
        txlog[n - 1],
        Tx::Deposit {
            account: "a".to_string(),
            amount: 50
        }
    );
}

#[test]
fn test_partial_fill_then_rest() {
    let mut platform = TradingPlatform::new();
    platform.deposit("c", 100).unwrap();
    // no Sell exists: the Buy rests whole
    let receipt = platform.order(buy("c", 10, 10)).unwrap();
    assert_eq!(receipt.ordinal, 1);
    assert!(receipt.matches.is_empty());
    let book = platform.orderbook();
    assert_eq!(book.len(), 1);
    assert_eq!(book[0].side, Side::Buy);
    assert_eq!(book[0].price, 10);
    assert_eq!(book[0].amount, 10);
    assert_eq!(book[0].remaining, 10);
    assert_eq!(book[0].ordinal, 1);
    assert_eq!(book[0].signer, "c".to_string());
}

#[test]
fn test_atomic_send_rollback() {
    let mut platform = TradingPlatform::new();
    platform.deposit("a", 100).unwrap();
    platform.deposit("b", u64::MAX).unwrap();
    let journal_before = platform.txlog().clone();
    let actual = platform.send("a", "b", 1);
    assert_eq!(
        actual,
        Err(ApplicationError::AccountOverFunded("b".to_string(), 1))
    );
    assert_eq!(platform.balance_of("a"), Ok(&100));
    assert_eq!(platform.balance_of("b"), Ok(&u64::MAX));
    assert_eq!(platform.txlog(), &journal_before);
}

#[test]
fn test_replay_reproduces_accounts() {
    let mut platform = TradingPlatform::new();
    platform.deposit("a", 500).unwrap();
    platform.deposit("b", 20).unwrap();
    platform.deposit("c", 0).unwrap();
    platform.withdraw("a", 30).unwrap();
    platform.send("a", "b", 125).unwrap();
    platform.send("b", "c", 7).unwrap();
    platform.deposit("b", 1).unwrap();
    // trading moves balances through the same journal
    platform.order(sell("b", 3, 10)).unwrap();
    platform.order(buy("a", 4, 6)).unwrap();
    let replayed = replay_journal(platform.txlog()).expect("journal must replay");
    assert_eq!(replayed.accounts(), platform.accounts());
}

#[test]
fn test_two_aggressive_orders_cross_an_intermediate() {
    let mut platform = TradingPlatform::new();
    platform.deposit("a", 0).unwrap();
    platform.deposit("b", 0).unwrap();
    platform.deposit("c", 100).unwrap();
    platform.order(sell("a", 10, 3)).unwrap();
    platform.order(sell("b", 11, 3)).unwrap();
    let receipt = platform.order(buy("c", 11, 5)).unwrap();
    assert_eq!(receipt.matches.len(), 2);
    assert_eq!(receipt.matches[0].signer, "a".to_string());
    assert_eq!(receipt.matches[0].price, 10);
    assert_eq!(receipt.matches[0].amount, 3);
    assert_eq!(receipt.matches[1].signer, "b".to_string());
    assert_eq!(receipt.matches[1].price, 11);
    assert_eq!(receipt.matches[1].amount, 2);
    // b is left resting with one unit; c has no residual
    let book = platform.orderbook();
    assert_eq!(book.len(), 1);
    assert_eq!(book[0].signer, "b".to_string());
    assert_eq!(book[0].remaining, 1);
    assert_eq!(platform.balance_of("a"), Ok(&30));
    assert_eq!(platform.balance_of("b"), Ok(&22));
    assert_eq!(platform.balance_of("c"), Ok(&48));
}

#[test]
fn test_ordinal_monotonicity_across_receipts() {
    let mut platform = TradingPlatform::new();
    platform.deposit("a", 1000).unwrap();
    let mut last = 0;
    for k in 0..5 {
        let r = platform.order(sell("a", 10 + k, 1)).unwrap();
        assert!(r.ordinal > last);
        last = r.ordinal;
    }
}

#[test]
fn test_settlement_failure_drops_fill_and_continues() {
    let mut platform = TradingPlatform::new();
    // the buyer can pay for b's cheap offer but not for a's expensive one
    platform.deposit("a", 0).unwrap();
    platform.deposit("b", 0).unwrap();
    platform.deposit("c", 10).unwrap();
    platform.order(sell("a", 8, 1)).unwrap();
    platform.order(sell("b", 9, 1)).unwrap();
    platform.withdraw("c", 2).unwrap(); // c now holds 8: enough for a at 8, not both
    let receipt = platform.order(buy("c", 9, 2)).unwrap();
    // the first fill (a at 8) settles; the second (b at 9) fails and is dropped
    assert_eq!(receipt.matches.len(), 1);
    assert_eq!(receipt.matches[0].signer, "a".to_string());
    assert_eq!(receipt.matches[0].price, 8);
    assert_eq!(platform.balance_of("c"), Ok(&0));
    assert_eq!(platform.balance_of("a"), Ok(&8));
    assert_eq!(platform.balance_of("b"), Ok(&0));
    // both resting orders were consumed by matching even though one fill was dropped
    assert!(platform.orderbook().is_empty());
    // the journal holds only the settled movement
    let replayed = replay_journal(platform.txlog()).expect("journal must replay");
    assert_eq!(replayed.accounts(), platform.accounts());
}

#[test]
fn test_orderbook_snapshot_is_sorted_by_ordinal() {
    let mut platform = TradingPlatform::new();
    platform.deposit("a", 1000).unwrap();
    platform.deposit("b", 1000).unwrap();
    // non-crossing orders on both sides rest with ordinals 1..=4
    platform.order(buy("a", 5, 1)).unwrap();
    platform.order(sell("b", 50, 1)).unwrap();
    platform.order(buy("a", 6, 1)).unwrap();
    platform.order(sell("b", 60, 1)).unwrap();
    let book = platform.orderbook();
    let ordinals: Vec<u64> = book.iter().map(|po| po.ordinal).collect();
    assert_eq!(ordinals, vec![1, 2, 3, 4]);
    let sides: Vec<Side> = book.iter().map(|po| po.side).collect();
    assert_eq!(sides, vec![Side::Buy, Side::Sell, Side::Buy, Side::Sell]);
}

#[test]
fn test_fill_value_overflow_is_dropped() {
    let mut platform = TradingPlatform::new();
    platform.deposit("a", 0).unwrap();
    platform.deposit("b", u64::MAX).unwrap();
    // the fill's value u64::MAX * 2 cannot be represented: the fill is
    // discarded like any settlement failure, while matching still ran
    platform.order(sell("a", u64::MAX, 2)).unwrap();
    let receipt = platform.order(buy("b", u64::MAX, 2)).unwrap();
    assert!(receipt.matches.is_empty());
    assert!(platform.orderbook().is_empty());
    assert_eq!(platform.balance_of("a"), Ok(&0));
    assert_eq!(platform.balance_of("b"), Ok(&u64::MAX));
    assert_eq!(platform.txlog().len(), 2);
}

#[test]
fn test_resting_buy_settles_at_its_own_price() {
    let mut platform = TradingPlatform::new();
    platform.deposit("a", 100).unwrap();
    platform.deposit("b", 0).unwrap();
    // a resting Buy at 12 met by an aggressive Sell at 10 trades at 12
    platform.order(buy("a", 12, 5)).unwrap();
    let receipt = platform.order(sell("b", 10, 5)).unwrap();
    assert_eq!(receipt.matches.len(), 1);
    assert_eq!(receipt.matches[0].price, 12);
    assert_eq!(receipt.matches[0].signer, "a".to_string());
    assert_eq!(platform.balance_of("a"), Ok(&40));
    assert_eq!(platform.balance_of("b"), Ok(&60));
}
