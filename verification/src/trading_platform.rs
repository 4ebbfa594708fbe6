use vstd::prelude::*;

use crate::accounting::{
    spec_deposit, spec_send, spec_withdraw, AccountEntry, Accounts,
};
use crate::errors::ApplicationError;
use crate::orderbook::{duplicate, ordinal_bound, spec_submit, OrderBook};
use crate::tx::{Tx, TxView};
use crate::types::{Order, PartialOrder, Receipt, Side};

verus! {

/// The effect of one journal entry on a ledger map: a deposit credits the
/// account (creating it if absent), a withdrawal debits it; `None` when
/// the entry cannot apply.
pub open spec fn spec_apply(m: Map<Seq<char>, u64>, t: TxView) -> Option<Map<Seq<char>, u64>> {
    match t {
        TxView::Deposit { account, amount } => spec_deposit(m, account, amount),
        TxView::Withdraw { account, amount } => spec_withdraw(m, account, amount),
    }
}

/// Replaying a journal onto an empty ledger: the transactions applied in
/// order, `None` as soon as one of them cannot apply.
pub open spec fn spec_replay(j: Seq<TxView>) -> Option<Map<Seq<char>, u64>>
    decreases j.len(),
{
    if j.len() == 0 {
        Some(Map::<Seq<char>, u64>::empty())
    } else {
        match spec_replay(j.drop_last()) {
            Some(m) => spec_apply(m, j.last()),
            None => None,
        }
    }
}

/// The settlement pass over the fill records of one `order` call.
///
/// For each fill, the value `price · amount` moves from the buyer to the
/// seller — the buyer being whichever of the fill's maker and the
/// aggressor bought. A fill whose value does not fit in 64 bits or whose
/// transfer fails is discarded: balances and journal stay as they were
/// and settlement continues with the next fill. The result is the
/// sequence of fills that actually settled, the ledger map after them,
/// and the journal after them.
pub open spec fn spec_settle(
    fills: Seq<PartialOrder>,
    taker: Seq<char>,
    m: Map<Seq<char>, u64>,
    j: Seq<TxView>,
) -> (Seq<PartialOrder>, Map<Seq<char>, u64>, Seq<TxView>)
    decreases fills.len(),
{
    if fills.len() == 0 {
        (Seq::<PartialOrder>::empty(), m, j)
    } else {
        let f = fills[0];
        let v = f.price * f.amount;
        let buyer = if f.side == Side::Buy {
            f.signer@
        } else {
            taker
        };
        let seller = if f.side == Side::Buy {
            taker
        } else {
            f.signer@
        };
        if v > u64::MAX {
            spec_settle(fills.drop_first(), taker, m, j)
        } else {
            match spec_send(m, buyer, seller, v as u64) {
                Some(m2) => {
                    let j2 = j.push(TxView::Withdraw { account: buyer, amount: v as u64 }).push(
                        TxView::Deposit { account: seller, amount: v as u64 },
                    );
                    let rest = spec_settle(fills.drop_first(), taker, m2, j2);
                    (seq![f] + rest.0, rest.1, rest.2)
                },
                None => spec_settle(fills.drop_first(), taker, m, j),
            }
        }
    }
}

proof fn lemma_journal_push(txs: Seq<Tx>, t: Tx)
    ensures
        txs.push(t).map_values(|x: Tx| x@) == txs.map_values(|x: Tx| x@).push(t@),
{
    assert(txs.push(t).map_values(|x: Tx| x@) =~= txs.map_values(|x: Tx| x@).push(t@));
}

/// A successful transfer, journaled as its withdrawal followed by its
/// deposit, extends a replayable journal to one that replays to the new
/// ledger.
proof fn lemma_replay_send_extends(
    m: Map<Seq<char>, u64>,
    j: Seq<TxView>,
    sender: Seq<char>,
    recipient: Seq<char>,
    amount: u64,
)
    requires
        spec_replay(j) == Some(m),
        spec_send(m, sender, recipient, amount) is Some,
    ensures
        spec_replay(
            j.push(TxView::Withdraw { account: sender, amount }).push(
                TxView::Deposit { account: recipient, amount },
            ),
        ) == spec_send(m, sender, recipient, amount),
{
    let j1 = j.push(TxView::Withdraw { account: sender, amount });
    let j2 = j1.push(TxView::Deposit { account: recipient, amount });
    let m1 = m.insert(sender, (m[sender] - amount) as u64);
    assert(j1.drop_last() =~= j);
    assert(j2.drop_last() =~= j1);
    assert(spec_replay(j1) == Some(m1));
    assert(spec_replay(j2) == spec_deposit(m1, recipient, amount));
}

/// If a prefix of a journal already fails to replay, the whole journal
/// fails to replay.
proof fn lemma_replay_none_extends(j: Seq<TxView>, n: int)
    requires
        0 <= n <= j.len(),
        spec_replay(j.take(n)) is None,
    ensures
        spec_replay(j) is None,
    decreases j.len() - n,
{
    if n < j.len() {
        assert(j.take(n + 1).drop_last() =~= j.take(n));
        lemma_replay_none_extends(j, n + 1);
    } else {
        assert(j.take(n) =~= j);
    }
}

/// The trading platform: the accounts ledger, the order book, the
/// ordinal counter, and the transaction journal, composed behind one
/// interface. Only the platform mutates the ledger and the book, and
/// every balance-affecting event it performs is appended to the journal.
pub struct TradingPlatform {
    accounts: Accounts,
    orderbook: OrderBook,
    ordinal: u64,
    transactions: Vec<Tx>,
}

impl TradingPlatform {
    /// The ledger as a map from account label to balance.
    pub closed spec fn ledger(&self) -> Map<Seq<char>, u64> {
        self.accounts@
    }

    /// The ledger rows behind [`TradingPlatform::ledger`].
    pub closed spec fn ledger_entries(&self) -> Seq<AccountEntry> {
        self.accounts.entries()
    }

    /// The journal as the ordered sequence of transaction views.
    pub closed spec fn journal(&self) -> Seq<TxView> {
        self.transactions@.map_values(|t: Tx| t@)
    }

    /// The resting Buy orders, oldest first.
    pub closed spec fn buys(&self) -> Seq<PartialOrder> {
        self.orderbook.buys_view()
    }

    /// The resting Sell orders, oldest first.
    pub closed spec fn sells(&self) -> Seq<PartialOrder> {
        self.orderbook.sells_view()
    }

    /// The ordinal most recently assigned; 0 before any order was
    /// accepted.
    pub closed spec fn last_ordinal(&self) -> u64 {
        self.ordinal
    }

    /// Platform well-formedness: the ledger and the book are well formed,
    /// no resting order carries an ordinal beyond the counter, and the
    /// journal replays to exactly the current ledger.
    pub closed spec fn wf(&self) -> bool {
        &&& self.accounts.wf()
        &&& self.orderbook.wf()
        &&& ordinal_bound(self.orderbook.buys_view(), self.ordinal)
        &&& ordinal_bound(self.orderbook.sells_view(), self.ordinal)
        &&& spec_replay(self.journal()) == Some(self.accounts@)
    }

    /// A fresh platform: no accounts, an empty book, an empty journal.
    pub fn new() -> (r: TradingPlatform)
        ensures
            r.wf(),
            r.ledger() == Map::<Seq<char>, u64>::empty(),
            r.journal() == Seq::<TxView>::empty(),
            r.buys() == Seq::<PartialOrder>::empty(),
            r.sells() == Seq::<PartialOrder>::empty(),
            r.last_ordinal() == 0,
    {
        let r = TradingPlatform {
            accounts: Accounts::new(),
            orderbook: OrderBook::new(),
            ordinal: 0,
            transactions: Vec::new(),
        };
        proof {
            assert(r.journal() =~= Seq::<TxView>::empty());
        }
        r
    }

    /// Deposit an amount into an account, creating the account if it is
    /// absent, and journal the transaction. A deposit whose credit would
    /// overflow fails with `AccountOverFunded` and changes nothing.
    pub fn deposit(&mut self, signer: &str, amount: u64) -> (r: Result<Tx, ApplicationError>)
        requires
            old(self).wf(),
        ensures
            final(self).wf(),
            final(self).buys() == old(self).buys(),
            final(self).sells() == old(self).sells(),
            final(self).last_ordinal() == old(self).last_ordinal(),
            spec_deposit(old(self).ledger(), signer@, amount) matches Some(m) ==> (final(self).ledger() == m && final(self).journal() == old(self).journal().push(
                TxView::Deposit { account: signer@, amount },
            ) && (r matches Ok(tx) && tx@ == (TxView::Deposit { account: signer@, amount }))),
            spec_deposit(old(self).ledger(), signer@, amount) is None ==> (final(self).ledger()
                == old(self).ledger() && final(self).journal() == old(self).journal() && (
            r matches Err(ApplicationError::AccountOverFunded(s, a)) && s@ == signer@ && a
                == amount)),
    {
        match self.accounts.deposit(signer, amount) {
            Ok(tx) => {
                proof {
                    lemma_journal_push(self.transactions@, tx);
                    assert(self.journal().push(tx@).drop_last() =~= self.journal());
                }
                self.transactions.push(tx.duplicate());
                Ok(tx)
            },
            Err(e) => Err(e),
        }
    }

    /// Withdraw an amount from an account and journal the transaction. A
    /// withdrawal from a missing account fails with `AccountNotFound`,
    /// one against insufficient funds with `AccountUnderFunded`; either
    /// failure changes nothing.
    pub fn withdraw(&mut self, signer: &str, amount: u64) -> (r: Result<Tx, ApplicationError>)
        requires
            old(self).wf(),
        ensures
            final(self).wf(),
            final(self).buys() == old(self).buys(),
            final(self).sells() == old(self).sells(),
            final(self).last_ordinal() == old(self).last_ordinal(),
            spec_withdraw(old(self).ledger(), signer@, amount) matches Some(m) ==> (final(self).ledger() == m && final(self).journal() == old(self).journal().push(
                TxView::Withdraw { account: signer@, amount },
            ) && (r matches Ok(tx) && tx@ == (TxView::Withdraw { account: signer@, amount }))),
            spec_withdraw(old(self).ledger(), signer@, amount) is None ==> (final(self).ledger()
                == old(self).ledger() && final(self).journal() == old(self).journal()),
            !old(self).ledger().contains_key(signer@) ==> (r matches Err(
                ApplicationError::AccountNotFound(s),
            ) && s@ == signer@),
            old(self).ledger().contains_key(signer@) && old(self).ledger()[signer@] < amount ==> (
            r matches Err(ApplicationError::AccountUnderFunded(s, a)) && s@ == signer@ && a
                == amount),
    {
        match self.accounts.withdraw(signer, amount) {
            Ok(tx) => {
                proof {
                    lemma_journal_push(self.transactions@, tx);
                    assert(self.journal().push(tx@).drop_last() =~= self.journal());
                }
                self.transactions.push(tx.duplicate());
                Ok(tx)
            },
            Err(e) => Err(e),
        }
    }

    /// Transfer an amount between two accounts, all-or-nothing, and
    /// journal the withdrawal followed by the deposit. A failing send
    /// leaves balances and journal exactly as they were.
    pub fn send(&mut self, sender: &str, recipient: &str, amount: u64) -> (r: Result<
        (Tx, Tx),
        ApplicationError,
    >)
        requires
            old(self).wf(),
        ensures
            final(self).wf(),
            final(self).buys() == old(self).buys(),
            final(self).sells() == old(self).sells(),
            final(self).last_ordinal() == old(self).last_ordinal(),
            spec_send(old(self).ledger(), sender@, recipient@, amount) matches Some(m) ==> (final(self).ledger() == m && final(self).journal() == old(self).journal().push(
                TxView::Withdraw { account: sender@, amount },
            ).push(TxView::Deposit { account: recipient@, amount }) && (r matches Ok(txs)
                && txs.0@ == (TxView::Withdraw { account: sender@, amount }) && txs.1@ == (
            TxView::Deposit { account: recipient@, amount }))),
            spec_send(old(self).ledger(), sender@, recipient@, amount) is None ==> (final(self).ledger() == old(self).ledger() && final(self).journal() == old(self).journal()
                && r is Err),
            !old(self).ledger().contains_key(sender@) ==> (r matches Err(
                ApplicationError::AccountNotFound(s),
            ) && s@ == sender@),
            old(self).ledger().contains_key(sender@) && !old(self).ledger().contains_key(
                recipient@,
            ) ==> (r matches Err(ApplicationError::AccountNotFound(s)) && s@ == recipient@),
            old(self).ledger().contains_key(sender@) && old(self).ledger().contains_key(recipient@)
                && old(self).ledger()[sender@] < amount ==> (r matches Err(
                ApplicationError::AccountUnderFunded(s, a),
            ) && s@ == sender@ && a == amount),
            old(self).ledger().contains_key(sender@) && old(self).ledger().contains_key(recipient@)
                && old(self).ledger()[sender@] >= amount && spec_send(
                old(self).ledger(),
                sender@,
                recipient@,
                amount,
            ) is None ==> (r matches Err(ApplicationError::AccountOverFunded(s, a)) && s@
                == recipient@ && a == amount),
    {
        match self.accounts.send(sender, recipient, amount) {
            Ok((tx_withdraw, tx_deposit)) => {
                proof {
                    lemma_replay_send_extends(
                        old(self).ledger(),
                        old(self).journal(),
                        sender@,
                        recipient@,
                        amount,
                    );
                    lemma_journal_push(self.transactions@, tx_withdraw);
                    lemma_journal_push(self.transactions@.push(tx_withdraw), tx_deposit);
                }
                self.transactions.push(tx_withdraw.duplicate());
                self.transactions.push(tx_deposit.duplicate());
                Ok((tx_withdraw, tx_deposit))
            },
            Err(e) => Err(e),
        }
    }

    /// Retrieves the balance of an account.
    pub fn balance_of(&self, signer: &str) -> (r: Result<&u64, ApplicationError>)
        requires
            self.wf(),
        ensures
            self.ledger().contains_key(signer@) ==> (r matches Ok(b) && *b == self.ledger()[
                signer@]),
            !self.ledger().contains_key(signer@) ==> (r matches Err(
                ApplicationError::AccountNotFound(s),
            ) && s@ == signer@),
    {
        self.accounts.balance_of(signer)
    }

    /// Read-only view of all accounts with their balances.
    pub fn accounts(&self) -> (r: &Vec<AccountEntry>)
        ensures
            r@ == self.ledger_entries(),
            crate::accounting::entries_map(r@) == self.ledger(),
    {
        self.accounts.accounts()
    }

    /// Read-only view of the whole order book: all resting partial
    /// orders in ascending ordinal order, the canonical deterministic
    /// form for a given state.
    pub fn orderbook(&self) -> (r: Vec<PartialOrder>)
        requires
            self.wf(),
        ensures
            r@ == crate::orderbook::merge_by_ordinal(self.buys(), self.sells()),
            crate::orderbook::sorted_by_ordinal(r@),
    {
        self.orderbook.snapshot()
    }

    /// The ordinal most recently assigned to an order; 0 before any
    /// order was accepted. Callers can use it to see that the counter is
    /// not exhausted before submitting an order.
    pub fn last_assigned_ordinal(&self) -> (r: u64)
        ensures
            r == self.last_ordinal(),
    {
        self.ordinal
    }

    /// Read-only view of the transaction journal.
    pub fn txlog(&self) -> (r: &Vec<Tx>)
        ensures
            r@.map_values(|t: Tx| t@) == self.journal(),
    {
        &self.transactions
    }

    /// Accept a limit order: assign the next ordinal, match it against
    /// the opposite side of the book under price-time priority, settle
    /// each fill by moving `price · amount` from the buyer to the seller
    /// (discarding fills that cannot settle), rest what is left of the
    /// incoming order, and return a receipt carrying the assigned ordinal
    /// and the fills that settled.
    pub fn order(&mut self, incoming: Order) -> (r: Result<Receipt, ApplicationError>)
        requires
            old(self).wf(),
            incoming.price >= 1,
            incoming.amount >= 1,
            old(self).last_ordinal() < u64::MAX,
        ensures
            final(self).wf(),
            final(self).last_ordinal() == old(self).last_ordinal() + 1,
            r matches Ok(receipt) && receipt.ordinal == old(self).last_ordinal() + 1,
            incoming.side == Side::Buy ==> ({
                let sub = spec_submit(old(self).sells(), Side::Buy, incoming.price,
                    incoming.amount);
                let set = spec_settle(sub.0, incoming.signer@, old(self).ledger(),
                    old(self).journal());
                &&& final(self).sells() == sub.1
                &&& final(self).buys() == if sub.2 > 0 {
                    old(self).buys().push(
                        (PartialOrder {
                            price: incoming.price,
                            amount: incoming.amount,
                            remaining: sub.2,
                            side: incoming.side,
                            signer: incoming.signer,
                            ordinal: (old(self).last_ordinal() + 1) as u64,
                        }),
                    )
                } else {
                    old(self).buys()
                }
                &&& (r matches Ok(receipt) && receipt.matches@ == set.0)
                &&& final(self).ledger() == set.1
                &&& final(self).journal() == set.2
            }),
            incoming.side == Side::Sell ==> ({
                let sub = spec_submit(old(self).buys(), Side::Sell, incoming.price,
                    incoming.amount);
                let set = spec_settle(sub.0, incoming.signer@, old(self).ledger(),
                    old(self).journal());
                &&& final(self).buys() == sub.1
                &&& final(self).sells() == if sub.2 > 0 {
                    old(self).sells().push(
                        (PartialOrder {
                            price: incoming.price,
                            amount: incoming.amount,
                            remaining: sub.2,
                            side: incoming.side,
                            signer: incoming.signer,
                            ordinal: (old(self).last_ordinal() + 1) as u64,
                        }),
                    )
                } else {
                    old(self).sells()
                }
                &&& (r matches Ok(receipt) && receipt.matches@ == set.0)
                &&& final(self).ledger() == set.1
                &&& final(self).journal() == set.2
            }),
    {
        self.ordinal = self.ordinal + 1;
        let taker = incoming.signer.clone();
        let amount = incoming.amount;
        let po = incoming.into_partial_order(self.ordinal, amount);
        let fills = self.orderbook.submit(po);
        let ghost m0 = self.accounts@;
        let ghost j0 = self.journal();
        let ghost ordinal_now = self.ordinal;
        let ghost book_now = self.orderbook;
        let mut matches: Vec<PartialOrder> = Vec::new();
        let mut k: usize = 0;
        proof {
            assert(fills@.skip(0) =~= fills@);
            assert(Seq::<PartialOrder>::empty() + spec_settle(fills@, taker@, m0, j0).0
                =~= spec_settle(fills@, taker@, m0, j0).0);
        }
        while k < fills.len()
            invariant
                k <= fills.len(),
                self.ordinal == ordinal_now,
                self.orderbook == book_now,
                self.accounts.wf(),
                spec_replay(self.journal()) == Some(self.accounts@),
                spec_settle(fills@, taker@, m0, j0).0 == matches@ + spec_settle(
                    fills@.skip(k as int),
                    taker@,
                    self.accounts@,
                    self.journal(),
                ).0,
                spec_settle(fills@, taker@, m0, j0).1 == spec_settle(
                    fills@.skip(k as int),
                    taker@,
                    self.accounts@,
                    self.journal(),
                ).1,
                spec_settle(fills@, taker@, m0, j0).2 == spec_settle(
                    fills@.skip(k as int),
                    taker@,
                    self.accounts@,
                    self.journal(),
                ).2,
            decreases fills.len() - k,
        {
            let ghost m_pre = self.accounts@;
            let ghost j_pre = self.journal();
            let ghost rest_pre = fills@.skip(k as int);
            proof {
                assert(rest_pre[0] == fills@[k as int]);
                assert(rest_pre.drop_first() =~= fills@.skip(k as int + 1));
            }
            let f = &fills[k];
            match f.price.checked_mul(f.amount) {
                Some(value) => {
                    let is_maker_buy = match f.side {
                        Side::Buy => true,
                        Side::Sell => false,
                    };
                    let (buyer, seller) = if is_maker_buy {
                        (&f.signer, &taker)
                    } else {
                        (&taker, &f.signer)
                    };
                    match self.accounts.send(buyer.as_str(), seller.as_str(), value) {
                        Ok((tx_withdraw, tx_deposit)) => {
                            proof {
                                lemma_replay_send_extends(
                                    m_pre,
                                    j_pre,
                                    buyer@,
                                    seller@,
                                    value,
                                );
                                lemma_journal_push(self.transactions@, tx_withdraw);
                                lemma_journal_push(
                                    self.transactions@.push(tx_withdraw),
                                    tx_deposit,
                                );
                                let step = spec_settle(rest_pre, taker@, m_pre, j_pre);
                                let rest = spec_settle(
                                    fills@.skip(k as int + 1),
                                    taker@,
                                    spec_send(m_pre, buyer@, seller@, value).unwrap(),
                                    j_pre.push(
                                        TxView::Withdraw { account: buyer@, amount: value },
                                    ).push(TxView::Deposit { account: seller@, amount: value }),
                                );
                                assert(step.0 == seq![fills@[k as int]] + rest.0);
                                assert(matches@ + step.0 =~= matches@.push(fills@[k as int])
                                    + rest.0);
                            }
                            self.transactions.push(tx_withdraw.duplicate());
                            self.transactions.push(tx_deposit.duplicate());
                            matches.push(duplicate(f));
                        },
                        Err(_) => {},
                    }
                },
                None => {},
            }
            k = k + 1;
        }
        proof {
            assert(fills@.skip(fills@.len() as int) =~= Seq::<PartialOrder>::empty());
            assert(matches@ + Seq::<PartialOrder>::empty() =~= matches@);
        }
        Ok(Receipt { ordinal: self.ordinal, matches })
    }
}

/// Rebuild a ledger by replaying a journal in order onto an empty
/// ledger; `None` when some entry cannot apply. Replaying the journal a
/// well-formed platform has recorded reproduces its accounts exactly.
pub fn replay_journal(txs: &Vec<Tx>) -> (r: Option<Accounts>)
    ensures
        match r {
            Some(a) => a.wf() && spec_replay(txs@.map_values(|t: Tx| t@)) == Some(a@),
            None => spec_replay(txs@.map_values(|t: Tx| t@)) is None,
        },
{
    let ghost jv = txs@.map_values(|t: Tx| t@);
    let mut ledger = Accounts::new();
    let mut k: usize = 0;
    proof {
        assert(jv.take(0) =~= Seq::<TxView>::empty());
    }
    while k < txs.len()
        invariant
            k <= txs.len(),
            ledger.wf(),
            jv == txs@.map_values(|t: Tx| t@),
            jv.len() == txs@.len(),
            spec_replay(jv.take(k as int)) == Some(ledger@),
        decreases txs.len() - k,
    {
        proof {
            assert(jv.take(k as int + 1).drop_last() =~= jv.take(k as int));
            assert(jv.take(k as int + 1).last() == txs@[k as int]@);
        }
        let ok = match &txs[k] {
            Tx::Deposit { account, amount } => {
                match ledger.deposit(account.as_str(), *amount) {
                    Ok(_) => true,
                    Err(_) => false,
                }
            },
            Tx::Withdraw { account, amount } => {
                match ledger.withdraw(account.as_str(), *amount) {
                    Ok(_) => true,
                    Err(_) => false,
                }
            },
        };
        if !ok {
            proof {
                lemma_replay_none_extends(jv, k as int + 1);
            }
            return None;
        }
        k = k + 1;
    }
    proof {
        assert(jv.take(txs@.len() as int) =~= jv);
    }
    Some(ledger)
}

/// Journal replay: a well-formed platform's journal, applied in order to
/// an empty ledger, reproduces the platform's current accounts exactly.
pub proof fn lemma_journal_replay(p: &TradingPlatform)
    requires
        p.wf(),
    ensures
        spec_replay(p.journal()) == Some(p.ledger()),
{
}

/// On a well-formed platform every resting order still has something to
/// trade — a partial order whose remaining part reaches zero is removed —
/// sits on the side it was submitted for, and carries an ordinal no later
/// than the last one assigned.
pub proof fn lemma_resting_orders_wf(p: &TradingPlatform)
    requires
        p.wf(),
    ensures
        forall|i: int|
            0 <= i < p.buys().len() ==> {
                let po = #[trigger] p.buys()[i];
                1 <= po.remaining <= po.amount && po.side == Side::Buy && po.ordinal
                    <= p.last_ordinal()
            },
        forall|i: int|
            0 <= i < p.sells().len() ==> {
                let po = #[trigger] p.sells()[i];
                1 <= po.remaining <= po.amount && po.side == Side::Sell && po.ordinal
                    <= p.last_ordinal()
            },
{
}

/// Ordinal monotonicity: each `order` call returns the counter value it
/// advanced to, and no operation ever decreases the counter, so of two
/// receipts issued by a serialized sequence of `order` calls the later
/// one carries the strictly larger ordinal.
pub proof fn lemma_ordinal_monotonicity(
    counter_before_first: u64,
    first: Receipt,
    counter_before_second: u64,
    second: Receipt,
)
    requires
        first.ordinal == counter_before_first + 1,
        counter_before_second >= counter_before_first + 1,
        second.ordinal == counter_before_second + 1,
    ensures
        first.ordinal < second.ordinal,
{
}

/// Conservation across a fill: when the fill for amount `a` at price `p`
/// settles, exactly `a · p` leaves the buyer and reaches the seller, and
/// the journal gains exactly one withdrawal from the buyer followed by
/// one deposit to the seller, both of `a · p`.
pub proof fn lemma_fill_conservation(
    f: PartialOrder,
    taker: Seq<char>,
    m: Map<Seq<char>, u64>,
    j: Seq<TxView>,
)
    requires
        spec_settle(seq![f], taker, m, j).0.len() > 0,
    ensures
        ({
            let v = (f.price * f.amount) as u64;
            let buyer = if f.side == Side::Buy {
                f.signer@
            } else {
                taker
            };
            let seller = if f.side == Side::Buy {
                taker
            } else {
                f.signer@
            };
            let r = spec_settle(seq![f], taker, m, j);
            &&& f.price * f.amount <= u64::MAX
            &&& r.2 == j.push(TxView::Withdraw { account: buyer, amount: v }).push(
                (TxView::Deposit { account: seller, amount: v }),
            )
            &&& buyer != seller ==> r.1[buyer] == m[buyer] - v && r.1[seller] == m[seller] + v
            &&& buyer == seller ==> r.1[buyer] == m[buyer]
        }),
{
    let fills = seq![f];
    assert(fills.len() == 1);
    assert(fills[0] == f);
    assert(fills.drop_first() =~= Seq::<PartialOrder>::empty());
    let v = f.price * f.amount;
    let buyer = if f.side == Side::Buy {
        f.signer@
    } else {
        taker
    };
    let seller = if f.side == Side::Buy {
        taker
    } else {
        f.signer@
    };
    if v > u64::MAX {
        assert(spec_settle(Seq::<PartialOrder>::empty(), taker, m, j).0.len() == 0);
        assert(spec_settle(fills, taker, m, j).0 == spec_settle(
            fills.drop_first(),
            taker,
            m,
            j,
        ).0);
        assert(spec_settle(fills, taker, m, j).0.len() == 0);
    } else {
        match spec_send(m, buyer, seller, v as u64) {
            Some(m2) => {
                let j2 = j.push(TxView::Withdraw { account: buyer, amount: v as u64 }).push(
                    TxView::Deposit { account: seller, amount: v as u64 },
                );
                assert(spec_settle(Seq::<PartialOrder>::empty(), taker, m2, j2).1 == m2);
                assert(spec_settle(Seq::<PartialOrder>::empty(), taker, m2, j2).2 == j2);
                assert(spec_settle(fills, taker, m, j).1 == spec_settle(
                    fills.drop_first(),
                    taker,
                    m2,
                    j2,
                ).1);
                assert(spec_settle(fills, taker, m, j).2 == spec_settle(
                    fills.drop_first(),
                    taker,
                    m2,
                    j2,
                ).2);
                let m1 = m.insert(buyer, (m[buyer] - v) as u64);
                assert(m2 == m1.insert(seller, (m1[seller] + v) as u64));
            },
            None => {
                assert(spec_settle(Seq::<PartialOrder>::empty(), taker, m, j).0.len() == 0);
                assert(spec_settle(fills, taker, m, j).0 == spec_settle(
                    fills.drop_first(),
                    taker,
                    m,
                    j,
                ).0);
                assert(spec_settle(fills, taker, m, j).0.len() == 0);
            },
        }
    }
}

} // verus!
