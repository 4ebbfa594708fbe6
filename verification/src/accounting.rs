use vstd::prelude::*;

use crate::errors::ApplicationError;
use crate::tx::{Tx, TxView};

verus! {

/// One ledger row: an account label and its current balance.
#[derive(Debug, PartialEq, Eq, Clone)]
pub struct AccountEntry {
    pub signer: String,
    pub balance: u64,
}

/// A type for managing accounts and their current currency balance.
///
/// Mathematically the ledger is the finite map from account labels to
/// balances given by [`entries_map`]; every operation's contract is stated
/// over that map.
#[derive(Debug, PartialEq, Eq)]
pub struct Accounts {
    accounts: Vec<AccountEntry>,
}

/// The map described by a sequence of ledger rows: a later row for the
/// same label would win, though a well-formed ledger never has two.
pub open spec fn entries_map(s: Seq<AccountEntry>) -> Map<Seq<char>, u64>
    decreases s.len(),
{
    if s.len() == 0 {
        Map::empty()
    } else {
        entries_map(s.drop_last()).insert(s.last().signer@, s.last().balance)
    }
}

/// No two rows carry the same account label.
pub open spec fn unique_signers(s: Seq<AccountEntry>) -> bool {
    forall|i: int, j: int|
        #![trigger s[i].signer, s[j].signer]
        0 <= i < j < s.len() ==> s[i].signer@ != s[j].signer@
}

/// The effect of a deposit on the ledger map: the account is created at 0
/// if absent, then credited; `None` when the credit would overflow.
pub open spec fn spec_deposit(m: Map<Seq<char>, u64>, k: Seq<char>, amount: u64) -> Option<
    Map<Seq<char>, u64>,
> {
    let b: u64 = if m.contains_key(k) {
        m[k]
    } else {
        0u64
    };
    if b + amount <= u64::MAX {
        Some(m.insert(k, (b + amount) as u64))
    } else {
        None
    }
}

/// The effect of a withdrawal on the ledger map: `None` when the account
/// is absent or holds less than the amount.
pub open spec fn spec_withdraw(m: Map<Seq<char>, u64>, k: Seq<char>, amount: u64) -> Option<
    Map<Seq<char>, u64>,
> {
    if !m.contains_key(k) {
        None
    } else if m[k] < amount {
        None
    } else {
        Some(m.insert(k, (m[k] - amount) as u64))
    }
}

/// The effect of an atomic transfer: a withdrawal from the sender followed
/// by a deposit to the recipient, `None` when either account is absent,
/// the sender lacks funds, or the recipient would overflow. A failing
/// transfer leaves the map untouched.
pub open spec fn spec_send(
    m: Map<Seq<char>, u64>,
    sender: Seq<char>,
    recipient: Seq<char>,
    amount: u64,
) -> Option<Map<Seq<char>, u64>> {
    if !m.contains_key(sender) || !m.contains_key(recipient) {
        None
    } else if m[sender] < amount {
        None
    } else {
        let m1 = m.insert(sender, (m[sender] - amount) as u64);
        if m1[recipient] + amount <= u64::MAX {
            Some(m1.insert(recipient, (m1[recipient] + amount) as u64))
        } else {
            None
        }
    }
}

impl View for Accounts {
    type V = Map<Seq<char>, u64>;

    closed spec fn view(&self) -> Map<Seq<char>, u64> {
        entries_map(self.accounts@)
    }
}

proof fn lemma_entries_map_contains(s: Seq<AccountEntry>, k: Seq<char>)
    ensures
        entries_map(s).contains_key(k) <==> exists|i: int|
            0 <= i < s.len() && s[i].signer@ == k,
    decreases s.len(),
{
    if s.len() > 0 {
        lemma_entries_map_contains(s.drop_last(), k);
        if s.last().signer@ == k {
            assert(s[s.len() - 1].signer@ == k);
        } else if entries_map(s).contains_key(k) {
            let i = choose|i: int| 0 <= i < s.drop_last().len() && s.drop_last()[i].signer@ == k;
            assert(s[i].signer@ == k);
        } else if exists|i: int| 0 <= i < s.len() && s[i].signer@ == k {
            let i = choose|i: int| 0 <= i < s.len() && s[i].signer@ == k;
            assert(s.drop_last()[i].signer@ == k);
        }
    }
}

proof fn lemma_entries_map_index(s: Seq<AccountEntry>, i: int)
    requires
        unique_signers(s),
        0 <= i < s.len(),
    ensures
        entries_map(s).contains_key(s[i].signer@),
        entries_map(s)[s[i].signer@] == s[i].balance,
    decreases s.len(),
{
    if i < s.len() - 1 {
        assert(unique_signers(s.drop_last()));
        lemma_entries_map_index(s.drop_last(), i);
        assert(s.drop_last()[i] == s[i]);
        assert(s.last().signer@ != s[i].signer@);
    }
}

proof fn lemma_entries_map_update(s: Seq<AccountEntry>, i: int, e: AccountEntry)
    requires
        unique_signers(s),
        0 <= i < s.len(),
        e.signer@ == s[i].signer@,
    ensures
        entries_map(s.update(i, e)) == entries_map(s).insert(e.signer@, e.balance),
        unique_signers(s.update(i, e)),
    decreases s.len(),
{
    let t = s.update(i, e);
    assert(t.len() == s.len());
    if i == s.len() - 1 {
        assert(t.drop_last() =~= s.drop_last());
        assert(t.last() == e);
        assert(entries_map(t) == entries_map(s.drop_last()).insert(e.signer@, e.balance));
        assert(entries_map(s.drop_last()).insert(e.signer@, e.balance) =~= entries_map(
            s,
        ).insert(e.signer@, e.balance));
    } else {
        assert(unique_signers(s.drop_last()));
        assert(s.drop_last()[i] == s[i]);
        lemma_entries_map_update(s.drop_last(), i, e);
        assert(t.drop_last() =~= s.drop_last().update(i, e));
        assert(t.last() == s.last());
        assert(s.last().signer@ != e.signer@);
        assert(entries_map(t) == entries_map(s.drop_last()).insert(e.signer@, e.balance).insert(
            s.last().signer@,
            s.last().balance,
        ));
        assert(entries_map(s.drop_last()).insert(e.signer@, e.balance).insert(
            s.last().signer@,
            s.last().balance,
        ) =~= entries_map(s).insert(e.signer@, e.balance));
    }
}

impl Accounts {
    /// The raw ledger rows behind the map view.
    pub closed spec fn entries(&self) -> Seq<AccountEntry> {
        self.accounts@
    }

    /// Ledger well-formedness: one row per account label.
    pub open spec fn wf(&self) -> bool {
        unique_signers(self.entries())
    }

    /// Returns an empty instance of the [`Accounts`] type.
    pub fn new() -> (r: Accounts)
        ensures
            r.wf(),
            r@ == Map::<Seq<char>, u64>::empty(),
            r.entries() == Seq::<AccountEntry>::empty(),
    {
        Accounts { accounts: Vec::new() }
    }

    /// The row index holding the given label, if any.
    fn find_index(&self, signer: &String) -> (r: Option<usize>)
        ensures
            match r {
                Some(i) => i < self.entries().len() && self.entries()[i as int].signer@
                    == signer@,
                None => forall|i: int|
                    0 <= i < self.entries().len() ==> (#[trigger] self.entries()[i].signer)@
                        != signer@,
            },
    {
        let mut j: usize = 0;
        while j < self.accounts.len()
            invariant
                j <= self.accounts.len(),
                forall|i: int|
                    0 <= i < j ==> (#[trigger] self.accounts@[i].signer)@ != signer@,
            decreases self.accounts.len() - j,
        {
            if self.accounts[j].signer == *signer {
                return Some(j);
            }
            j = j + 1;
        }
        None
    }

    /// Whether the ledger holds an account with this label.
    fn contains_account(&self, signer: &String) -> (r: bool)
        ensures
            r == self@.contains_key(signer@),
    {
        proof {
            assert(self@ == entries_map(self.accounts@));
            lemma_entries_map_contains(self.accounts@, signer@);
        }
        match self.find_index(signer) {
            Some(i) => {
                proof {
                    assert(self.entries()[i as int].signer@ == signer@);
                }
                true
            },
            None => false,
        }
    }

    /// Retrieves the balance of an account.
    pub fn balance_of(&self, signer: &str) -> (r: Result<&u64, ApplicationError>)
        requires
            self.wf(),
        ensures
            self@.contains_key(signer@) ==> (r matches Ok(b) && *b == self@[signer@]),
            !self@.contains_key(signer@) ==> (r matches Err(ApplicationError::AccountNotFound(s))
                && s@ == signer@),
    {
        let key = signer.to_owned();
        proof {
            lemma_entries_map_contains(self.accounts@, signer@);
        }
        match self.find_index(&key) {
            Some(i) => {
                proof {
                    lemma_entries_map_index(self.accounts@, i as int);
                }
                Ok(&self.accounts[i].balance)
            },
            None => Err(ApplicationError::AccountNotFound(key)),
        }
    }

    /// Retrieves the list of all accounts with their balances.
    pub fn accounts(&self) -> (r: &Vec<AccountEntry>)
        ensures
            r@ == self.entries(),
            entries_map(r@) == self@,
            self.wf() ==> unique_signers(r@),
    {
        &self.accounts
    }

    /// Either deposits the `amount` provided into the `signer` account or
    /// adds the amount to the existing account, creating it if absent.
    ///
    /// # Errors
    /// Attempted overflow
    pub fn deposit(&mut self, signer: &str, amount: u64) -> (r: Result<Tx, ApplicationError>)
        requires
            old(self).wf(),
        ensures
            final(self).wf(),
            spec_deposit(old(self)@, signer@, amount) matches Some(m) ==> (final(self)@ == m && (
            r matches Ok(tx) && tx@ == (TxView::Deposit { account: signer@, amount }))),
            spec_deposit(old(self)@, signer@, amount) is None ==> (final(self)@ == old(self)@ && (
            r matches Err(ApplicationError::AccountOverFunded(s, a)) && s@ == signer@ && a
                == amount)),
    {
        let key = signer.to_owned();
        proof {
            lemma_entries_map_contains(self.accounts@, signer@);
        }
        match self.find_index(&key) {
            Some(i) => {
                proof {
                    lemma_entries_map_index(self.accounts@, i as int);
                }
                match self.accounts[i].balance.checked_add(amount) {
                    Some(new_balance) => {
                        proof {
                            lemma_entries_map_update(
                                self.accounts@,
                                i as int,
                                AccountEntry { signer: self.accounts@[i as int].signer, balance: new_balance },
                            );
                        }
                        let entry = &mut self.accounts[i];
                        entry.balance = new_balance;
                        Ok(Tx::Deposit { account: key, amount })
                    },
                    None => Err(ApplicationError::AccountOverFunded(key, amount)),
                }
            },
            None => {
                proof {
                    let s = self.accounts@;
                    let e = AccountEntry { signer: key, balance: amount };
                    assert(s.push(e).drop_last() =~= s);
                    assert(unique_signers(s.push(e)));
                }
                self.accounts.push(AccountEntry { signer: key.clone(), balance: amount });
                Ok(Tx::Deposit { account: key, amount })
            },
        }
    }

    /// Withdraws the `amount` from the `signer` account.
    ///
    /// # Errors
    /// The account doesn't exist, or holds less than the amount
    pub fn withdraw(&mut self, signer: &str, amount: u64) -> (r: Result<Tx, ApplicationError>)
        requires
            old(self).wf(),
        ensures
            final(self).wf(),
            spec_withdraw(old(self)@, signer@, amount) matches Some(m) ==> (final(self)@ == m && (
            r matches Ok(tx) && tx@ == (TxView::Withdraw { account: signer@, amount }))),
            !old(self)@.contains_key(signer@) ==> (final(self)@ == old(self)@ && (
            r matches Err(ApplicationError::AccountNotFound(s)) && s@ == signer@)),
            old(self)@.contains_key(signer@) && old(self)@[signer@] < amount ==> (final(self)@
                == old(self)@ && (r matches Err(ApplicationError::AccountUnderFunded(s, a)) && s@
                == signer@ && a == amount)),
    {
        let key = signer.to_owned();
        proof {
            lemma_entries_map_contains(self.accounts@, signer@);
        }
        match self.find_index(&key) {
            Some(i) => {
                proof {
                    lemma_entries_map_index(self.accounts@, i as int);
                }
                match self.accounts[i].balance.checked_sub(amount) {
                    Some(new_balance) => {
                        proof {
                            lemma_entries_map_update(
                                self.accounts@,
                                i as int,
                                AccountEntry { signer: self.accounts@[i as int].signer, balance: new_balance },
                            );
                        }
                        let entry = &mut self.accounts[i];
                        entry.balance = new_balance;
                        Ok(Tx::Withdraw { account: key, amount })
                    },
                    None => Err(ApplicationError::AccountUnderFunded(key, amount)),
                }
            },
            None => Err(ApplicationError::AccountNotFound(key)),
        }
    }

    /// Withdraws the amount from the sender account and deposits it in the
    /// recipient account, all-or-nothing: a failing transfer leaves every
    /// balance as it was.
    ///
    /// # Errors
    /// Either account doesn't exist, the sender lacks funds, or the
    /// recipient would overflow
    pub fn send(&mut self, sender: &str, recipient: &str, amount: u64) -> (r: Result<
        (Tx, Tx),
        ApplicationError,
    >)
        requires
            old(self).wf(),
        ensures
            final(self).wf(),
            spec_send(old(self)@, sender@, recipient@, amount) matches Some(m) ==> (final(self)@
                == m && (r matches Ok(txs) && txs.0@ == (TxView::Withdraw {
                account: sender@,
                amount,
            }) && txs.1@ == (TxView::Deposit { account: recipient@, amount }))),
            spec_send(old(self)@, sender@, recipient@, amount) is None ==> (final(self)@ == old(
                self,
            )@ && r is Err),
            !old(self)@.contains_key(sender@) ==> (r matches Err(
                ApplicationError::AccountNotFound(s),
            ) && s@ == sender@),
            old(self)@.contains_key(sender@) && !old(self)@.contains_key(recipient@) ==> (
            r matches Err(ApplicationError::AccountNotFound(s)) && s@ == recipient@),
            old(self)@.contains_key(sender@) && old(self)@.contains_key(recipient@) && old(
                self,
            )@[sender@] < amount ==> (r matches Err(ApplicationError::AccountUnderFunded(s, a))
                && s@ == sender@ && a == amount),
            old(self)@.contains_key(sender@) && old(self)@.contains_key(recipient@) && old(
                self,
            )@[sender@] >= amount && spec_send(old(self)@, sender@, recipient@, amount) is None
                ==> (r matches Err(ApplicationError::AccountOverFunded(s, a)) && s@ == recipient@
                && a == amount),
    {
        let sender_key = sender.to_owned();
        let recipient_key = recipient.to_owned();
        if !self.contains_account(&sender_key) {
            return Err(ApplicationError::AccountNotFound(sender_key));
        }
        if !self.contains_account(&recipient_key) {
            return Err(ApplicationError::AccountNotFound(recipient_key));
        }
        let ghost m0 = self@;
        let tx_withdraw = match self.withdraw(sender, amount) {
            Ok(tx) => tx,
            Err(e) => {
                return Err(e);
            },
        };
        match self.deposit(recipient, amount) {
            Ok(tx_deposit) => Ok((tx_withdraw, tx_deposit)),
            Err(e) => {
                // return the funds to the sender on error
                proof {
                    assert(self@ == m0.insert(sender@, (m0[sender@] - amount) as u64));
                    assert(self@.contains_key(sender@));
                    assert(self@[sender@] + amount == m0[sender@]);
                }
                match self.deposit(sender, amount) {
                    Ok(_) => {
                        proof {
                            assert(self@ =~= m0);
                        }
                        Err(e)
                    },
                    Err(e2) => {
                        proof {
                            assert(false);
                        }
                        Err(e2)
                    },
                }
            },
        }
    }
}

/// Every balance the ledger can ever report lies within the unsigned
/// 64-bit range: balances are never negative and never exceed `u64::MAX`.
pub proof fn lemma_balances_in_range(a: &Accounts, k: Seq<char>)
    requires
        a@.contains_key(k),
    ensures
        0 <= a@[k] <= u64::MAX,
{
}

} // verus!
