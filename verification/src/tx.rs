use vstd::prelude::*;

verus! {

/// A transaction type. Transactions should be able to rebuild a ledger's
/// state when they are applied in the same sequence to an empty state.
#[derive(Debug, PartialEq, Eq, Clone)]
pub enum Tx {
    /// Currency was added to the account
    Deposit { account: String, amount: u64 },
    /// Currency was withdrawn from the account
    Withdraw { account: String, amount: u64 },
}

/// The mathematical shape of a transaction: the account label as a
/// character sequence together with the amount moved.
pub enum TxView {
    Deposit { account: Seq<char>, amount: u64 },
    Withdraw { account: Seq<char>, amount: u64 },
}

impl View for Tx {
    type V = TxView;

    open spec fn view(&self) -> TxView {
        match self {
            Tx::Deposit { account, amount } => TxView::Deposit {
                account: account@,
                amount: *amount,
            },
            Tx::Withdraw { account, amount } => TxView::Withdraw {
                account: account@,
                amount: *amount,
            },
        }
    }
}

impl Tx {
    /// An explicit copy, field by field, so that the copy is known to
    /// equal the original.
    pub fn duplicate(&self) -> (r: Tx)
        ensures
            r == *self,
    {
        match self {
            Tx::Deposit { account, amount } => Tx::Deposit {
                account: account.clone(),
                amount: *amount,
            },
            Tx::Withdraw { account, amount } => Tx::Withdraw {
                account: account.clone(),
                amount: *amount,
            },
        }
    }
}

} // verus!
