use vstd::prelude::*;

verus! {

/// Simplified side of a position as well as order.
#[derive(Clone, Copy, PartialEq, Eq, Structural, Debug)]
pub enum Side {
    /// Want to buy
    Buy,
    /// Want to sell
    Sell,
}

/// An order to buy or sell an amount at a given limit price.
#[derive(Clone, PartialEq, Eq, Debug)]
pub struct Order {
    /// Max/min price (depending on the side)
    pub price: u64,
    /// Number of units to trade
    pub amount: u64,
    /// The side of the order book (buy or sell)
    pub side: Side,
    /// The account signer
    pub signer: String,
}

/// A position represents an unfilled order that is kept in the system for
/// later filling. The same shape also serves as a fill record: a fill
/// carries the executed price, the matched amount, and the maker's signer
/// and ordinal.
#[derive(Clone, PartialEq, Eq, Debug)]
pub struct PartialOrder {
    /// Price per unit
    pub price: u64,
    /// Initial number of units in the order
    pub amount: u64,
    /// Remaining number of units after potential matches
    pub remaining: u64,
    /// Buy or sell side of the book
    pub side: Side,
    /// Signer of the order
    pub signer: String,
    /// Sequence number
    pub ordinal: u64,
}

/// A receipt issued to the caller for accepting an [`Order`].
#[derive(Clone, PartialEq, Eq, Debug)]
pub struct Receipt {
    /// Sequence number assigned to the incoming order
    pub ordinal: u64,
    /// Matches that happened immediately
    pub matches: Vec<PartialOrder>,
}

/// Request body for a deposit or a withdrawal.
#[derive(Clone, PartialEq, Eq, Debug)]
pub struct AccountUpdateRequest {
    pub signer: String,
    pub amount: u64,
}

/// Request body for a balance query.
#[derive(Clone, PartialEq, Eq, Debug)]
pub struct AccountBalanceRequest {
    pub signer: String,
}

/// Request body for a transfer between two accounts.
#[derive(Clone, PartialEq, Eq, Debug)]
pub struct SendRequest {
    pub sender: String,
    pub recipient: String,
    pub amount: u64,
}

impl Order {
    /// Convert an [`Order`] into a [`PartialOrder`] with the added parameters.
    pub fn into_partial_order(self, ordinal: u64, remaining: u64) -> (r: PartialOrder)
        ensures
            r.price == self.price,
            r.amount == self.amount,
            r.remaining == remaining,
            r.side == self.side,
            r.signer == self.signer,
            r.ordinal == ordinal,
    {
        let Order { price, amount, side, signer } = self;
        PartialOrder { price, amount, remaining, side, signer, ordinal }
    }
}

impl PartialOrder {
    /// Splits one [`PartialOrder`] into two by taking a defined `take`
    /// amount: the position keeps the rest, and the returned fill record
    /// carries the taken amount at the given execution price.
    pub fn take_from(pos: &mut PartialOrder, take: u64, price: u64) -> (r: PartialOrder)
        requires
            take <= old(pos).remaining,
        ensures
            final(pos).price == old(pos).price,
            final(pos).amount == old(pos).amount,
            final(pos).remaining == old(pos).remaining - take,
            final(pos).side == old(pos).side,
            final(pos).signer == old(pos).signer,
            final(pos).ordinal == old(pos).ordinal,
            r.price == price,
            r.amount == take,
            r.remaining == final(pos).remaining,
            r.side == old(pos).side,
            r.signer == old(pos).signer,
            r.ordinal == old(pos).ordinal,
    {
        pos.remaining = pos.remaining - take;
        PartialOrder {
            price,
            amount: take,
            remaining: pos.remaining,
            side: pos.side,
            signer: pos.signer.clone(),
            ordinal: pos.ordinal,
        }
    }
}

} // verus!
