use vstd::prelude::*;
use crate::error::ErrorCode;
use crate::identity::Identity;

verus! {

/// A resting limit order. Only `size` ever changes while it rests.
#[derive(Clone, Copy, Debug, PartialEq, Eq)]
pub struct Order {
    pub order_id: u128,
    pub owner: Identity,
    pub price: u64,
    pub size: u64,
    pub timestamp: i64,
}

/// The static description of a market, and the source of its order ids.
#[derive(Clone, Copy, Debug, PartialEq, Eq)]
pub struct Market {
    pub key: Identity,
    pub base_mint: Identity,
    pub quote_mint: Identity,
    pub bump: u8,
    /// The id that the next placement receives. It only grows.
    pub next_order_id: u128,
}

/// One participant's balances in one market.
///
/// The locked balances back the participant's own resting orders. The free
/// balances came from fills and wait to be settled.
#[derive(Clone, Copy, Debug, PartialEq, Eq)]
pub struct OpenOrders {
    pub owner: Identity,
    pub market: Identity,
    pub base_free: u64,
    pub base_locked: u64,
    pub quote_free: u64,
    pub quote_locked: u64,
}

impl Market {
    /// A market that has given out no order id yet.
    pub fn new(key: Identity, base_mint: Identity, quote_mint: Identity, bump: u8) -> (market:
        Market)
        ensures
            market == (Market { key, base_mint, quote_mint, bump, next_order_id: 0 }),
    {
        Market { key, base_mint, quote_mint, bump, next_order_id: 0 }
    }
}

impl OpenOrders {
    /// All of the base asset that custody holds for this participant.
    pub open spec fn base_total(self) -> int {
        self.base_free + self.base_locked
    }

    /// All of the quote asset that custody holds for this participant.
    pub open spec fn quote_total(self) -> int {
        self.quote_free + self.quote_locked
    }

    /// Whether this is the record of `owner` in `market`.
    pub open spec fn belongs_to(self, owner: Identity, market: Identity) -> bool {
        self.owner == owner && self.market == market
    }

    /// The record with one more reservation: a bid reserves quote, an ask base.
    pub open spec fn locked(self, is_bid: bool, amount: u64) -> Result<OpenOrders, ErrorCode> {
        if is_bid {
            if self.quote_locked + amount > u64::MAX {
                Err(ErrorCode::MathOverflow)
            } else {
                Ok(OpenOrders { quote_locked: (self.quote_locked + amount) as u64, ..self })
            }
        } else {
            if self.base_locked + amount > u64::MAX {
                Err(ErrorCode::MathOverflow)
            } else {
                Ok(OpenOrders { base_locked: (self.base_locked + amount) as u64, ..self })
            }
        }
    }

    /// The record with a reservation released: of quote for a bid, of base for
    /// an ask.
    pub open spec fn unlocked(self, is_bid: bool, amount: u64) -> Result<OpenOrders, ErrorCode> {
        if is_bid {
            if self.quote_locked < amount {
                Err(ErrorCode::InsufficientFunds)
            } else {
                Ok(OpenOrders { quote_locked: (self.quote_locked - amount) as u64, ..self })
            }
        } else {
            if self.base_locked < amount {
                Err(ErrorCode::InsufficientFunds)
            } else {
                Ok(OpenOrders { base_locked: (self.base_locked - amount) as u64, ..self })
            }
        }
    }

    /// The record after a fill of `size` base for `value` quote.
    ///
    /// The buyer pays `value` out of its locked quote and receives `size` free
    /// base. The seller pays `size` out of its locked base and receives `value`
    /// free quote. The payment is looked at first.
    pub open spec fn filled(self, buys: bool, size: u64, value: u64) -> Result<
        OpenOrders,
        ErrorCode,
    > {
        if buys {
            if self.quote_locked < value {
                Err(ErrorCode::InsufficientFunds)
            } else if self.base_free + size > u64::MAX {
                Err(ErrorCode::MathOverflow)
            } else {
                Ok(
                    OpenOrders {
                        quote_locked: (self.quote_locked - value) as u64,
                        base_free: (self.base_free + size) as u64,
                        ..self
                    },
                )
            }
        } else {
            if self.base_locked < size {
                Err(ErrorCode::InsufficientFunds)
            } else if self.quote_free + value > u64::MAX {
                Err(ErrorCode::MathOverflow)
            } else {
                Ok(
                    OpenOrders {
                        base_locked: (self.base_locked - size) as u64,
                        quote_free: (self.quote_free + value) as u64,
                        ..self
                    },
                )
            }
        }
    }

    /// A fresh record: every balance zero.
    pub fn new(owner: Identity, market: Identity) -> (r: OpenOrders)
        ensures
            r == (OpenOrders {
                owner,
                market,
                base_free: 0,
                base_locked: 0,
                quote_free: 0,
                quote_locked: 0,
            }),
    {
        OpenOrders { owner, market, base_free: 0, base_locked: 0, quote_free: 0, quote_locked: 0 }
    }

    /// Reserves `amount` for a new order. Nothing changes when it is refused.
    pub fn lock(&mut self, is_bid: bool, amount: u64) -> (r: Result<(), ErrorCode>)
        ensures
            match old(self).locked(is_bid, amount) {
                Ok(next) => r == Ok::<(), ErrorCode>(()) && *final(self) == next,
                Err(e) => r == Err::<(), ErrorCode>(e) && *final(self) == *old(self),
            },
    {
        if is_bid {
            match self.quote_locked.checked_add(amount) {
                Some(v) => {
                    self.quote_locked = v;
                    Ok(())
                },
                None => Err(ErrorCode::MathOverflow),
            }
        } else {
            match self.base_locked.checked_add(amount) {
                Some(v) => {
                    self.base_locked = v;
                    Ok(())
                },
                None => Err(ErrorCode::MathOverflow),
            }
        }
    }

    /// Releases `amount` of a reservation. Nothing changes when it is refused.
    pub fn unlock(&mut self, is_bid: bool, amount: u64) -> (r: Result<(), ErrorCode>)
        ensures
            match old(self).unlocked(is_bid, amount) {
                Ok(next) => r == Ok::<(), ErrorCode>(()) && *final(self) == next,
                Err(e) => r == Err::<(), ErrorCode>(e) && *final(self) == *old(self),
            },
    {
        if is_bid {
            match self.quote_locked.checked_sub(amount) {
                Some(v) => {
                    self.quote_locked = v;
                    Ok(())
                },
                None => Err(ErrorCode::InsufficientFunds),
            }
        } else {
            match self.base_locked.checked_sub(amount) {
                Some(v) => {
                    self.base_locked = v;
                    Ok(())
                },
                None => Err(ErrorCode::InsufficientFunds),
            }
        }
    }

    /// Books one side of a fill: both balances change, or neither does.
    pub fn fill(&mut self, buys: bool, size: u64, value: u64) -> (r: Result<(), ErrorCode>)
        ensures
            match old(self).filled(buys, size, value) {
                Ok(next) => r == Ok::<(), ErrorCode>(()) && *final(self) == next,
                Err(e) => r == Err::<(), ErrorCode>(e) && *final(self) == *old(self),
            },
    {
        if buys {
            let paid = match self.quote_locked.checked_sub(value) {
                Some(v) => v,
                None => {
                    return Err(ErrorCode::InsufficientFunds);
                },
            };
            let received = match self.base_free.checked_add(size) {
                Some(v) => v,
                None => {
                    return Err(ErrorCode::MathOverflow);
                },
            };
            self.quote_locked = paid;
            self.base_free = received;
        } else {
            let paid = match self.base_locked.checked_sub(size) {
                Some(v) => v,
                None => {
                    return Err(ErrorCode::InsufficientFunds);
                },
            };
            let received = match self.quote_free.checked_add(value) {
                Some(v) => v,
                None => {
                    return Err(ErrorCode::MathOverflow);
                },
            };
            self.base_locked = paid;
            self.quote_free = received;
        }
        Ok(())
    }
}

/// No balance is ever taken below zero: a release or a payment that the locked
/// balance does not cover is refused with `InsufficientFunds`, and only such a
/// one is.
pub proof fn shortfall_is_refused(record: OpenOrders, is_bid: bool, amount: u64, size: u64, value: u64)
    ensures
        record.unlocked(is_bid, amount) == Err::<OpenOrders, ErrorCode>(
            ErrorCode::InsufficientFunds,
        ) <==> (if is_bid {
            record.quote_locked
        } else {
            record.base_locked
        }) < amount,
        record.filled(true, size, value) == Err::<OpenOrders, ErrorCode>(
            ErrorCode::InsufficientFunds,
        ) <==> record.quote_locked < value,
        record.filled(false, size, value) == Err::<OpenOrders, ErrorCode>(
            ErrorCode::InsufficientFunds,
        ) <==> record.base_locked < size,
{
}

} // verus!
