use vstd::prelude::*;
use crate::book::{
    books_well_formed, distinct_ids, has_key, key_index, key_index_exists, removal_keeps_ids,
    OrderBook,
};
use crate::error::ErrorCode;
use crate::identity::Identity;
use crate::state::{OpenOrders, Order};

verus! {

/// What a cancellation works on: the caller, both sides of the market's book,
/// and the caller's balance record there.
#[derive(Clone, Debug, PartialEq, Eq)]
pub struct CancelOrder {
    pub signer: Identity,
    pub bids: OrderBook,
    pub asks: OrderBook,
    pub open_orders: OpenOrders,
}

/// A `CancelOrder` with its books as sequences.
pub struct CancelOrderView {
    pub signer: Identity,
    pub bids: Seq<Order>,
    pub asks: Seq<Order>,
    pub open_orders: OpenOrders,
}

impl View for CancelOrder {
    type V = CancelOrderView;

    open spec fn view(&self) -> CancelOrderView {
        CancelOrderView {
            signer: self.signer,
            bids: self.bids@,
            asks: self.asks@,
            open_orders: self.open_orders,
        }
    }
}

/// The outcome of a cancellation that went through.
pub struct Cancelled {
    pub state: CancelOrderView,
    /// What custody returns to the caller: quote for a bid, base for an ask.
    pub refund: u64,
}

impl CancelOrderView {
    /// The side of the book that a cancellation addresses.
    pub open spec fn side(self, is_bid: bool) -> Seq<Order> {
        if is_bid {
            self.bids
        } else {
            self.asks
        }
    }

    /// What a resting order still reserves: its price times its size in quote
    /// for a bid, its size in base for an ask.
    pub open spec fn reserve(is_bid: bool, order: Order) -> int {
        if is_bid {
            order.price * order.size
        } else {
            order.size as int
        }
    }

    /// The outcome of cancelling the caller's order `order_id` on one side.
    ///
    /// The caller must own the record. The order is the first on that side
    /// with this id and the caller as owner; an order of someone else is as
    /// good as absent. It leaves the book, and what it still reserved is
    /// released from the record and refunded.
    pub open spec fn after_cancel(self, order_id: u128, is_bid: bool) -> Result<
        Cancelled,
        ErrorCode,
    > {
        let book = self.side(is_bid);
        if self.open_orders.owner != self.signer {
            Err(ErrorCode::UnauthorizedAccess)
        } else if !has_key(book, order_id, self.signer) {
            Err(ErrorCode::OrderNotFound)
        } else {
            let at = key_index(book, order_id, self.signer);
            if Self::reserve(is_bid, book[at]) > u64::MAX {
                Err(ErrorCode::MathOverflow)
            } else {
                let refund = Self::reserve(is_bid, book[at]) as u64;
                match self.open_orders.unlocked(is_bid, refund) {
                    Err(e) => Err(e),
                    Ok(released) => Ok(
                        Cancelled {
                            state: CancelOrderView {
                                signer: self.signer,
                                bids: if is_bid {
                                    book.remove(at)
                                } else {
                                    self.bids
                                },
                                asks: if is_bid {
                                    self.asks
                                } else {
                                    book.remove(at)
                                },
                                open_orders: released,
                            },
                            refund,
                        },
                    ),
                }
            }
        }
    }
}

/// An order that was cancelled cannot be cancelled again: in a book where no
/// id rests twice, the second attempt finds nothing.
pub proof fn cancel_twice_is_refused(state: CancelOrderView, order_id: u128, is_bid: bool)
    requires
        distinct_ids(state.side(is_bid)),
        state.after_cancel(order_id, is_bid) is Ok,
    ensures
        state.after_cancel(order_id, is_bid)->Ok_0.state.after_cancel(order_id, is_bid) == Err::<
            Cancelled,
            ErrorCode,
        >(ErrorCode::OrderNotFound),
{
    let book = state.side(is_bid);
    key_index_exists(book, order_id, state.signer);
    let at = key_index(book, order_id, state.signer);
    let next = state.after_cancel(order_id, is_bid)->Ok_0.state;
    assert(next.side(is_bid) == book.remove(at));
    if has_key(book.remove(at), order_id, state.signer) {
        let i = choose|i: int|
            0 <= i < book.remove(at).len() && (#[trigger] book.remove(at)[i]).order_id == order_id
                && book.remove(at)[i].owner == state.signer;
        let j = if i < at {
            i
        } else {
            i + 1
        };
        assert(book.remove(at)[i] == book[j]);
        if j < at {
            assert(book[j].order_id != book[at].order_id);
        } else {
            assert(book[at].order_id != book[j].order_id);
        }
    }
}

/// An order of someone else cannot be cancelled, and the refusal does not tell
/// it from an order that is not there.
pub proof fn cancel_of_foreign_order_is_refused(
    state: CancelOrderView,
    order_id: u128,
    is_bid: bool,
)
    requires
        state.open_orders.owner == state.signer,
        forall|i: int|
            0 <= i < state.side(is_bid).len() && (#[trigger] state.side(is_bid)[i]).order_id
                == order_id ==> state.side(is_bid)[i].owner != state.signer,
    ensures
        state.after_cancel(order_id, is_bid) == Err::<Cancelled, ErrorCode>(
            ErrorCode::OrderNotFound,
        ),
{
}

/// A cancellation never takes the locked balance below zero: an order that
/// reserves more than the record has locked cannot be cancelled.
pub proof fn cancel_beyond_locked_is_refused(state: CancelOrderView, order_id: u128, is_bid: bool)
    requires
        state.open_orders.owner == state.signer,
        has_key(state.side(is_bid), order_id, state.signer),
        ({
            let order = state.side(is_bid)[key_index(state.side(is_bid), order_id, state.signer)];
            let locked = if is_bid {
                state.open_orders.quote_locked
            } else {
                state.open_orders.base_locked
            };
            locked < CancelOrderView::reserve(is_bid, order) <= u64::MAX
        }),
    ensures
        state.after_cancel(order_id, is_bid) == Err::<Cancelled, ErrorCode>(
            ErrorCode::InsufficientFunds,
        ),
{
}

impl CancelOrder {
    /// Cancels the caller's resting order `order_id` on one side of the book.
    ///
    /// On success custody has to return the refund to the caller. A refused
    /// cancellation changes nothing.
    pub fn cancel_order(&mut self, order_id: u128, is_bid: bool) -> (r: Result<u64, ErrorCode>)
        ensures
            match old(self)@.after_cancel(order_id, is_bid) {
                Ok(cancelled) => {
                    &&& r == Ok::<u64, ErrorCode>(cancelled.refund)
                    &&& final(self)@ == cancelled.state
                },
                Err(e) => r == Err::<u64, ErrorCode>(e) && final(self)@ == old(self)@,
            },
            r is Ok ==> {
                &&& forall|next_order_id: u128|
                    books_well_formed(old(self).bids@, old(self).asks@, next_order_id)
                        ==> books_well_formed(final(self).bids@, final(self).asks@, next_order_id)
                &&& final(self).open_orders.base_total() == old(self).open_orders.base_total() - (
                if is_bid {
                    0
                } else {
                    r->Ok_0 as int
                })
                &&& final(self).open_orders.quote_total() == old(self).open_orders.quote_total()
                    - (if is_bid {
                    r->Ok_0 as int
                } else {
                    0
                })
            },
    {
        if self.open_orders.owner != self.signer {
            return Err(ErrorCode::UnauthorizedAccess);
        }
        let found = if is_bid {
            self.bids.position_of(order_id, self.signer)
        } else {
            self.asks.position_of(order_id, self.signer)
        };
        let at = match found {
            Some(at) => at,
            None => {
                return Err(ErrorCode::OrderNotFound);
            },
        };
        let order = if is_bid {
            self.bids.orders[at]
        } else {
            self.asks.orders[at]
        };
        let refund = if is_bid {
            match order.price.checked_mul(order.size) {
                Some(v) => v,
                None => {
                    return Err(ErrorCode::MathOverflow);
                },
            }
        } else {
            order.size
        };
        match self.open_orders.unlock(is_bid, refund) {
            Ok(()) => {},
            Err(e) => {
                return Err(e);
            },
        }
        proof {
            if is_bid {
                removal_keeps_ids(self.bids@, at as int);
            } else {
                removal_keeps_ids(self.asks@, at as int);
            }
        }
        if is_bid {
            self.bids.remove_at(at);
        } else {
            self.asks.remove_at(at);
        }
        Ok(refund)
    }
}

} // verus!
