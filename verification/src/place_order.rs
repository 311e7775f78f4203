use vstd::prelude::*;
use crate::book::{books_well_formed, with_order, with_order_keeps_ids, OrderBook};
use crate::error::ErrorCode;
use crate::identity::Identity;
use crate::matching::{
    after_matching, crosses, held_base, held_quote, match_order, matching_consumes_front,
    rest_keeps_order, Matching,
};
use crate::state::{Market, OpenOrders, Order};

verus! {

/// What a placement works on: the caller, the market with both sides of its
/// book, and the caller's balance record there.
#[derive(Clone, Debug, PartialEq, Eq)]
pub struct PlaceOrder {
    pub signer: Identity,
    pub market: Market,
    pub bids: OrderBook,
    pub asks: OrderBook,
    pub user_open_orders: OpenOrders,
}

/// A `PlaceOrder` with its books as sequences.
pub struct PlaceOrderView {
    pub signer: Identity,
    pub market: Market,
    pub bids: Seq<Order>,
    pub asks: Seq<Order>,
    pub user_open_orders: OpenOrders,
}

impl View for PlaceOrder {
    type V = PlaceOrderView;

    open spec fn view(&self) -> PlaceOrderView {
        PlaceOrderView {
            signer: self.signer,
            market: self.market,
            bids: self.bids@,
            asks: self.asks@,
            user_open_orders: self.user_open_orders,
        }
    }
}

/// What a placement tells the caller.
#[derive(Clone, Copy, Debug, PartialEq, Eq, Structural)]
pub struct Placement {
    /// The id given to the order.
    pub order_id: u128,
    /// What the caller has to move into custody: the quote that a bid
    /// reserves, the base that an ask reserves.
    pub deposit: u64,
    /// The size that was not filled and now rests in the book.
    pub resting: u64,
}

/// The outcome of a placement that went through.
pub struct Placed {
    pub state: PlaceOrderView,
    pub makers: Seq<OpenOrders>,
    pub placement: Placement,
}

impl PlaceOrderView {
    /// The book is in order on both sides, no id rests twice, and every id
    /// that rests was given out before.
    pub open spec fn well_formed(self) -> bool {
        books_well_formed(self.bids, self.asks, self.market.next_order_id)
    }

    /// The caller's record as the placement uses it. A record that nobody
    /// owns yet becomes the caller's, with nothing on it.
    pub open spec fn claimed_record(self) -> OpenOrders {
        if self.user_open_orders.owner.is_unset() {
            OpenOrders {
                owner: self.signer,
                market: self.market.key,
                base_free: 0,
                base_locked: 0,
                quote_free: 0,
                quote_locked: 0,
            }
        } else {
            self.user_open_orders
        }
    }

    /// What an order reserves: its price times its size in quote for a bid,
    /// its size in base for an ask.
    pub open spec fn reserve(is_bid: bool, price: u64, size: u64) -> int {
        if is_bid {
            price * size
        } else {
            size as int
        }
    }

    /// The outcome of placing an order of `size` at limit `price` at time
    /// `now`.
    ///
    /// The caller must own the record. The order takes the market's next id.
    /// Its reserve is locked on the record, then it is matched against the
    /// other side of the book. What is left of it rests on its own side, at
    /// the place that price and time give it.
    pub open spec fn after_place(
        self,
        makers: Seq<OpenOrders>,
        is_bid: bool,
        price: u64,
        size: u64,
        now: i64,
    ) -> Result<Placed, ErrorCode> {
        let record = self.claimed_record();
        if !record.belongs_to(self.signer, self.market.key) {
            Err(ErrorCode::UnauthorizedAccess)
        } else if self.market.next_order_id == u128::MAX {
            Err(ErrorCode::MathOverflow)
        } else if Self::reserve(is_bid, price, size) > u64::MAX {
            Err(ErrorCode::MathOverflow)
        } else {
            let deposit = Self::reserve(is_bid, price, size) as u64;
            match record.locked(is_bid, deposit) {
                Err(e) => Err(e),
                Ok(reserved) => match after_matching(
                    Matching {
                        book: if is_bid {
                            self.asks
                        } else {
                            self.bids
                        },
                        taker: reserved,
                        makers,
                        remaining: size,
                    },
                    is_bid,
                    price,
                ) {
                    Err(e) => Err(e),
                    Ok(end) => {
                        let order_id = self.market.next_order_id;
                        let own = if is_bid {
                            self.bids
                        } else {
                            self.asks
                        };
                        let own_after = if end.remaining > 0 {
                            with_order(
                                is_bid,
                                own,
                                Order {
                                    order_id,
                                    owner: self.signer,
                                    price,
                                    size: end.remaining,
                                    timestamp: now,
                                },
                            )
                        } else {
                            own
                        };
                        Ok(
                            Placed {
                                state: PlaceOrderView {
                                    signer: self.signer,
                                    market: Market {
                                        next_order_id: (order_id + 1) as u128,
                                        ..self.market
                                    },
                                    bids: if is_bid {
                                        own_after
                                    } else {
                                        end.book
                                    },
                                    asks: if is_bid {
                                        end.book
                                    } else {
                                        own_after
                                    },
                                    user_open_orders: end.taker,
                                },
                                makers: end.makers,
                                placement: Placement { order_id, deposit, resting: end.remaining },
                            },
                        )
                    },
                },
            }
        }
    }
}

/// An order that does not cross the book fills nothing: the other side and the
/// makers' records stay as they are, and the whole order rests on its own side.
pub proof fn place_without_cross_rests_whole(
    state: PlaceOrderView,
    makers: Seq<OpenOrders>,
    is_bid: bool,
    price: u64,
    size: u64,
    now: i64,
)
    requires
        state.after_place(makers, is_bid, price, size, now) is Ok,
        ({
            let other = if is_bid {
                state.asks
            } else {
                state.bids
            };
            other.len() == 0 || !crosses(is_bid, price, other[0].price)
        }),
    ensures
        ({
            let placed = state.after_place(makers, is_bid, price, size, now)->Ok_0;
            let resting = Order {
                order_id: state.market.next_order_id,
                owner: state.signer,
                price,
                size,
                timestamp: now,
            };
            &&& placed.placement.resting == size
            &&& placed.makers == makers
            &&& is_bid ==> placed.state.asks == state.asks
            &&& !is_bid ==> placed.state.bids == state.bids
            &&& size > 0 && is_bid ==> placed.state.bids == with_order(true, state.bids, resting)
            &&& size > 0 && !is_bid ==> placed.state.asks == with_order(false, state.asks, resting)
        }),
{
}

impl PlaceOrder {
    /// Places a limit order for the caller.
    ///
    /// `remaining_accounts` holds the balance records of the owners of the
    /// resting orders that the order may hit; `now` is the time the order
    /// carries. On success the caller has to move the returned deposit into
    /// custody. A refused placement changes nothing.
    ///
    /// A bid reserves its own limit price for every unit, and a fill pays the
    /// resting order's price. What a bid reserved above the prices it was
    /// filled at stays locked on the record.
    pub fn place_order(
        &mut self,
        is_bid: bool,
        price: u64,
        size: u64,
        remaining_accounts: &mut Vec<OpenOrders>,
        now: i64,
    ) -> (r: Result<Placement, ErrorCode>)
        ensures
            match old(self)@.after_place(old(remaining_accounts)@, is_bid, price, size, now) {
                Ok(placed) => {
                    &&& r == Ok::<Placement, ErrorCode>(placed.placement)
                    &&& final(self)@ == placed.state
                    &&& final(remaining_accounts)@ == placed.makers
                },
                Err(e) => {
                    &&& r == Err::<Placement, ErrorCode>(e)
                    &&& final(self)@ == old(self)@
                    &&& final(remaining_accounts)@ == old(remaining_accounts)@
                },
            },
            r is Ok && old(self)@.well_formed() ==> final(self)@.well_formed(),
            r is Ok ==> {
                &&& final(self).user_open_orders.base_total() + held_base(final(remaining_accounts)@)
                    == old(self)@.claimed_record().base_total() + held_base(
                    old(remaining_accounts)@,
                ) + (if is_bid {
                    0
                } else {
                    r->Ok_0.deposit as int
                })
                &&& final(self).user_open_orders.quote_total() + held_quote(
                    final(remaining_accounts)@,
                ) == old(self)@.claimed_record().quote_total() + held_quote(
                    old(remaining_accounts)@,
                ) + (if is_bid {
                    r->Ok_0.deposit as int
                } else {
                    0
                })
            },
    {
        let mut record = if self.user_open_orders.owner.is_default() {
            OpenOrders::new(self.signer, self.market.key)
        } else {
            self.user_open_orders
        };
        if !(record.owner == self.signer && record.market == self.market.key) {
            return Err(ErrorCode::UnauthorizedAccess);
        }
        let order_id = self.market.next_order_id;
        let next_order_id = match order_id.checked_add(1) {
            Some(v) => v,
            None => {
                return Err(ErrorCode::MathOverflow);
            },
        };
        let deposit = if is_bid {
            match price.checked_mul(size) {
                Some(v) => v,
                None => {
                    return Err(ErrorCode::MathOverflow);
                },
            }
        } else {
            size
        };
        match record.lock(is_bid, deposit) {
            Ok(()) => {},
            Err(e) => {
                return Err(e);
            },
        }
        let ghost start = Matching {
            book: if is_bid {
                self.asks@
            } else {
                self.bids@
            },
            taker: record,
            makers: remaining_accounts@,
            remaining: size,
        };
        let matched = if is_bid {
            match_order(is_bid, price, size, &mut self.asks, &mut record, remaining_accounts)
        } else {
            match_order(is_bid, price, size, &mut self.bids, &mut record, remaining_accounts)
        };
        let remaining = match matched {
            Ok(v) => v,
            Err(e) => {
                return Err(e);
            },
        };
        let order = Order { order_id, owner: self.signer, price, size: remaining, timestamp: now };
        proof {
            let taken = matching_consumes_front(start, is_bid, price);
            let end = after_matching(start, is_bid, price)->Ok_0;
            rest_keeps_order(start.book, end.book, taken);
            if is_bid {
                with_order_keeps_ids(true, self.bids@, order);
            } else {
                with_order_keeps_ids(false, self.asks@, order);
            }
        }
        if remaining > 0 {
            if is_bid {
                self.bids.insert(true, order);
            } else {
                self.asks.insert(false, order);
            }
        }
        self.market.next_order_id = next_order_id;
        self.user_open_orders = record;
        Ok(Placement { order_id, deposit, resting: remaining })
    }
}

} // verus!
