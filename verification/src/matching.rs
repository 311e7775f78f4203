use vstd::prelude::*;
use crate::book::{distinct_ids, ids_apart, ids_below, in_priority_order, may_precede, OrderBook};
use crate::error::ErrorCode;
use crate::identity::Identity;
use crate::state::{OpenOrders, Order};

verus! {

/// What a run of the matching engine works on: the book opposite the incoming
/// order, the taker's record, the records supplied for the makers, and the
/// size that is still unfilled.
pub struct Matching {
    pub book: Seq<Order>,
    pub taker: OpenOrders,
    pub makers: Seq<OpenOrders>,
    pub remaining: u64,
}

/// Whether an incoming order with this limit trades against a resting order
/// at this price: a bid pays at least what the ask wants, an ask wants at most
/// what the bid pays.
pub open spec fn crosses(is_bid: bool, limit: u64, resting_price: u64) -> bool {
    if is_bid {
        limit >= resting_price
    } else {
        limit <= resting_price
    }
}

/// Whether `at` is the first position in `records` of a record of `owner` in
/// `market`.
pub open spec fn is_first_record(
    records: Seq<OpenOrders>,
    owner: Identity,
    market: Identity,
    at: int,
) -> bool {
    &&& 0 <= at < records.len()
    &&& records[at].belongs_to(owner, market)
    &&& forall|i: int| 0 <= i < at ==> !(#[trigger] records[i]).belongs_to(owner, market)
}

/// Whether `records` holds a record of `owner` in `market`.
pub open spec fn has_record(records: Seq<OpenOrders>, owner: Identity, market: Identity) -> bool {
    exists|i: int| 0 <= i < records.len() && (#[trigger] records[i]).belongs_to(owner, market)
}

/// The first position in `records` of a record of `owner` in `market`.
pub open spec fn record_index(records: Seq<OpenOrders>, owner: Identity, market: Identity) -> int {
    choose|at: int| is_first_record(records, owner, market, at)
}

/// The base asset held for all of `records` together.
pub open spec fn held_base(records: Seq<OpenOrders>) -> int
    decreases records.len(),
{
    if records.len() == 0 {
        0
    } else {
        held_base(records.drop_last()) + records.last().base_total()
    }
}

/// The quote asset held for all of `records` together.
pub open spec fn held_quote(records: Seq<OpenOrders>) -> int
    decreases records.len(),
{
    if records.len() == 0 {
        0
    } else {
        held_quote(records.drop_last()) + records.last().quote_total()
    }
}

/// How much of the resting order one fill takes: all that is wanted, or all
/// that rests.
pub open spec fn fill_size(remaining: u64, resting: Order) -> u64 {
    if remaining <= resting.size {
        remaining
    } else {
        resting.size
    }
}

/// The records after a fill of `size` for `value` against an order of
/// `resting_owner`.
///
/// The taker is on the incoming side, the maker on the other. A maker who is
/// the taker is booked on the taker's record. Any other maker must have a
/// record among `makers`; without one the fill is refused.
pub open spec fn parties_after_fill(
    taker: OpenOrders,
    makers: Seq<OpenOrders>,
    resting_owner: Identity,
    is_bid: bool,
    size: u64,
    value: u64,
) -> Result<(OpenOrders, Seq<OpenOrders>), ErrorCode> {
    if resting_owner == taker.owner {
        match taker.filled(is_bid, size, value) {
            Err(e) => Err(e),
            Ok(taken) => match taken.filled(!is_bid, size, value) {
                Err(e) => Err(e),
                Ok(both) => Ok((both, makers)),
            },
        }
    } else if !has_record(makers, resting_owner, taker.market) {
        Err(ErrorCode::UnauthorizedAccess)
    } else {
        let at = record_index(makers, resting_owner, taker.market);
        match taker.filled(is_bid, size, value) {
            Err(e) => Err(e),
            Ok(taken) => match makers[at].filled(!is_bid, size, value) {
                Err(e) => Err(e),
                Ok(made) => Ok((taken, makers.update(at, made))),
            },
        }
    }
}

/// The state after one fill against the best resting order.
///
/// The fill trades at the resting order's price. A resting order that is
/// filled whole leaves the book; otherwise it stays in front with what is left
/// of its size.
pub open spec fn after_fill(m: Matching, is_bid: bool) -> Result<Matching, ErrorCode>
    recommends
        m.book.len() > 0,
{
    let resting = m.book[0];
    let size = fill_size(m.remaining, resting);
    if resting.price * size > u64::MAX {
        Err(ErrorCode::MathOverflow)
    } else {
        match parties_after_fill(
            m.taker,
            m.makers,
            resting.owner,
            is_bid,
            size,
            (resting.price * size) as u64,
        ) {
            Err(e) => Err(e),
            Ok((taker, makers)) => Ok(
                Matching {
                    book: if size == resting.size {
                        m.book.remove(0)
                    } else {
                        m.book.update(0, Order { size: (resting.size - size) as u64, ..resting })
                    },
                    taker,
                    makers,
                    remaining: (m.remaining - size) as u64,
                },
            ),
        }
    }
}

/// Whether matching has nothing more to do: nothing is left to fill, nothing
/// rests, or the best resting order does not cross the limit.
pub open spec fn is_done(m: Matching, is_bid: bool, price: u64) -> bool {
    m.remaining == 0 || m.book.len() == 0 || !crosses(is_bid, price, m.book[0].price)
}

/// The state after matching: fills against the best resting order, one after
/// the other, until matching is done. The first fill that is refused refuses
/// the whole run.
pub open spec fn after_matching(m: Matching, is_bid: bool, price: u64) -> Result<
    Matching,
    ErrorCode,
>
    decreases m.book.len(),
{
    if is_done(m, is_bid, price) {
        Ok(m)
    } else {
        match after_fill(m, is_bid) {
            Err(e) => Err(e),
            Ok(next) => if next.book.len() < m.book.len() {
                after_matching(next, is_bid, price)
            } else {
                Ok(next)
            },
        }
    }
}

/// A record that is among `records` has exactly one first position.
pub proof fn record_index_exists(records: Seq<OpenOrders>, owner: Identity, market: Identity)
    requires
        has_record(records, owner, market),
    ensures
        is_first_record(records, owner, market, record_index(records, owner, market)),
        forall|at: int|
            is_first_record(records, owner, market, at) ==> at == record_index(
                records,
                owner,
                market,
            ),
{
    let some = choose|i: int|
        0 <= i < records.len() && (#[trigger] records[i]).belongs_to(owner, market);
    first_record_upto(records, owner, market, some);
    assert forall|a: int, b: int|
        is_first_record(records, owner, market, a) && is_first_record(
            records,
            owner,
            market,
            b,
        ) implies a == b by {
        if a < b {
            assert(records[a].belongs_to(owner, market));
        } else if b < a {
            assert(records[b].belongs_to(owner, market));
        }
    }
}

proof fn first_record_upto(records: Seq<OpenOrders>, owner: Identity, market: Identity, upto: int)
    requires
        0 <= upto < records.len(),
        records[upto].belongs_to(owner, market),
    ensures
        exists|at: int| is_first_record(records, owner, market, at),
    decreases upto,
{
    if exists|i: int| 0 <= i < upto && (#[trigger] records[i]).belongs_to(owner, market) {
        let earlier = choose|i: int|
            0 <= i < upto && (#[trigger] records[i]).belongs_to(owner, market);
        first_record_upto(records, owner, market, earlier);
    } else {
        assert(is_first_record(records, owner, market, upto));
    }
}

/// Replacing one record changes what is held by the difference of the two.
pub proof fn held_after_update(records: Seq<OpenOrders>, at: int, record: OpenOrders)
    requires
        0 <= at < records.len(),
    ensures
        held_base(records.update(at, record)) == held_base(records) - records[at].base_total()
            + record.base_total(),
        held_quote(records.update(at, record)) == held_quote(records) - records[at].quote_total()
            + record.quote_total(),
    decreases records.len(),
{
    let next = records.update(at, record);
    if at == records.len() - 1 {
        assert(next.drop_last() =~= records.drop_last());
    } else {
        held_after_update(records.drop_last(), at, record);
        assert(next.drop_last() =~= records.drop_last().update(at, record));
    }
}

/// A fill moves value between the two parties and neither makes nor loses any.
pub proof fn fill_conserves(
    taker: OpenOrders,
    makers: Seq<OpenOrders>,
    resting_owner: Identity,
    is_bid: bool,
    size: u64,
    value: u64,
)
    requires
        parties_after_fill(taker, makers, resting_owner, is_bid, size, value) is Ok,
    ensures
        ({
            let (taker_after, makers_after) = parties_after_fill(
                taker,
                makers,
                resting_owner,
                is_bid,
                size,
                value,
            )->Ok_0;
            &&& taker_after.base_total() + held_base(makers_after) == taker.base_total()
                + held_base(makers)
            &&& taker_after.quote_total() + held_quote(makers_after) == taker.quote_total()
                + held_quote(makers)
            &&& taker_after.owner == taker.owner
            &&& taker_after.market == taker.market
            &&& makers_after.len() == makers.len()
        }),
{
    if resting_owner != taker.owner {
        record_index_exists(makers, resting_owner, taker.market);
        let at = record_index(makers, resting_owner, taker.market);
        let made = makers[at].filled(!is_bid, size, value)->Ok_0;
        held_after_update(makers, at, made);
    }
}

/// Matching neither makes nor loses value: what is held for the taker and the
/// makers together, of each asset, is the same after as before.
pub proof fn matching_conserves(m: Matching, is_bid: bool, price: u64)
    requires
        after_matching(m, is_bid, price) is Ok,
    ensures
        ({
            let end = after_matching(m, is_bid, price)->Ok_0;
            &&& end.taker.base_total() + held_base(end.makers) == m.taker.base_total() + held_base(
                m.makers,
            )
            &&& end.taker.quote_total() + held_quote(end.makers) == m.taker.quote_total()
                + held_quote(m.makers)
            &&& end.taker.owner == m.taker.owner
            &&& end.taker.market == m.taker.market
            &&& end.makers.len() == m.makers.len()
        }),
    decreases m.book.len(),
{
    if !is_done(m, is_bid, price) {
        let resting = m.book[0];
        let size = fill_size(m.remaining, resting);
        fill_conserves(
            m.taker,
            m.makers,
            resting.owner,
            is_bid,
            size,
            (resting.price * size) as u64,
        );
        let next = after_fill(m, is_bid)->Ok_0;
        if next.book.len() < m.book.len() {
            matching_conserves(next, is_bid, price);
        }
    }
}

/// Matching never takes a locked balance below zero: when the taker has locked
/// less than the next fill costs it, the whole run is refused with
/// `InsufficientFunds`.
pub proof fn fill_beyond_locked_is_refused(m: Matching, is_bid: bool, price: u64)
    requires
        !is_done(m, is_bid, price),
        m.book[0].price * fill_size(m.remaining, m.book[0]) <= u64::MAX,
        m.book[0].owner == m.taker.owner || has_record(m.makers, m.book[0].owner, m.taker.market),
        is_bid ==> m.taker.quote_locked < m.book[0].price * fill_size(m.remaining, m.book[0]),
        !is_bid ==> m.taker.base_locked < fill_size(m.remaining, m.book[0]),
    ensures
        after_matching(m, is_bid, price) == Err::<Matching, ErrorCode>(
            ErrorCode::InsufficientFunds,
        ),
{
}

/// Whether `after` is what matching can leave of the book `before`: the orders
/// from `taken` on, the first of them possibly with less size.
pub open spec fn is_rest_of(before: Seq<Order>, after: Seq<Order>, taken: int) -> bool {
    &&& 0 <= taken <= before.len()
    &&& after.len() == before.len() - taken
    &&& forall|i: int| 1 <= i < after.len() ==> #[trigger] after[i] == before[taken + i]
    &&& after.len() > 0 ==> {
        &&& after[0].order_id == before[taken].order_id
        &&& after[0].owner == before[taken].owner
        &&& after[0].price == before[taken].price
        &&& after[0].timestamp == before[taken].timestamp
        &&& after[0].size <= before[taken].size
    }
}

/// Matching consumes the book from the front: it takes the best orders whole,
/// at most shrinks the one behind them, and touches none further back. So an
/// order is never reached before all that stand ahead of it are gone.
pub proof fn matching_consumes_front(m: Matching, is_bid: bool, price: u64) -> (taken: int)
    requires
        after_matching(m, is_bid, price) is Ok,
    ensures
        is_rest_of(m.book, after_matching(m, is_bid, price)->Ok_0.book, taken),
        after_matching(m, is_bid, price)->Ok_0.remaining <= m.remaining,
        forall|i: int| 0 <= i < taken ==> crosses(is_bid, price, (#[trigger] m.book[i]).price),
    decreases m.book.len(),
{
    if is_done(m, is_bid, price) {
        0
    } else {
        let next = after_fill(m, is_bid)->Ok_0;
        if next.book.len() < m.book.len() {
            let further = matching_consumes_front(next, is_bid, price);
            let end = after_matching(m, is_bid, price)->Ok_0;
            assert forall|i: int| 1 <= i < end.book.len() implies #[trigger] end.book[i]
                == m.book[further + 1 + i] by {
                assert(end.book[i] == next.book[further + i]);
            }
            assert forall|i: int| 0 <= i < further + 1 implies crosses(
                is_bid,
                price,
                (#[trigger] m.book[i]).price,
            ) by {
                if i > 0 {
                    assert(m.book[i] == next.book[i - 1]);
                }
            }
            further + 1
        } else {
            0
        }
    }
}

/// What matching leaves of a book in priority order is in priority order, and
/// its ids are still distinct and below any bound they were below.
pub proof fn rest_keeps_order(before: Seq<Order>, after: Seq<Order>, taken: int)
    requires
        is_rest_of(before, after, taken),
    ensures
        forall|side: bool| in_priority_order(side, before) ==> in_priority_order(side, after),
        distinct_ids(before) ==> distinct_ids(after),
        forall|bound: u128| ids_below(before, bound) ==> ids_below(after, bound),
        forall|other: Seq<Order>| ids_apart(other, before) ==> ids_apart(other, after),
{
    assert forall|other: Seq<Order>| ids_apart(other, before) implies ids_apart(other, after) by {
        assert forall|i: int, j: int| 0 <= i < other.len() && 0 <= j < after.len() implies
            (#[trigger] other[i]).order_id != (#[trigger] after[j]).order_id by {
            assert(other[i].order_id != before[taken + j].order_id);
        }
    }
    assert forall|side: bool| in_priority_order(side, before) implies in_priority_order(
        side,
        after,
    ) by {
        assert forall|i: int, j: int| 0 <= i < j < after.len() implies may_precede(
            side,
            #[trigger] after[i],
            #[trigger] after[j],
        ) by {
            assert(may_precede(side, before[taken + i], before[taken + j]));
        }
    }
    if distinct_ids(before) {
        assert forall|i: int, j: int| 0 <= i < j < after.len() implies (#[trigger] after[i]).order_id
            != (#[trigger] after[j]).order_id by {
            assert(before[taken + i].order_id != before[taken + j].order_id);
        }
    }
    assert forall|bound: u128| ids_below(before, bound) implies ids_below(after, bound) by {
        assert forall|i: int| 0 <= i < after.len() implies (#[trigger] after[i]).order_id
            < bound by {
            assert(before[taken + i].order_id < bound);
        }
    }
}

/// The first position in `records` of a record of `owner` in `market`.
pub fn find_record(records: &Vec<OpenOrders>, owner: Identity, market: Identity) -> (found: Option<
    usize,
>)
    ensures
        match found {
            Some(at) => is_first_record(records@, owner, market, at as int) && at == record_index(
                records@,
                owner,
                market,
            ),
            None => !has_record(records@, owner, market),
        },
{
    let mut at: usize = 0;
    while at < records.len()
        invariant
            at <= records@.len(),
            forall|i: int| 0 <= i < at ==> !(#[trigger] records@[i]).belongs_to(owner, market),
        decreases records@.len() - at,
    {
        if records[at].owner == owner && records[at].market == market {
            proof {
                assert(records@[at as int].belongs_to(owner, market));
                record_index_exists(records@, owner, market);
            }
            return Some(at);
        }
        at += 1;
    }
    None
}

/// Runs the matching engine for an incoming order of `size` at limit `price`.
///
/// `book` is the side opposite the incoming order, `taker` the record of the
/// one who places it. `makers` holds the records of the owners of the resting
/// orders that may be hit; a fill against an order whose owner has no record
/// there is refused with `UnauthorizedAccess`, and nothing is skipped.
///
/// Returns the size left unfilled. When any fill is refused, the whole run is
/// refused and book and records are as they were.
pub fn match_order(
    is_bid: bool,
    price: u64,
    size: u64,
    book: &mut OrderBook,
    taker: &mut OpenOrders,
    makers: &mut Vec<OpenOrders>,
) -> (r: Result<u64, ErrorCode>)
    ensures
        match after_matching(
            Matching { book: old(book)@, taker: *old(taker), makers: old(makers)@, remaining: size },
            is_bid,
            price,
        ) {
            Ok(end) => {
                &&& r == Ok::<u64, ErrorCode>(end.remaining)
                &&& final(book)@ == end.book
                &&& *final(taker) == end.taker
                &&& final(makers)@ == end.makers
                &&& is_done(end, is_bid, price)
            },
            Err(e) => {
                &&& r == Err::<u64, ErrorCode>(e)
                &&& final(book)@ == old(book)@
                &&& *final(taker) == *old(taker)
                &&& final(makers)@ == old(makers)@
            },
        },
        r is Ok ==> {
            &&& final(taker).base_total() + held_base(final(makers)@) == old(taker).base_total()
                + held_base(old(makers)@)
            &&& final(taker).quote_total() + held_quote(final(makers)@) == old(taker).quote_total()
                + held_quote(old(makers)@)
            &&& forall|side: bool|
                in_priority_order(side, old(book)@) ==> in_priority_order(side, final(book)@)
        },
{
    let ghost start = Matching {
        book: book@,
        taker: *taker,
        makers: makers@,
        remaining: size,
    };
    let mut resting_orders = book.orders.clone();
    let mut taker_now = *taker;
    let mut makers_now = makers.clone();
    let mut remaining = size;
    assert(resting_orders@ =~= book@);
    assert(makers_now@ =~= makers@);
    loop
        invariant
            after_matching(
                Matching {
                    book: resting_orders@,
                    taker: taker_now,
                    makers: makers_now@,
                    remaining,
                },
                is_bid,
                price,
            ) == after_matching(start, is_bid, price),
            start == (Matching {
                book: old(book)@,
                taker: *old(taker),
                makers: old(makers)@,
                remaining: size,
            }),
            book@ == start.book,
            *taker == start.taker,
            makers@ == start.makers,
        ensures
            after_matching(start, is_bid, price) == Ok::<Matching, ErrorCode>(
                Matching {
                    book: resting_orders@,
                    taker: taker_now,
                    makers: makers_now@,
                    remaining,
                },
            ),
            is_done(
                Matching {
                    book: resting_orders@,
                    taker: taker_now,
                    makers: makers_now@,
                    remaining,
                },
                is_bid,
                price,
            ),
        decreases resting_orders@.len() + (if remaining > 0 { 1int } else { 0int }),
    {
        let ghost now = Matching {
            book: resting_orders@,
            taker: taker_now,
            makers: makers_now@,
            remaining,
        };
        if remaining == 0 || resting_orders.len() == 0 {
            break;
        }
        let resting = resting_orders[0];
        let marketable = if is_bid { price >= resting.price } else { price <= resting.price };
        if !marketable {
            break;
        }
        let fill = if remaining <= resting.size { remaining } else { resting.size };
        let value = match resting.price.checked_mul(fill) {
            Some(v) => v,
            None => {
                return Err(ErrorCode::MathOverflow);
            },
        };
        if resting.owner == taker_now.owner {
            match taker_now.fill(is_bid, fill, value) {
                Ok(()) => {},
                Err(e) => {
                    return Err(e);
                },
            }
            match taker_now.fill(!is_bid, fill, value) {
                Ok(()) => {},
                Err(e) => {
                    return Err(e);
                },
            }
        } else {
            let at = match find_record(&makers_now, resting.owner, taker_now.market) {
                Some(at) => at,
                None => {
                    return Err(ErrorCode::UnauthorizedAccess);
                },
            };
            match taker_now.fill(is_bid, fill, value) {
                Ok(()) => {},
                Err(e) => {
                    return Err(e);
                },
            }
            let mut maker = makers_now[at];
            match maker.fill(!is_bid, fill, value) {
                Ok(()) => {},
                Err(e) => {
                    return Err(e);
                },
            }
            makers_now[at] = maker;
        }
        if fill == resting.size {
            resting_orders.remove(0);
        } else {
            resting_orders[0] = Order { size: resting.size - fill, ..resting };
        }
        remaining = remaining - fill;
        proof {
            let next = Matching {
                book: resting_orders@,
                taker: taker_now,
                makers: makers_now@,
                remaining,
            };
            assert(after_fill(now, is_bid) == Ok::<Matching, ErrorCode>(next));
        }
    }
    proof {
        matching_conserves(start, is_bid, price);
        let taken = matching_consumes_front(start, is_bid, price);
        rest_keeps_order(start.book, resting_orders@, taken);
    }
    book.orders = resting_orders;
    *taker = taker_now;
    *makers = makers_now;
    Ok(remaining)
}

} // verus!
