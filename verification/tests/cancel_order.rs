use rapid_flow::{CancelOrder, ErrorCode, Identity, OpenOrders, Order, OrderBook};

fn member(tag: u8) -> Identity {
    Identity { bytes: [tag; 32] }
}

fn ledger(owner: u8, base_free: u64, base_locked: u64, quote_free: u64, quote_locked: u64) -> OpenOrders {
    OpenOrders { owner: member(owner), market: member(200), base_free, base_locked, quote_free, quote_locked }
}

fn live(order_id: u128, owner: u8, price: u64, size: u64, timestamp: i64) -> Order {
    Order { order_id, owner: member(owner), price, size, timestamp }
}

fn request(signer: u8, bids: Vec<Order>, asks: Vec<Order>, record: OpenOrders) -> CancelOrder {
    CancelOrder {
        signer: member(signer),
        bids: OrderBook { orders: bids },
        asks: OrderBook { orders: asks },
        open_orders: record,
    }
}

#[test]
fn cancelled_bid_refunds_price_times_size() {
    let bids = vec![live(1, 2, 12, 5, 1), live(2, 1, 10, 40, 2), live(3, 2, 9, 5, 3)];
    let mut ctx = request(1, bids, vec![live(4, 1, 20, 7, 4)], ledger(1, 1, 7, 3, 450));
    assert_eq!(ctx.cancel_order(2, true), Ok(400));
    assert_eq!(ctx.bids.orders, vec![live(1, 2, 12, 5, 1), live(3, 2, 9, 5, 3)]);
    assert_eq!(ctx.asks.orders, vec![live(4, 1, 20, 7, 4)]);
    assert_eq!(ctx.open_orders, ledger(1, 1, 7, 3, 50));
}

#[test]
fn cancelled_ask_refunds_its_size() {
    let asks = vec![live(4, 1, 20, 7, 4), live(5, 2, 21, 7, 5)];
    let mut ctx = request(1, vec![live(2, 1, 10, 40, 2)], asks, ledger(1, 1, 7, 3, 400));
    assert_eq!(ctx.cancel_order(4, false), Ok(7));
    assert_eq!(ctx.asks.orders, vec![live(5, 2, 21, 7, 5)]);
    assert_eq!(ctx.bids.orders, vec![live(2, 1, 10, 40, 2)]);
    assert_eq!(ctx.open_orders, ledger(1, 1, 0, 3, 400));
}

#[test]
fn cancel_twice_fails_the_second_time() {
    let mut ctx = request(1, vec![live(2, 1, 10, 40, 2)], vec![], ledger(1, 0, 0, 0, 400));
    assert_eq!(ctx.cancel_order(2, true), Ok(400));
    let after_first = ctx.clone();
    assert_eq!(ctx.cancel_order(2, true), Err(ErrorCode::OrderNotFound));
    assert_eq!(ctx, after_first);
    assert_eq!(ctx.open_orders, ledger(1, 0, 0, 0, 0));
}

#[test]
fn cancel_of_someone_elses_order_is_order_not_found() {
    let mut ctx = request(1, vec![live(2, 2, 10, 40, 2)], vec![], ledger(1, 5, 6, 7, 400));
    let before = ctx.clone();
    assert_eq!(ctx.cancel_order(2, true), Err(ErrorCode::OrderNotFound));
    assert_eq!(ctx, before);
    // The same answer as for an id that does not rest at all.
    assert_eq!(ctx.cancel_order(3, true), Err(ErrorCode::OrderNotFound));
    assert_eq!(ctx, before);
}

#[test]
fn cancel_looks_only_at_the_side_it_is_given() {
    let mut ctx = request(1, vec![live(2, 1, 10, 40, 2)], vec![], ledger(1, 0, 50, 0, 400));
    let before = ctx.clone();
    assert_eq!(ctx.cancel_order(2, false), Err(ErrorCode::OrderNotFound));
    assert_eq!(ctx, before);
}

#[test]
fn cancel_with_a_record_of_someone_else_is_unauthorized() {
    let mut ctx = request(1, vec![live(2, 1, 10, 40, 2)], vec![], ledger(2, 0, 0, 0, 400));
    let before = ctx.clone();
    assert_eq!(ctx.cancel_order(2, true), Err(ErrorCode::UnauthorizedAccess));
    assert_eq!(ctx, before);
}

#[test]
fn refund_above_the_locked_balance_is_insufficient_funds() {
    let mut ctx = request(1, vec![live(2, 1, 10, 40, 2)], vec![], ledger(1, 5, 6, 7, 399));
    let before = ctx.clone();
    assert_eq!(ctx.cancel_order(2, true), Err(ErrorCode::InsufficientFunds));
    assert_eq!(ctx, before);
    let mut ctx = request(1, vec![], vec![live(2, 1, 10, 40, 2)], ledger(1, 5, 39, 7, 400));
    let before = ctx.clone();
    assert_eq!(ctx.cancel_order(2, false), Err(ErrorCode::InsufficientFunds));
    assert_eq!(ctx, before);
}

#[test]
fn refund_that_does_not_fit_is_math_overflow() {
    let mut ctx = request(1, vec![live(2, 1, u64::MAX, 2, 2)], vec![], ledger(1, 0, 0, 0, u64::MAX));
    let before = ctx.clone();
    assert_eq!(ctx.cancel_order(2, true), Err(ErrorCode::MathOverflow));
    assert_eq!(ctx, before);
}

#[test]
fn cancel_takes_the_callers_order_when_ids_coincide_across_owners() {
    let bids = vec![live(2, 2, 12, 5, 1), live(2, 1, 10, 40, 2)];
    let mut ctx = request(1, bids, vec![], ledger(1, 0, 0, 0, 400));
    assert_eq!(ctx.cancel_order(2, true), Ok(400));
    assert_eq!(ctx.bids.orders, vec![live(2, 2, 12, 5, 1)]);
}
