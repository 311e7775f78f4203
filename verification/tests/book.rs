use rapid_flow::{Identity, Order, OrderBook};

fn who(tag: u8) -> Identity {
    Identity { bytes: [tag; 32] }
}

fn order(order_id: u128, owner: u8, price: u64, size: u64, timestamp: i64) -> Order {
    Order { order_id, owner: who(owner), price, size, timestamp }
}

fn prices_and_times(book: &OrderBook) -> Vec<(u64, i64)> {
    book.orders.iter().map(|o| (o.price, o.timestamp)).collect()
}

#[test]
fn identity_default_is_all_zero() {
    let unset = Identity::default();
    assert_eq!(unset.bytes, [0u8; 32]);
    assert!(unset.is_default());
    assert!(!who(1).is_default());
    let mut almost = Identity::default();
    almost.bytes[31] = 1;
    assert!(!almost.is_default());
}

#[test]
fn identity_equality_compares_every_byte() {
    assert_eq!(who(7), who(7));
    assert_ne!(who(7), who(8));
    let mut other = who(7);
    other.bytes[31] = 0;
    assert_ne!(who(7), other);
    let mut first = who(7);
    first.bytes[0] = 0;
    assert_ne!(who(7), first);
}

#[test]
fn new_book_is_empty() {
    let book = OrderBook::new();
    assert_eq!(book.len(), 0);
    assert_eq!(book.front(), None);
}

#[test]
fn bids_are_kept_by_descending_price() {
    let mut book = OrderBook::new();
    assert_eq!(book.insert(true, order(1, 1, 10, 5, 1)), 0);
    assert_eq!(book.insert(true, order(2, 1, 12, 5, 2)), 0);
    assert_eq!(book.insert(true, order(3, 1, 8, 5, 3)), 2);
    assert_eq!(book.insert(true, order(4, 1, 11, 5, 4)), 1);
    assert_eq!(prices_and_times(&book), vec![(12, 2), (11, 4), (10, 1), (8, 3)]);
    assert_eq!(book.front(), Some(order(2, 1, 12, 5, 2)));
}

#[test]
fn asks_are_kept_by_ascending_price() {
    let mut book = OrderBook::new();
    assert_eq!(book.insert(false, order(1, 1, 10, 5, 1)), 0);
    assert_eq!(book.insert(false, order(2, 1, 12, 5, 2)), 1);
    assert_eq!(book.insert(false, order(3, 1, 8, 5, 3)), 0);
    assert_eq!(book.insert(false, order(4, 1, 11, 5, 4)), 2);
    assert_eq!(prices_and_times(&book), vec![(8, 3), (10, 1), (11, 4), (12, 2)]);
    assert_eq!(book.front(), Some(order(3, 1, 8, 5, 3)));
}

#[test]
fn equal_prices_are_kept_by_ascending_time() {
    let mut book = OrderBook::new();
    book.insert(true, order(1, 1, 10, 5, 20));
    // Later order at the same price: behind.
    assert_eq!(book.insert(true, order(2, 2, 10, 5, 30)), 1);
    // Earlier order at the same price: in front.
    assert_eq!(book.insert(true, order(3, 3, 10, 5, 10)), 0);
    // Same price and time as a resting order: behind it.
    assert_eq!(book.insert(true, order(4, 4, 10, 5, 20)), 2);
    let ids: Vec<u128> = book.orders.iter().map(|o| o.order_id).collect();
    assert_eq!(ids, vec![3, 1, 4, 2]);

    let mut asks = OrderBook::new();
    asks.insert(false, order(1, 1, 10, 5, 20));
    assert_eq!(asks.insert(false, order(2, 2, 10, 5, 30)), 1);
    assert_eq!(asks.insert(false, order(3, 3, 10, 5, 10)), 0);
    assert_eq!(asks.insert(false, order(4, 4, 10, 5, -5)), 0);
    let ids: Vec<u128> = asks.orders.iter().map(|o| o.order_id).collect();
    assert_eq!(ids, vec![4, 3, 1, 2]);
}

#[test]
fn sort_order_holds_for_every_adjacent_pair() {
    let mut bids = OrderBook::new();
    let mut asks = OrderBook::new();
    let entries: [(u64, i64); 9] =
        [(10, 5), (12, 1), (10, 2), (9, 9), (12, 0), (10, 5), (11, 7), (9, 3), (10, 1)];
    for (n, (price, time)) in entries.iter().enumerate() {
        bids.insert(true, order(n as u128, 1, *price, 1, *time));
        asks.insert(false, order(n as u128, 1, *price, 1, *time));
    }
    assert_eq!(bids.len(), 9);
    assert_eq!(asks.len(), 9);
    for pair in bids.orders.windows(2) {
        assert!(pair[0].price >= pair[1].price);
        if pair[0].price == pair[1].price {
            assert!(pair[0].timestamp <= pair[1].timestamp);
        }
    }
    for pair in asks.orders.windows(2) {
        assert!(pair[0].price <= pair[1].price);
        if pair[0].price == pair[1].price {
            assert!(pair[0].timestamp <= pair[1].timestamp);
        }
    }
    assert_eq!(
        prices_and_times(&bids),
        vec![(12, 0), (12, 1), (11, 7), (10, 1), (10, 2), (10, 5), (10, 5), (9, 3), (9, 9)]
    );
    assert_eq!(
        prices_and_times(&asks),
        vec![(9, 3), (9, 9), (10, 1), (10, 2), (10, 5), (10, 5), (11, 7), (12, 0), (12, 1)]
    );
}

#[test]
fn remove_at_returns_the_order_and_closes_the_gap() {
    let mut book = OrderBook::new();
    book.insert(false, order(1, 1, 10, 5, 1));
    book.insert(false, order(2, 1, 11, 6, 2));
    book.insert(false, order(3, 1, 12, 7, 3));
    assert_eq!(book.remove_at(1), order(2, 1, 11, 6, 2));
    assert_eq!(book.orders, vec![order(1, 1, 10, 5, 1), order(3, 1, 12, 7, 3)]);
    assert_eq!(book.remove_at(0), order(1, 1, 10, 5, 1));
    assert_eq!(book.remove_at(0), order(3, 1, 12, 7, 3));
    assert_eq!(book.len(), 0);
}

#[test]
fn find_returns_the_first_match_from_the_front() {
    let mut book = OrderBook::new();
    book.insert(false, order(1, 1, 10, 5, 1));
    book.insert(false, order(2, 2, 11, 6, 2));
    book.insert(false, order(3, 2, 12, 7, 3));
    assert_eq!(book.find(|o: &Order| o.owner == who(2)), Some(1));
    assert_eq!(book.find(|o: &Order| o.size > 6), Some(2));
    assert_eq!(book.find(|o: &Order| o.price >= 10), Some(0));
    assert_eq!(book.find(|o: &Order| o.price > 12), None);
    assert_eq!(OrderBook::new().find(|_o: &Order| true), None);
}

#[test]
fn position_of_needs_both_id_and_owner() {
    let mut book = OrderBook::new();
    book.insert(true, order(1, 1, 10, 5, 1));
    book.insert(true, order(2, 2, 9, 6, 2));
    book.insert(true, order(2, 3, 8, 6, 3));
    assert_eq!(book.position_of(1, who(1)), Some(0));
    assert_eq!(book.position_of(2, who(2)), Some(1));
    assert_eq!(book.position_of(2, who(3)), Some(2));
    assert_eq!(book.position_of(1, who(2)), None);
    assert_eq!(book.position_of(3, who(1)), None);
}
