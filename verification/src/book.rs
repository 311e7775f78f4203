use vstd::prelude::*;
use crate::identity::Identity;
use crate::state::Order;

verus! {

/// One side of a market's book: the resting orders, best first.
#[derive(Clone, Debug, PartialEq, Eq)]
pub struct OrderBook {
    pub orders: Vec<Order>,
}

impl View for OrderBook {
    type V = Seq<Order>;

    open spec fn view(&self) -> Seq<Order> {
        self.orders@
    }
}

/// Whether `first` may stand before `second` in a book.
///
/// The better price goes first: the higher among bids, the lower among asks.
/// At one price the earlier order goes first.
pub open spec fn may_precede(is_bid: bool, first: Order, second: Order) -> bool {
    if first.price == second.price {
        first.timestamp <= second.timestamp
    } else if is_bid {
        first.price > second.price
    } else {
        first.price < second.price
    }
}

/// Price-time priority: every order may stand before every later one.
pub open spec fn in_priority_order(is_bid: bool, orders: Seq<Order>) -> bool {
    forall|i: int, j: int|
        0 <= i < j < orders.len() ==> may_precede(is_bid, #[trigger] orders[i], #[trigger] orders[j])
}

/// Whether `at` is where `order` enters `orders`: behind every order that may
/// stand before it, and so at the first one that may not, or at the end.
pub open spec fn is_entry_point(is_bid: bool, orders: Seq<Order>, order: Order, at: int) -> bool {
    &&& 0 <= at <= orders.len()
    &&& forall|i: int| 0 <= i < at ==> may_precede(is_bid, #[trigger] orders[i], order)
    &&& at < orders.len() ==> !may_precede(is_bid, orders[at], order)
}

/// The place where `order` enters `orders`.
pub open spec fn entry_point(is_bid: bool, orders: Seq<Order>, order: Order) -> int {
    choose|at: int| is_entry_point(is_bid, orders, order, at)
}

/// `orders` with `order` placed at its entry point.
pub open spec fn with_order(is_bid: bool, orders: Seq<Order>, order: Order) -> Seq<Order> {
    orders.insert(entry_point(is_bid, orders, order), order)
}

/// Whether `at` is the first position in `orders` of an order with this id
/// and owner.
pub open spec fn is_first_with_key(orders: Seq<Order>, order_id: u128, owner: Identity, at: int) -> bool {
    &&& 0 <= at < orders.len()
    &&& orders[at].order_id == order_id
    &&& orders[at].owner == owner
    &&& forall|i: int|
        0 <= i < at ==> !((#[trigger] orders[i]).order_id == order_id && orders[i].owner == owner)
}

/// Whether some order in `orders` has this id and owner.
pub open spec fn has_key(orders: Seq<Order>, order_id: u128, owner: Identity) -> bool {
    exists|i: int|
        0 <= i < orders.len() && (#[trigger] orders[i]).order_id == order_id && orders[i].owner
            == owner
}

/// The first position in `orders` of an order with this id and owner.
pub open spec fn key_index(orders: Seq<Order>, order_id: u128, owner: Identity) -> int {
    choose|at: int| is_first_with_key(orders, order_id, owner, at)
}

/// No two orders share an id.
pub open spec fn distinct_ids(orders: Seq<Order>) -> bool {
    forall|i: int, j: int|
        0 <= i < j < orders.len() ==> (#[trigger] orders[i]).order_id != (#[trigger] orders[j]).order_id
}

/// Every id is below `bound`.
pub open spec fn ids_below(orders: Seq<Order>, bound: u128) -> bool {
    forall|i: int| 0 <= i < orders.len() ==> (#[trigger] orders[i]).order_id < bound
}

/// No id occurs in both.
pub open spec fn ids_apart(one: Seq<Order>, other: Seq<Order>) -> bool {
    forall|i: int, j: int|
        0 <= i < one.len() && 0 <= j < other.len() ==> (#[trigger] one[i]).order_id
            != (#[trigger] other[j]).order_id
}

/// What holds of the two sides of a market's book between operations: each is
/// in priority order, no id rests twice, and every id is below `next_order_id`,
/// the id that the next order receives.
pub open spec fn books_well_formed(bids: Seq<Order>, asks: Seq<Order>, next_order_id: u128) -> bool {
    &&& in_priority_order(true, bids)
    &&& in_priority_order(false, asks)
    &&& distinct_ids(bids)
    &&& distinct_ids(asks)
    &&& ids_apart(bids, asks)
    &&& ids_below(bids, next_order_id)
    &&& ids_below(asks, next_order_id)
}

/// Taking an order out brings no id in: what held of the ids still holds.
pub proof fn removal_keeps_ids(orders: Seq<Order>, at: int)
    requires
        0 <= at < orders.len(),
    ensures
        distinct_ids(orders) ==> distinct_ids(orders.remove(at)),
        forall|bound: u128| ids_below(orders, bound) ==> ids_below(orders.remove(at), bound),
        forall|other: Seq<Order>| ids_apart(orders, other) ==> ids_apart(orders.remove(at), other),
        forall|other: Seq<Order>| ids_apart(other, orders) ==> ids_apart(other, orders.remove(at)),
{
    let next = orders.remove(at);
    assert forall|i: int| 0 <= i < next.len() implies #[trigger] next[i] == orders[if i < at {
        i
    } else {
        i + 1
    }] by {}
    if distinct_ids(orders) {
        assert forall|i: int, j: int| 0 <= i < j < next.len() implies (#[trigger] next[i]).order_id
            != (#[trigger] next[j]).order_id by {
            let a = if i < at { i } else { i + 1 };
            let b = if j < at { j } else { j + 1 };
            assert(orders[a].order_id != orders[b].order_id);
        }
    }
    assert forall|bound: u128| ids_below(orders, bound) implies ids_below(next, bound) by {
        assert forall|i: int| 0 <= i < next.len() implies (#[trigger] next[i]).order_id
            < bound by {
            let a = if i < at { i } else { i + 1 };
            assert(orders[a].order_id < bound);
        }
    }
    assert forall|other: Seq<Order>| ids_apart(orders, other) implies ids_apart(next, other) by {
        assert forall|i: int, j: int| 0 <= i < next.len() && 0 <= j < other.len() implies
            (#[trigger] next[i]).order_id != (#[trigger] other[j]).order_id by {
            let a = if i < at { i } else { i + 1 };
            assert(orders[a].order_id != other[j].order_id);
        }
    }
    assert forall|other: Seq<Order>| ids_apart(other, orders) implies ids_apart(other, next) by {
        assert forall|i: int, j: int| 0 <= i < other.len() && 0 <= j < next.len() implies
            (#[trigger] other[i]).order_id != (#[trigger] next[j]).order_id by {
            let b = if j < at { j } else { j + 1 };
            assert(other[i].order_id != orders[b].order_id);
        }
    }
}

/// An order that is in `orders` has exactly one first position.
pub proof fn key_index_exists(orders: Seq<Order>, order_id: u128, owner: Identity)
    requires
        has_key(orders, order_id, owner),
    ensures
        is_first_with_key(orders, order_id, owner, key_index(orders, order_id, owner)),
        forall|at: int|
            is_first_with_key(orders, order_id, owner, at) ==> at == key_index(
                orders,
                order_id,
                owner,
            ),
{
    let some = choose|i: int|
        0 <= i < orders.len() && (#[trigger] orders[i]).order_id == order_id && orders[i].owner
            == owner;
    first_with_key_upto(orders, order_id, owner, some);
    assert forall|a: int, b: int|
        is_first_with_key(orders, order_id, owner, a) && is_first_with_key(
            orders,
            order_id,
            owner,
            b,
        ) implies a == b by {
        if a < b {
            assert(orders[a].order_id == order_id && orders[a].owner == owner);
        } else if b < a {
            assert(orders[b].order_id == order_id && orders[b].owner == owner);
        }
    }
}

proof fn first_with_key_upto(orders: Seq<Order>, order_id: u128, owner: Identity, upto: int)
    requires
        0 <= upto < orders.len(),
        orders[upto].order_id == order_id,
        orders[upto].owner == owner,
    ensures
        exists|at: int| is_first_with_key(orders, order_id, owner, at),
    decreases upto,
{
    if exists|i: int|
        0 <= i < upto && (#[trigger] orders[i]).order_id == order_id && orders[i].owner == owner {
        let earlier = choose|i: int|
            0 <= i < upto && (#[trigger] orders[i]).order_id == order_id && orders[i].owner
                == owner;
        first_with_key_upto(orders, order_id, owner, earlier);
    } else {
        assert(is_first_with_key(orders, order_id, owner, upto));
    }
}

/// An order whose id is new to a book keeps the book's ids distinct.
pub proof fn with_order_keeps_ids(is_bid: bool, orders: Seq<Order>, order: Order)
    ensures
        distinct_ids(orders) && ids_below(orders, order.order_id) ==> distinct_ids(
            with_order(is_bid, orders, order),
        ),
        forall|bound: u128|
            ids_below(orders, bound) && order.order_id < bound ==> ids_below(
                with_order(is_bid, orders, order),
                bound,
            ),
        forall|other: Seq<Order>|
            ids_apart(orders, other) && ids_below(other, order.order_id) ==> ids_apart(
                with_order(is_bid, orders, order),
                other,
            ),
{
    entry_point_exists(is_bid, orders, order);
    let at = entry_point(is_bid, orders, order);
    let next = with_order(is_bid, orders, order);
    assert forall|i: int| 0 <= i < next.len() implies #[trigger] next[i] == (if i < at {
        orders[i]
    } else if i == at {
        order
    } else {
        orders[i - 1]
    }) by {}
    if distinct_ids(orders) && ids_below(orders, order.order_id) {
        assert forall|i: int, j: int| 0 <= i < j < next.len() implies (#[trigger] next[i]).order_id
            != (#[trigger] next[j]).order_id by {
            let a = if i < at { i } else { i - 1 };
            let b = if j < at { j } else { j - 1 };
            if i != at && j != at {
                assert(orders[a].order_id != orders[b].order_id);
            } else if i == at {
                assert(orders[b].order_id < order.order_id);
            } else {
                assert(orders[a].order_id < order.order_id);
            }
        }
    }
    assert forall|bound: u128| ids_below(orders, bound) && order.order_id < bound implies ids_below(
        next,
        bound,
    ) by {
        assert forall|i: int| 0 <= i < next.len() implies (#[trigger] next[i]).order_id
            < bound by {
            let a = if i < at { i } else { i - 1 };
            if i != at {
                assert(orders[a].order_id < bound);
            }
        }
    }
    assert forall|other: Seq<Order>|
        ids_apart(orders, other) && ids_below(other, order.order_id) implies ids_apart(
        next,
        other,
    ) by {
        assert forall|i: int, j: int| 0 <= i < next.len() && 0 <= j < other.len() implies
            (#[trigger] next[i]).order_id != (#[trigger] other[j]).order_id by {
            let a = if i < at { i } else { i - 1 };
            if i != at {
                assert(orders[a].order_id != other[j].order_id);
            } else {
                assert(other[j].order_id < order.order_id);
            }
        }
    }
}

/// Every order has exactly one entry point.
pub proof fn entry_point_exists(is_bid: bool, orders: Seq<Order>, order: Order)
    ensures
        is_entry_point(is_bid, orders, order, entry_point(is_bid, orders, order)),
        forall|at: int|
            is_entry_point(is_bid, orders, order, at) ==> at == entry_point(
                is_bid,
                orders,
                order,
            ),
{
    let at = first_refusal(is_bid, orders, order, 0);
    first_refusal_is_entry_point(is_bid, orders, order, 0);
    assert(is_entry_point(is_bid, orders, order, at));
    assert forall|a: int, b: int|
        is_entry_point(is_bid, orders, order, a) && is_entry_point(
            is_bid,
            orders,
            order,
            b,
        ) implies a == b by {
        if a < b {
            assert(may_precede(is_bid, orders[a], order));
        } else if b < a {
            assert(may_precede(is_bid, orders[b], order));
        }
    }
}

/// The first position from `from` on whose order may not stand before `order`.
spec fn first_refusal(is_bid: bool, orders: Seq<Order>, order: Order, from: int) -> int
    decreases orders.len() - from,
{
    if from < 0 || from >= orders.len() {
        orders.len() as int
    } else if !may_precede(is_bid, orders[from], order) {
        from
    } else {
        first_refusal(is_bid, orders, order, from + 1)
    }
}

proof fn first_refusal_is_entry_point(is_bid: bool, orders: Seq<Order>, order: Order, from: int)
    requires
        0 <= from <= orders.len(),
    ensures
        from <= first_refusal(is_bid, orders, order, from) <= orders.len(),
        forall|i: int|
            from <= i < first_refusal(is_bid, orders, order, from) ==> may_precede(
                is_bid,
                #[trigger] orders[i],
                order,
            ),
        first_refusal(is_bid, orders, order, from) < orders.len() ==> !may_precede(
            is_bid,
            orders[first_refusal(is_bid, orders, order, from)],
            order,
        ),
    decreases orders.len() - from,
{
    if from < orders.len() && may_precede(is_bid, orders[from], order) {
        first_refusal_is_entry_point(is_bid, orders, order, from + 1);
    }
}

/// Adjacent orders of a book in priority order: the price never improves from
/// one to the next, and at one price the time never goes back.
pub proof fn priority_order_of_neighbours(is_bid: bool, orders: Seq<Order>, i: int)
    requires
        in_priority_order(is_bid, orders),
        0 <= i,
        i + 1 < orders.len(),
    ensures
        is_bid ==> orders[i].price >= orders[i + 1].price,
        !is_bid ==> orders[i].price <= orders[i + 1].price,
        orders[i].price == orders[i + 1].price ==> orders[i].timestamp <= orders[i + 1].timestamp,
{
    assert(may_precede(is_bid, orders[i], orders[i + 1]));
}

/// A book whose neighbours are all in order is in priority order throughout.
pub proof fn priority_order_from_neighbours(is_bid: bool, orders: Seq<Order>)
    requires
        forall|i: int|
            0 <= i && i + 1 < orders.len() ==> may_precede(
                is_bid,
                #[trigger] orders[i],
                orders[i + 1],
            ),
    ensures
        in_priority_order(is_bid, orders),
{
    assert forall|i: int, j: int| 0 <= i < j < orders.len() implies may_precede(
        is_bid,
        #[trigger] orders[i],
        #[trigger] orders[j],
    ) by {
        neighbours_reach(is_bid, orders, i, j);
    }
}

proof fn neighbours_reach(is_bid: bool, orders: Seq<Order>, i: int, j: int)
    requires
        forall|k: int|
            0 <= k && k + 1 < orders.len() ==> may_precede(
                is_bid,
                #[trigger] orders[k],
                orders[k + 1],
            ),
        0 <= i < j < orders.len(),
    ensures
        may_precede(is_bid, orders[i], orders[j]),
    decreases j - i,
{
    assert(may_precede(is_bid, orders[j - 1], orders[j]));
    if i < j - 1 {
        neighbours_reach(is_bid, orders, i, j - 1);
    }
}

/// Placing an order at its entry point keeps a book in priority order.
pub proof fn with_order_keeps_priority_order(is_bid: bool, orders: Seq<Order>, order: Order)
    requires
        in_priority_order(is_bid, orders),
    ensures
        in_priority_order(is_bid, with_order(is_bid, orders, order)),
{
    entry_point_exists(is_bid, orders, order);
    let at = entry_point(is_bid, orders, order);
    let next = with_order(is_bid, orders, order);
    assert forall|i: int, j: int| 0 <= i < j < next.len() implies may_precede(
        is_bid,
        #[trigger] next[i],
        #[trigger] next[j],
    ) by {
        if j < at {
            assert(next[i] == orders[i] && next[j] == orders[j]);
        } else if j == at {
            assert(next[i] == orders[i]);
        } else if i < at {
            assert(next[i] == orders[i] && next[j] == orders[j - 1]);
        } else if i == at {
            assert(next[j] == orders[j - 1]);
            assert(!may_precede(is_bid, orders[at], order));
            if at < j - 1 {
                assert(may_precede(is_bid, orders[at], orders[j - 1]));
            }
        } else {
            assert(next[i] == orders[i - 1] && next[j] == orders[j - 1]);
        }
    }
}

/// Taking an order out keeps a book in priority order.
pub proof fn removal_keeps_priority_order(is_bid: bool, orders: Seq<Order>, at: int)
    requires
        in_priority_order(is_bid, orders),
        0 <= at < orders.len(),
    ensures
        in_priority_order(is_bid, orders.remove(at)),
{
    let next = orders.remove(at);
    assert forall|i: int, j: int| 0 <= i < j < next.len() implies may_precede(
        is_bid,
        #[trigger] next[i],
        #[trigger] next[j],
    ) by {
        let a = if i < at { i } else { i + 1 };
        let b = if j < at { j } else { j + 1 };
        assert(next[i] == orders[a] && next[j] == orders[b]);
    }
}

impl OrderBook {
    /// An empty book.
    pub fn new() -> (book: OrderBook)
        ensures
            book@ == Seq::<Order>::empty(),
    {
        OrderBook { orders: Vec::new() }
    }

    pub fn len(&self) -> (n: usize)
        ensures
            n == self@.len(),
    {
        self.orders.len()
    }

    /// The best order, which matching looks at first.
    pub fn front(&self) -> (best: Option<Order>)
        ensures
            best == (if self@.len() == 0 {
                None
            } else {
                Some(self@[0])
            }),
    {
        if self.orders.len() == 0 {
            None
        } else {
            Some(self.orders[0])
        }
    }

    /// Places `order` behind every order that may stand before it, and
    /// returns where that is.
    pub fn insert(&mut self, is_bid: bool, order: Order) -> (at: usize)
        ensures
            at == entry_point(is_bid, old(self)@, order),
            is_entry_point(is_bid, old(self)@, order, at as int),
            final(self)@ == with_order(is_bid, old(self)@, order),
            in_priority_order(is_bid, old(self)@) ==> in_priority_order(is_bid, final(self)@),
    {
        let mut at: usize = 0;
        while at < self.orders.len() && Self::stays_ahead(is_bid, &self.orders[at], &order)
            invariant
                at <= self@.len(),
                self@ == old(self)@,
                forall|i: int| 0 <= i < at ==> may_precede(is_bid, #[trigger] self@[i], order),
            decreases self@.len() - at,
        {
            at += 1;
        }
        proof {
            entry_point_exists(is_bid, self@, order);
            if in_priority_order(is_bid, self@) {
                with_order_keeps_priority_order(is_bid, self@, order);
            }
        }
        self.orders.insert(at, order);
        at
    }

    /// Whether a resting order keeps its place ahead of an incoming one.
    fn stays_ahead(is_bid: bool, resting: &Order, incoming: &Order) -> (r: bool)
        ensures
            r == may_precede(is_bid, *resting, *incoming),
    {
        if resting.price == incoming.price {
            resting.timestamp <= incoming.timestamp
        } else if is_bid {
            resting.price > incoming.price
        } else {
            resting.price < incoming.price
        }
    }

    /// Takes out the order at `index`; the ones behind it move up.
    pub fn remove_at(&mut self, index: usize) -> (order: Order)
        requires
            index < old(self)@.len(),
        ensures
            order == old(self)@[index as int],
            final(self)@ == old(self)@.remove(index as int),
            forall|is_bid: bool|
                in_priority_order(is_bid, old(self)@) ==> in_priority_order(is_bid, final(self)@),
    {
        proof {
            assert forall|is_bid: bool| in_priority_order(is_bid, self@) implies in_priority_order(
                is_bid,
                self@.remove(index as int),
            ) by {
                removal_keeps_priority_order(is_bid, self@, index as int);
            }
        }
        self.orders.remove(index)
    }

    /// The first position, from the best order on, whose order satisfies
    /// `wanted`.
    pub fn find<F: Fn(&Order) -> bool>(&self, wanted: F) -> (found: Option<usize>)
        requires
            forall|order: &Order| #[trigger] wanted.requires((order,)),
        ensures
            match found {
                Some(at) => {
                    &&& at < self@.len()
                    &&& wanted.ensures((&self@[at as int],), true)
                    &&& forall|i: int| 0 <= i < at ==> wanted.ensures((&#[trigger] self@[i],), false)
                },
                None => forall|i: int|
                    0 <= i < self@.len() ==> wanted.ensures((&#[trigger] self@[i],), false),
            },
    {
        let mut at: usize = 0;
        while at < self.orders.len()
            invariant
                at <= self@.len(),
                forall|order: &Order| #[trigger] wanted.requires((order,)),
                forall|i: int| 0 <= i < at ==> wanted.ensures((&#[trigger] self@[i],), false),
            decreases self@.len() - at,
        {
            if wanted(&self.orders[at]) {
                return Some(at);
            }
            at += 1;
        }
        None
    }

    /// The first position of an order with this id and owner.
    pub fn position_of(&self, order_id: u128, owner: Identity) -> (found: Option<usize>)
        ensures
            match found {
                Some(at) => is_first_with_key(self@, order_id, owner, at as int) && at == key_index(
                    self@,
                    order_id,
                    owner,
                ),
                None => !has_key(self@, order_id, owner),
            },
    {
        let wanted = |order: &Order| -> (r: bool)
            ensures
                r == (order.order_id == order_id && order.owner == owner),
            { order.order_id == order_id && order.owner == owner };
        let found = self.find(wanted);
        proof {
            if found is Some {
                assert(self@[found->Some_0 as int].order_id == order_id);
                key_index_exists(self@, order_id, owner);
            }
        }
        found
    }
}

} // verus!
