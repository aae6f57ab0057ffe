//! A per-asset order book: the resting orders of each side, kept in the
//! order in which they will be matched.

use super::order::{better_price, BuyOrSell, Order, Price};
use std::collections::VecDeque;
use vstd::prelude::*;

verus! {

/// An executed trade: buy order id, sell order id, execution price and
/// executed quantity.
pub type Trade = (u64, u64, Price, u32);

/// Best prices and resting volume of a book.
pub trait OrderBookTrait {
    fn best_buy_price(&self) -> Option<Price>;

    fn best_sell_price(&self) -> Option<Price>;

    fn sell_volume(&self) -> Option<u32>;

    fn buy_volume(&self) -> Option<u32>;
}

/// The rule by which a book picks the next order to trade.
#[derive(PartialEq, Eq, Structural, Clone, Copy, Debug)]
pub enum OrderStrategy {
    /// First in, first out.
    FIFO,
    /// Price-time priority.
    PTP,
}

/// The resting orders of one asset. Each side is a queue whose first order
/// is the next to trade.
pub struct OrderBook {
    buy_orders: VecDeque<Order>,
    sell_orders: VecDeque<Order>,
    orders_matching_strategy: OrderStrategy,
    next_order_id: u64,
}

/// The two queues and the trades of a matching pass.
pub struct Matched {
    pub trades: Seq<Trade>,
    pub buys: Seq<Order>,
    pub sells: Seq<Order>,
}

// The model: what holds of a queue, and what adding and matching make of it.

/// What holds of the queue of one side: every order belongs to the side,
/// has something left to fill and an id that was handed out; a better price
/// stands before a worse one, and at one price the order that came first
/// (the smaller id) stands first.
pub open spec fn queue_in_order(queue: Seq<Order>, side: BuyOrSell, next_id: u64) -> bool {
    &&& forall|i: int|
        0 <= i < queue.len() ==> {
            &&& (#[trigger] queue[i]).side == side
            &&& queue[i].quantity > 0
            &&& queue[i].price > 0
            &&& 1 <= queue[i].id < next_id
        }
    &&& forall|i: int, j: int|
        0 <= i < j < queue.len() ==> {
            ||| better_price(side, (#[trigger] queue[i]).price, (#[trigger] queue[j]).price)
            ||| (queue[i].price == queue[j].price && queue[i].id < queue[j].id)
        }
}

/// No two resting orders of a book have the same id.
pub open spec fn distinct_ids(buys: Seq<Order>, sells: Seq<Order>) -> bool {
    &&& forall|i: int, j: int|
        0 <= i < j < buys.len() ==> (#[trigger] buys[i]).id != (#[trigger] buys[j]).id
    &&& forall|i: int, j: int|
        0 <= i < j < sells.len() ==> (#[trigger] sells[i]).id != (#[trigger] sells[j]).id
    &&& forall|i: int, j: int|
        0 <= i < buys.len() && 0 <= j < sells.len() ==> (#[trigger] buys[i]).id != (
        #[trigger] sells[j]).id
}

/// Orders that came later do not carry an earlier timestamp.
pub open spec fn time_ordered(queue: Seq<Order>) -> bool {
    forall|i: int, j: int|
        0 <= i < queue.len() && 0 <= j < queue.len() && (#[trigger] queue[i]).id < (
        #[trigger] queue[j]).id ==> queue[i].timestamp <= queue[j].timestamp
}

/// No order of the queue carries a timestamp after `timestamp`.
pub open spec fn none_after(queue: Seq<Order>, timestamp: u64) -> bool {
    forall|i: int| 0 <= i < queue.len() ==> (#[trigger] queue[i]).timestamp <= timestamp
}

/// The price of the head of a queue, if the queue holds an order.
pub open spec fn best_price(queue: Seq<Order>) -> Option<Price> {
    if queue.len() == 0 {
        None
    } else {
        Some(queue[0].price)
    }
}

/// The sum of the quantities of a queue.
pub open spec fn volume(queue: Seq<Order>) -> nat
    decreases queue.len(),
{
    if queue.len() == 0 {
        0
    } else {
        volume(queue.drop_last()) + queue.last().quantity as nat
    }
}

/// A volume as a reported quantity: `None` where it is too large for one.
pub open spec fn reported(total: nat) -> Option<u32> {
    if total <= u32::MAX {
        Some(total as u32)
    } else {
        None
    }
}

/// The number of orders at the head of the queue that a new order at
/// `price` has to stand behind: those whose price is at least as good.
pub open spec fn rank(queue: Seq<Order>, side: BuyOrSell, price: Price) -> nat
    decreases queue.len(),
{
    if queue.len() == 0 || better_price(side, price, queue[0].price) {
        0
    } else {
        1 + rank(queue.skip(1), side, price)
    }
}

/// A queue after `order` has joined it: behind every order whose price is
/// at least as good, before all others.
pub open spec fn placed(queue: Seq<Order>, order: Order) -> Seq<Order> {
    queue.insert(rank(queue, order.side, order.price) as int, order)
}

/// The orders of a queue that rest at `price`, oldest first.
pub open spec fn level(queue: Seq<Order>, price: Price) -> Seq<Order> {
    queue.filter(|o: Order| o.price == price)
}

/// The price levels of a queue.
pub open spec fn levels(queue: Seq<Order>) -> Set<Price> {
    queue.map_values(|o: Order| o.price).to_set()
}

/// The heads of the two queues can trade: both exist and the bid is not
/// below the ask.
pub open spec fn crosses(buys: Seq<Order>, sells: Seq<Order>) -> bool {
    buys.len() > 0 && sells.len() > 0 && buys[0].price >= sells[0].price
}

/// The quantity that the two heads exchange.
pub open spec fn fill(buys: Seq<Order>, sells: Seq<Order>) -> u32
    recommends
        crosses(buys, sells),
{
    if buys[0].quantity <= sells[0].quantity {
        buys[0].quantity
    } else {
        sells[0].quantity
    }
}

/// The trade between the two heads, at the price of the resting sell order.
pub open spec fn head_trade(buys: Seq<Order>, sells: Seq<Order>) -> Trade
    recommends
        crosses(buys, sells),
{
    (buys[0].id, sells[0].id, sells[0].price, fill(buys, sells))
}

/// A queue after `quantity` of its head was filled: a head with something
/// left keeps its place, id, price and timestamp; a head that is filled
/// leaves.
pub open spec fn after_fill(queue: Seq<Order>, quantity: u32) -> Seq<Order>
    recommends
        queue.len() > 0,
        quantity <= queue[0].quantity,
{
    if queue[0].quantity > quantity {
        queue.update(
            0,
            Order {
                quantity: (queue[0].quantity - quantity) as u32,
                price: queue[0].price,
                id: queue[0].id,
                timestamp: queue[0].timestamp,
                wallet: queue[0].wallet,
                side: queue[0].side,
            },
        )
    } else {
        queue.skip(1)
    }
}

/// A matching pass: while the heads cross they trade, the trade is
/// recorded, and the pass goes on with what is left.
pub open spec fn matched(buys: Seq<Order>, sells: Seq<Order>) -> Matched
    decreases buys.len() + sells.len(),
{
    if crosses(buys, sells) {
        let quantity = fill(buys, sells);
        let rest = matched(after_fill(buys, quantity), after_fill(sells, quantity));
        Matched {
            trades: seq![head_trade(buys, sells)] + rest.trades,
            buys: rest.buys,
            sells: rest.sells,
        }
    } else {
        Matched { trades: Seq::empty(), buys, sells }
    }
}

/// The sum of the quantities of a sequence of trades.
pub open spec fn traded_quantity(trades: Seq<Trade>) -> nat
    decreases trades.len(),
{
    if trades.len() == 0 {
        0
    } else {
        traded_quantity(trades.drop_last()) + trades.last().3 as nat
    }
}

// The book.

impl OrderBook {
    /// The book's validity: both queues are in order under the ids handed
    /// out so far, and no id is on both sides.
    #[verifier::type_invariant]
    pub closed spec fn wf(&self) -> bool {
        &&& self.next_order_id >= 1
        &&& queue_in_order(self.buy_orders@, BuyOrSell::Buy, self.next_order_id)
        &&& queue_in_order(self.sell_orders@, BuyOrSell::Sell, self.next_order_id)
        &&& distinct_ids(self.buy_orders@, self.sell_orders@)
    }

    /// The resting buy orders; the first is the next to trade.
    pub closed spec fn buys(&self) -> Seq<Order> {
        self.buy_orders@
    }

    /// The resting sell orders; the first is the next to trade.
    pub closed spec fn sells(&self) -> Seq<Order> {
        self.sell_orders@
    }

    /// The queue of one side.
    pub open spec fn side(&self, side: BuyOrSell) -> Seq<Order> {
        match side {
            BuyOrSell::Buy => self.buys(),
            BuyOrSell::Sell => self.sells(),
        }
    }

    /// The id that the next order will get.
    pub closed spec fn next_id(&self) -> u64 {
        self.next_order_id
    }

    /// The rule by which the book matches.
    pub closed spec fn strategy(&self) -> OrderStrategy {
        self.orders_matching_strategy
    }

    /// An empty book that matches by price-time priority; its first order
    /// gets id 1.
    pub fn new() -> (book: OrderBook)
        ensures
            book.buys() == Seq::<Order>::empty(),
            book.sells() == Seq::<Order>::empty(),
            book.next_id() == 1,
            book.strategy() == OrderStrategy::PTP,
    {
        OrderBook {
            buy_orders: VecDeque::new(),
            sell_orders: VecDeque::new(),
            next_order_id: 1,
            orders_matching_strategy: OrderStrategy::PTP,
        }
    }

    /// What a valid book holds of its two queues.
    pub proof fn lemma_queues_in_order(&self)
        requires
            self.wf(),
        ensures
            self.next_id() >= 1,
            queue_in_order(self.buys(), BuyOrSell::Buy, self.next_id()),
            queue_in_order(self.sells(), BuyOrSell::Sell, self.next_id()),
            distinct_ids(self.buys(), self.sells()),
    {
    }

    /// The number of resting orders of one side at `price`.
    pub fn depth_at(&self, side: BuyOrSell, price: Price) -> (n: usize)
        ensures
            n == level(self.side(side), price).len(),
    {
        match side {
            BuyOrSell::Buy => queue_depth_at(&self.buy_orders, price),
            BuyOrSell::Sell => queue_depth_at(&self.sell_orders, price),
        }
    }

    /// The number of price levels of one side.
    pub fn level_count(&self, side: BuyOrSell) -> (n: usize)
        ensures
            n == levels(self.side(side)).len(),
    {
        proof {
            use_type_invariant(self);
        }
        match side {
            BuyOrSell::Buy => queue_level_count(
                &self.buy_orders,
                Ghost(BuyOrSell::Buy),
                Ghost(self.next_order_id),
            ),
            BuyOrSell::Sell => queue_level_count(
                &self.sell_orders,
                Ghost(BuyOrSell::Sell),
                Ghost(self.next_order_id),
            ),
        }
    }

    /// The id that the next order will get.
    pub fn next_order_id(&self) -> (id: u64)
        ensures
            id == self.next_id(),
    {
        self.next_order_id
    }

    /// The rule by which the book matches.
    pub fn matching_strategy(&self) -> (r: OrderStrategy)
        ensures
            r == self.strategy(),
    {
        self.orders_matching_strategy
    }

    /// Price-time priority: in a valid book whose orders came in the order
    /// of their timestamps, every order of a side has priority over each
    /// order behind it: its price is better, or the prices are equal and it
    /// is the earlier one, by timestamp and then by id.
    pub proof fn lemma_price_time_priority(&self, side: BuyOrSell, i: int, j: int)
        requires
            self.wf(),
            time_ordered(self.side(side)),
            0 <= i < j < self.side(side).len(),
        ensures
            self.side(side)[i].precedes(&self.side(side)[j]),
    {
    }

    /// Takes a new order into the book and returns its id. The order gets
    /// the next id and stands behind every resting order of its side whose
    /// price is at least as good; the other side is not touched.
    pub fn add_order(
        &mut self,
        order_type: BuyOrSell,
        price: Price,
        quantity: u32,
        timestamp: u64,
    ) -> (id: u64)
        requires
            price > 0,
            quantity > 0,
            old(self).next_id() < u64::MAX,
        ensures
            id == old(self).next_id(),
            final(self).next_id() == id + 1,
            final(self).strategy() == old(self).strategy(),
            final(self).side(order_type) == placed(
                old(self).side(order_type),
                Order { quantity, price, id, timestamp, wallet: None, side: order_type },
            ),
            order_type == BuyOrSell::Buy ==> final(self).sells() == old(self).sells(),
            order_type == BuyOrSell::Sell ==> final(self).buys() == old(self).buys(),
            forall|p: Price| #[trigger]
                level(final(self).side(order_type), p) == if p == price {
                    level(old(self).side(order_type), p).push(
                        Order { quantity, price, id, timestamp, wallet: None, side: order_type },
                    )
                } else {
                    level(old(self).side(order_type), p)
                },
            volume(final(self).side(order_type)) == volume(old(self).side(order_type)) + quantity,
            time_ordered(old(self).side(order_type)) && none_after(
                old(self).side(order_type),
                timestamp,
            ) ==> time_ordered(final(self).side(order_type)),
    {
        proof {
            use_type_invariant(&*self);
        }
        let id: u64 = self.next_order_id;
        let order = Order::new(id, order_type, quantity, price, timestamp);
        let mut queue: VecDeque<Order> = VecDeque::new();
        match order_type {
            BuyOrSell::Buy => {
                std::mem::swap(&mut queue, &mut self.buy_orders);
            },
            BuyOrSell::Sell => {
                std::mem::swap(&mut queue, &mut self.sell_orders);
            },
        }
        let ghost before = queue@;
        proof {
            let k = rank(before, order_type, price) as int;
            lemma_rank_splits(before, order_type, price);
            lemma_volume_insert(before, k, order);
            if time_ordered(before) && none_after(before, timestamp) {
                lemma_insert_time_ordered(before, k, order);
            }
            lemma_insert_distinct(old(self).buys(), old(self).sells(), k, order);
            assert forall|p: Price| #[trigger]
                level(placed(before, order), p) == if p == price {
                    level(before, p).push(order)
                } else {
                    level(before, p)
                } by {
                lemma_placed_level(before, order, id, p);
            }
        }
        insert_in_order(&mut queue, order);
        self.next_order_id = id + 1;
        match order_type {
            BuyOrSell::Buy => {
                self.buy_orders = queue;
            },
            BuyOrSell::Sell => {
                self.sell_orders = queue;
            },
        }
        id
    }

    /// One matching pass over the book: while the best bid is not below the
    /// best ask, the two orders at the heads of the queues trade at the
    /// price of the sell order. Returns the trades in the order in which
    /// they were made.
    pub fn match_orders(&mut self) -> (trades: Vec<Trade>)
        ensures
            trades@ == matched(old(self).buys(), old(self).sells()).trades,
            final(self).buys() == matched(old(self).buys(), old(self).sells()).buys,
            final(self).sells() == matched(old(self).buys(), old(self).sells()).sells,
            final(self).next_id() == old(self).next_id(),
            final(self).strategy() == old(self).strategy(),
            !crosses(final(self).buys(), final(self).sells()),
            volume(final(self).buys()) + traded_quantity(trades@) == volume(old(self).buys()),
            volume(final(self).sells()) + traded_quantity(trades@) == volume(old(self).sells()),
            time_ordered(old(self).buys()) ==> time_ordered(final(self).buys()),
            time_ordered(old(self).sells()) ==> time_ordered(final(self).sells()),
    {
        proof {
            use_type_invariant(&*self);
        }
        let ghost next_id = self.next_order_id;
        let mut buys: VecDeque<Order> = VecDeque::new();
        let mut sells: VecDeque<Order> = VecDeque::new();
        std::mem::swap(&mut buys, &mut self.buy_orders);
        std::mem::swap(&mut sells, &mut self.sell_orders);
        let ghost buys0 = buys@;
        let ghost sells0 = sells@;
        let mut trades: Vec<Trade> = Vec::new();
        while buys.len() > 0 && sells.len() > 0 && buys[0].price >= sells[0].price
            invariant
                queue_in_order(buys@, BuyOrSell::Buy, next_id),
                queue_in_order(sells@, BuyOrSell::Sell, next_id),
                distinct_ids(buys@, sells@),
                matched(buys0, sells0).trades == trades@ + matched(buys@, sells@).trades,
                matched(buys0, sells0).buys == matched(buys@, sells@).buys,
                matched(buys0, sells0).sells == matched(buys@, sells@).sells,
                volume(buys@) + traded_quantity(trades@) == volume(buys0),
                volume(sells@) + traded_quantity(trades@) == volume(sells0),
                time_ordered(buys0) ==> time_ordered(buys@),
                time_ordered(sells0) ==> time_ordered(sells@),
            decreases buys.len() + sells.len(),
        {
            let ghost b = buys@;
            let ghost s = sells@;
            let bid: u32 = buys[0].quantity;
            let ask: u32 = sells[0].quantity;
            let quantity: u32 = if bid <= ask { bid } else { ask };
            let trade: Trade = (buys[0].id, sells[0].id, sells[0].price, quantity);
            proof {
                lemma_volume_after_fill(b, quantity);
                lemma_volume_after_fill(s, quantity);
                assert(trades@.push(trade).drop_last() =~= trades@);
            }
            fill_head(&mut buys, quantity);
            fill_head(&mut sells, quantity);
            trades.push(trade);
        }
        self.buy_orders = buys;
        self.sell_orders = sells;
        trades
    }
}

impl OrderBookTrait for OrderBook {
    /// The highest bid: the price of the first buy order.
    fn best_buy_price(&self) -> (r: Option<Price>)
        ensures
            r == best_price(self.buys()),
            r matches Some(p) ==> forall|i: int|
                0 <= i < self.buys().len() ==> (#[trigger] self.buys()[i]).price <= p,
    {
        proof {
            use_type_invariant(self);
        }
        head_price(&self.buy_orders)
    }

    /// The lowest ask: the price of the first sell order.
    fn best_sell_price(&self) -> (r: Option<Price>)
        ensures
            r == best_price(self.sells()),
            r matches Some(p) ==> forall|i: int|
                0 <= i < self.sells().len() ==> (#[trigger] self.sells()[i]).price >= p,
    {
        proof {
            use_type_invariant(self);
        }
        head_price(&self.sell_orders)
    }

    /// The sum of the quantities of the resting sell orders, `None` where
    /// it does not fit the quantity type.
    fn sell_volume(&self) -> (r: Option<u32>)
        ensures
            r == reported(volume(self.sells())),
    {
        queue_volume(&self.sell_orders)
    }

    /// The sum of the quantities of the resting buy orders, `None` where it
    /// does not fit the quantity type.
    fn buy_volume(&self) -> (r: Option<u32>)
        ensures
            r == reported(volume(self.buys())),
    {
        queue_volume(&self.buy_orders)
    }
}

// Laws of the model.

/// The volume of two queues in a row is the sum of their volumes.
pub proof fn lemma_volume_concat(a: Seq<Order>, b: Seq<Order>)
    ensures
        volume(a + b) == volume(a) + volume(b),
    decreases b.len(),
{
    if b.len() > 0 {
        assert((a + b).drop_last() =~= a + b.drop_last());
        lemma_volume_concat(a, b.drop_last());
    }
}

/// An order that joins a queue adds its quantity to the volume, wherever it
/// stands.
pub proof fn lemma_volume_insert(queue: Seq<Order>, k: int, o: Order)
    requires
        0 <= k <= queue.len(),
    ensures
        volume(queue.insert(k, o)) == volume(queue) + o.quantity,
{
    let a = queue.subrange(0, k);
    let b = queue.subrange(k, queue.len() as int);
    assert(queue =~= a + b);
    assert(queue.insert(k, o) =~= (a + seq![o]) + b);
    lemma_volume_concat(a, b);
    lemma_volume_concat(a + seq![o], b);
    lemma_volume_concat(a, seq![o]);
    lemma_volume_single(o);
}

/// Filling the head of a queue takes the filled quantity from its volume.
pub proof fn lemma_volume_after_fill(queue: Seq<Order>, quantity: u32)
    requires
        queue.len() > 0,
        quantity <= queue[0].quantity,
    ensures
        volume(after_fill(queue, quantity)) + quantity == volume(queue),
{
    let head = seq![queue[0]];
    let tail = queue.skip(1);
    assert(queue =~= head + tail);
    lemma_volume_concat(head, tail);
    lemma_volume_single(queue[0]);
    if queue[0].quantity > quantity {
        let left = after_fill(queue, quantity)[0];
        assert(after_fill(queue, quantity) =~= seq![left] + tail);
        lemma_volume_concat(seq![left], tail);
        lemma_volume_single(left);
    }
}

/// Before the rank stand the orders at least as good as `price`, from it
/// on those that are worse.
pub proof fn lemma_rank_splits(queue: Seq<Order>, side: BuyOrSell, price: Price)
    ensures
        rank(queue, side, price) <= queue.len(),
        forall|i: int|
            0 <= i < rank(queue, side, price) ==> !better_price(
                side,
                price,
                (#[trigger] queue[i]).price,
            ),
        rank(queue, side, price) < queue.len() ==> better_price(
            side,
            price,
            queue[rank(queue, side, price) as int].price,
        ),
    decreases queue.len(),
{
    if queue.len() > 0 && !better_price(side, price, queue[0].price) {
        let rest = queue.skip(1);
        lemma_rank_splits(rest, side, price);
        assert forall|i: int| 0 <= i < rank(queue, side, price) implies !better_price(
            side,
            price,
            (#[trigger] queue[i]).price,
        ) by {
            if i > 0 {
                assert(queue[i] == rest[i - 1]);
            }
        }
    }
}

/// The position that `rank` gives is the one place at which every order
/// before it is at least as good as `price` and the order at it, if there
/// is one, is worse.
pub proof fn lemma_rank_is(queue: Seq<Order>, side: BuyOrSell, price: Price, k: int)
    requires
        0 <= k <= queue.len(),
        forall|i: int| 0 <= i < k ==> !better_price(side, price, (#[trigger] queue[i]).price),
        k < queue.len() ==> better_price(side, price, queue[k].price),
    ensures
        rank(queue, side, price) == k,
    decreases queue.len(),
{
    if k > 0 {
        let rest = queue.skip(1);
        lemma_rank_is(rest, side, price, k - 1);
    }
}

/// The order that joins a queue joins the end of its price level, and no
/// other level changes.
pub proof fn lemma_placed_level(queue: Seq<Order>, order: Order, next_id: u64, price: Price)
    requires
        queue_in_order(queue, order.side, next_id),
    ensures
        level(placed(queue, order), price) == if price == order.price {
            level(queue, price).push(order)
        } else {
            level(queue, price)
        },
{
    let k = rank(queue, order.side, order.price) as int;
    lemma_rank_splits(queue, order.side, order.price);
    let head = queue.subrange(0, k);
    let tail = queue.subrange(k, queue.len() as int);
    let pred = |o: Order| o.price == price;
    assert(queue =~= head + tail);
    Seq::filter_distributes_over_add(head.push(order), tail, pred);
    head.lemma_filter_push(order, pred);
    if price == order.price {
        // every order behind the new one is at a worse price
        tail.lemma_all_neg_filter_empty(pred);
    }
}

/// A price is a level of a queue exactly where an order of the queue rests
/// at it.
pub proof fn lemma_levels_hold_orders(queue: Seq<Order>, price: Price)
    ensures
        levels(queue).contains(price) <==> level(queue, price).len() > 0,
{
    let pred = |o: Order| o.price == price;
    let prices = queue.map_values(|o: Order| o.price);
    if levels(queue).contains(price) {
        let i = choose|i: int| 0 <= i < prices.len() && prices[i] == price;
        queue.lemma_filter_contains(pred, i);
    }
    if level(queue, price).len() > 0 {
        let first = level(queue, price)[0];
        queue.lemma_filter_pred(pred, 0);
        queue.lemma_filter_contains_rev(pred, first);
        let i = choose|i: int| 0 <= i < queue.len() && queue[i] == first;
        assert(prices[i] == price);
    }
}

/// Price-time priority: in a queue in order whose orders came in the
/// order of their timestamps, an order has priority over each order behind
/// it: its price is better, or the prices are equal and it is the earlier
/// one, by timestamp and then by id.
pub proof fn lemma_queue_priority(queue: Seq<Order>, side: BuyOrSell, next_id: u64, i: int, j: int)
    requires
        queue_in_order(queue, side, next_id),
        time_ordered(queue),
        0 <= i < j < queue.len(),
    ensures
        queue[i].precedes(&queue[j]),
{
}

/// A fill keeps the queue: what is left of it is in order, is no longer
/// than before, is shorter where the head was filled, and has its orders
/// in the order of their timestamps where the queue had.
pub proof fn lemma_after_fill_in_order(
    queue: Seq<Order>,
    quantity: u32,
    side: BuyOrSell,
    next_id: u64,
)
    requires
        queue.len() > 0,
        quantity <= queue[0].quantity,
        queue_in_order(queue, side, next_id),
    ensures
        queue_in_order(after_fill(queue, quantity), side, next_id),
        time_ordered(queue) ==> time_ordered(after_fill(queue, quantity)),
        after_fill(queue, quantity).len() <= queue.len(),
        queue[0].quantity == quantity ==> after_fill(queue, quantity).len() < queue.len(),
{
    let after = after_fill(queue, quantity);
    if queue[0].quantity > quantity {
        assert forall|i: int| 0 <= i < after.len() implies {
            &&& (#[trigger] after[i]).side == side
            &&& after[i].quantity > 0
            &&& after[i].price > 0
            &&& 1 <= after[i].id < next_id
        } by {}
    }
}

/// Every trade of a pass is made between the two orders that stand first
/// when it is made: the first trade is that of the heads, and the trades
/// after it are those of a pass over what the first has left.
pub proof fn lemma_trades_from_heads(buys: Seq<Order>, sells: Seq<Order>)
    requires
        crosses(buys, sells),
    ensures
        matched(buys, sells).trades.len() >= 1,
        matched(buys, sells).trades[0] == head_trade(buys, sells),
        matched(buys, sells).trades.skip(1) == matched(
            after_fill(buys, fill(buys, sells)),
            after_fill(sells, fill(buys, sells)),
        ).trades,
{
}

/// What a matching pass keeps and what it reaches, for any two queues in
/// order: both queues stay in order, the heads no longer cross, each side
/// has lost exactly the traded quantity, and a queue whose orders came in
/// the order of their timestamps still has them so.
pub proof fn lemma_matched(buys: Seq<Order>, sells: Seq<Order>, next_id: u64)
    requires
        queue_in_order(buys, BuyOrSell::Buy, next_id),
        queue_in_order(sells, BuyOrSell::Sell, next_id),
    ensures
        distinct_ids(buys, sells) ==> distinct_ids(
            matched(buys, sells).buys,
            matched(buys, sells).sells,
        ),
        queue_in_order(matched(buys, sells).buys, BuyOrSell::Buy, next_id),
        queue_in_order(matched(buys, sells).sells, BuyOrSell::Sell, next_id),
        !crosses(matched(buys, sells).buys, matched(buys, sells).sells),
        volume(matched(buys, sells).buys) + traded_quantity(matched(buys, sells).trades) == volume(
            buys,
        ),
        volume(matched(buys, sells).sells) + traded_quantity(matched(buys, sells).trades)
            == volume(sells),
        time_ordered(buys) ==> time_ordered(matched(buys, sells).buys),
        time_ordered(sells) ==> time_ordered(matched(buys, sells).sells),
    decreases buys.len() + sells.len(),
{
    if crosses(buys, sells) {
        let quantity = fill(buys, sells);
        let b = after_fill(buys, quantity);
        let s = after_fill(sells, quantity);
        lemma_after_fill_in_order(buys, quantity, BuyOrSell::Buy, next_id);
        lemma_after_fill_in_order(sells, quantity, BuyOrSell::Sell, next_id);
        lemma_volume_after_fill(buys, quantity);
        lemma_volume_after_fill(sells, quantity);
        if distinct_ids(buys, sells) {
            lemma_after_fill_distinct(buys, sells, quantity);
        }
        lemma_matched(b, s, next_id);
        let first = seq![head_trade(buys, sells)];
        lemma_traded_concat(first, matched(b, s).trades);
        assert(first.drop_last() =~= Seq::<Trade>::empty());
    }
}

// Work on one queue.

fn outbids(side: BuyOrSell, a: Price, b: Price) -> (r: bool)
    ensures
        r == better_price(side, a, b),
{
    match side {
        BuyOrSell::Buy => a > b,
        BuyOrSell::Sell => a < b,
    }
}

/// Puts `order` at its place in the queue of its side.
fn insert_in_order(queue: &mut VecDeque<Order>, order: Order)
    requires
        queue_in_order(old(queue)@, order.side, order.id),
        order.quantity > 0,
        order.price > 0,
        1 <= order.id < u64::MAX,
    ensures
        final(queue)@ == placed(old(queue)@, order),
        queue_in_order(final(queue)@, order.side, (order.id + 1) as u64),
{
    let n: usize = queue.len();
    let side = order.side;
    let price: Price = order.price;
    let mut k: usize = 0;
    while k < n && !outbids(side, price, queue[k].price)
        invariant
            n == queue.len(),
            k <= n,
            forall|i: int| 0 <= i < k ==> !better_price(side, price, (#[trigger] queue@[i]).price),
        decreases n - k,
    {
        k += 1;
    }
    proof {
        lemma_rank_is(queue@, side, price, k as int);
    }
    queue.insert(k, order);
    proof {
        let after = queue@;
        assert forall|i: int| 0 <= i < after.len() implies {
            &&& (#[trigger] after[i]).side == side
            &&& after[i].quantity > 0
            &&& after[i].price > 0
            &&& 1 <= after[i].id < order.id + 1
        } by {}
    }
}

/// Takes `quantity` from the head of a queue.
fn fill_head(queue: &mut VecDeque<Order>, quantity: u32)
    requires
        old(queue)@.len() > 0,
        quantity <= old(queue)@[0].quantity,
    ensures
        final(queue)@ == after_fill(old(queue)@, quantity),
{
    let head = queue.pop_front();
    match head {
        Some(order) => {
            if order.quantity > quantity {
                let left = Order {
                    quantity: order.quantity - quantity,
                    price: order.price,
                    id: order.id,
                    timestamp: order.timestamp,
                    wallet: order.wallet,
                    side: order.side,
                };
                queue.push_front(left);
            }
        },
        None => {},
    }
}

/// The price of the head of a queue.
fn head_price(queue: &VecDeque<Order>) -> (r: Option<Price>)
    ensures
        r == best_price(queue@),
{
    if queue.len() == 0 {
        None
    } else {
        Some(queue[0].price)
    }
}

/// The sum of the quantities of a queue, where it can be reported.
fn queue_volume(queue: &VecDeque<Order>) -> (r: Option<u32>)
    ensures
        r == reported(volume(queue@)),
{
    let n: usize = queue.len();
    let mut total: u32 = 0;
    let mut k: usize = 0;
    while k < n
        invariant
            n == queue.len(),
            k <= n,
            total == volume(queue@.take(k as int)),
        decreases n - k,
    {
        let quantity: u32 = queue[k].quantity;
        proof {
            assert(queue@.take(k + 1).drop_last() =~= queue@.take(k as int));
            lemma_volume_prefix(queue@, k + 1);
        }
        if quantity > u32::MAX - total {
            return None;
        }
        total = total + quantity;
        k += 1;
    }
    proof {
        assert(queue@.take(n as int) =~= queue@);
    }
    Some(total)
}

/// The number of orders of a queue that rest at `price`.
fn queue_depth_at(queue: &VecDeque<Order>, price: Price) -> (n: usize)
    ensures
        n == level(queue@, price).len(),
{
    let len: usize = queue.len();
    let mut n: usize = 0;
    let mut k: usize = 0;
    while k < len
        invariant
            len == queue.len(),
            k <= len,
            n <= k,
            n == level(queue@.take(k as int), price).len(),
        decreases len - k,
    {
        proof {
            assert(queue@.take(k + 1) =~= queue@.take(k as int).push(queue@[k as int]));
            lemma_level_push(queue@.take(k as int), queue@[k as int], price);
        }
        if queue[k].price == price {
            n += 1;
        }
        k += 1;
    }
    proof {
        assert(queue@.take(len as int) =~= queue@);
    }
    n
}

/// The number of price levels of a queue in order.
fn queue_level_count(
    queue: &VecDeque<Order>,
    Ghost(side): Ghost<BuyOrSell>,
    Ghost(next_id): Ghost<u64>,
) -> (n: usize)
    requires
        queue_in_order(queue@, side, next_id),
    ensures
        n == levels(queue@).len(),
{
    let len: usize = queue.len();
    let mut n: usize = 0;
    let mut k: usize = 0;
    proof {
        assert(queue@.take(0) =~= Seq::<Order>::empty());
        assert(levels(Seq::<Order>::empty()) =~= Set::<Price>::empty());
    }
    while k < len
        invariant
            len == queue.len(),
            k <= len,
            n <= k,
            n == levels(queue@.take(k as int)).len(),
            queue_in_order(queue@, side, next_id),
        decreases len - k,
    {
        let ghost head = queue@.take(k as int);
        proof {
            assert(queue@.take(k + 1) =~= head.push(queue@[k as int]));
            lemma_levels_push(head, queue@[k as int]);
        }
        if k == 0 || queue[k - 1].price != queue[k].price {
            proof {
                // a price that differs from the one before it is new: every
                // earlier order stands at a price at least as good as that
                // of the order before
                let p = queue@[k as int].price;
                if levels(head).contains(p) {
                    let prices = head.map_values(|o: Order| o.price);
                    let i = choose|i: int| 0 <= i < prices.len() && prices[i] == p;
                    assert(queue@[i].price == p);
                    assert(false);
                }
            }
            n += 1;
        } else {
            proof {
                // the price of the order before is a level already
                let prices = head.map_values(|o: Order| o.price);
                assert(prices[k - 1] == queue@[k as int].price);
            }
        }
        k += 1;
    }
    proof {
        assert(queue@.take(len as int) =~= queue@);
    }
    n
}

// Steps of the proofs.

proof fn lemma_volume_single(o: Order)
    ensures
        volume(seq![o]) == o.quantity,
{
    assert(seq![o].drop_last() =~= Seq::<Order>::empty());
    assert(volume(Seq::<Order>::empty()) == 0);
}

/// The volume of the head part of a queue is at most that of the queue.
proof fn lemma_volume_prefix(queue: Seq<Order>, k: int)
    requires
        0 <= k <= queue.len(),
    ensures
        volume(queue.take(k)) <= volume(queue),
{
    assert(queue =~= queue.take(k) + queue.skip(k));
    lemma_volume_concat(queue.take(k), queue.skip(k));
}

proof fn lemma_traded_concat(a: Seq<Trade>, b: Seq<Trade>)
    ensures
        traded_quantity(a + b) == traded_quantity(a) + traded_quantity(b),
    decreases b.len(),
{
    if b.len() > 0 {
        assert((a + b).drop_last() =~= a + b.drop_last());
        lemma_traded_concat(a, b.drop_last());
    }
}

/// An order that is later than all of a time-ordered queue, by id and by
/// timestamp, leaves the queue time-ordered wherever it joins.
proof fn lemma_insert_time_ordered(queue: Seq<Order>, k: int, order: Order)
    requires
        0 <= k <= queue.len(),
        time_ordered(queue),
        none_after(queue, order.timestamp),
        forall|i: int| 0 <= i < queue.len() ==> (#[trigger] queue[i]).id < order.id,
    ensures
        time_ordered(queue.insert(k, order)),
{
    let after = queue.insert(k, order);
    assert forall|i: int, j: int|
        0 <= i < after.len() && 0 <= j < after.len() && (#[trigger] after[i]).id < (
        #[trigger] after[j]).id implies after[i].timestamp <= after[j].timestamp by {}
}

/// An order whose id is above every id of the book brings no id into the
/// book twice, whichever queue it joins and wherever.
proof fn lemma_insert_distinct(buys: Seq<Order>, sells: Seq<Order>, k: int, order: Order)
    requires
        distinct_ids(buys, sells),
        forall|i: int| 0 <= i < buys.len() ==> (#[trigger] buys[i]).id < order.id,
        forall|i: int| 0 <= i < sells.len() ==> (#[trigger] sells[i]).id < order.id,
    ensures
        0 <= k <= buys.len() ==> distinct_ids(buys.insert(k, order), sells),
        0 <= k <= sells.len() ==> distinct_ids(buys, sells.insert(k, order)),
{
}

/// Filling the head of either queue brings no id into the book twice.
proof fn lemma_after_fill_distinct(buys: Seq<Order>, sells: Seq<Order>, quantity: u32)
    requires
        distinct_ids(buys, sells),
    ensures
        buys.len() > 0 ==> distinct_ids(after_fill(buys, quantity), sells),
        sells.len() > 0 ==> distinct_ids(buys, after_fill(sells, quantity)),
{
}

/// The level of a queue that has grown by one order at its end.
proof fn lemma_level_push(queue: Seq<Order>, o: Order, price: Price)
    ensures
        level(queue.push(o), price) == if o.price == price {
            level(queue, price).push(o)
        } else {
            level(queue, price)
        },
{
    queue.lemma_filter_push(o, |o: Order| o.price == price);
}

/// The price levels of a queue that has grown by one order at its end.
proof fn lemma_levels_push(queue: Seq<Order>, o: Order)
    ensures
        levels(queue.push(o)) == levels(queue).insert(o.price),
        levels(queue).finite(),
{
    let f = |o: Order| o.price;
    queue.lemma_push_map_commute(f, o);
    queue.map_values(f).lemma_push_to_set_commute(o.price);
}

} // verus!
