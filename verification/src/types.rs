//! The exchange-agnostic protocol entities: sides, orders, acknowledgments,
//! notifications, and the symbol they are priced in.

use vstd::prelude::*;
use crate::tick::Tick;

verus! {

use crate::frame::str_eq;

/// A wall-clock timestamp in milliseconds.
pub type Timestamp = u64;

/// A price expressed as a count of price ticks of a specific symbol.
pub type Price = i64;

/// A size expressed as a count of size ticks of a specific symbol.
pub type Size = i64;

/// The side of an order or a quote.
#[derive(Copy, Clone, PartialEq, Eq, Structural, Hash, Debug)]
pub enum Side {
    Bid,
    Ask,
}

impl Side {
    /// The wire word for this side on request paths.
    pub fn as_str(&self) -> (r: &'static str)
        ensures
            self is Bid ==> r@ == "BUY"@,
            self is Ask ==> r@ == "SELL"@,
    {
        match self {
            Side::Bid => "BUY",
            Side::Ask => "SELL",
        }
    }
}

/// How long an order stays working.
#[derive(Copy, Clone, PartialEq, Eq, Structural, Hash, Debug)]
pub enum TimeInForce {
    GoodTilCanceled,
    ImmediateOrCancel,
    FillOrKill,
}

impl TimeInForce {
    /// The wire word for this policy on request paths.
    pub fn as_str(&self) -> (r: &'static str)
        ensures
            self is GoodTilCanceled ==> r@ == "GTC"@,
            self is ImmediateOrCancel ==> r@ == "IOC"@,
            self is FillOrKill ==> r@ == "FOK"@,
    {
        match self {
            TimeInForce::GoodTilCanceled => "GTC",
            TimeInForce::ImmediateOrCancel => "IOC",
            TimeInForce::FillOrKill => "FOK",
        }
    }
}

/// A value carrying the timestamp at which it was observed.
#[derive(Copy, Clone, PartialEq, Eq, Hash, Debug)]
pub struct Timestamped<T> {
    pub timestamp: Timestamp,
    pub inner: T,
}

impl<T> Timestamped<T> {
    /// Registered timestamp.
    pub fn timestamp(&self) -> (r: Timestamp)
        ensures
            r == self.timestamp,
    {
        self.timestamp
    }

    /// Return the wrapped value.
    pub fn into_inner(self) -> (r: T)
        ensures
            r == self.inner,
    {
        self.inner
    }
}

/// Wraps `inner` with the given timestamp.
pub fn with_timestamp<T>(inner: T, timestamp: Timestamp) -> (r: Timestamped<T>)
    ensures
        r.inner == inner,
        r.timestamp == timestamp,
{
    Timestamped { timestamp, inner }
}

/// An instrument: its exchange name and the resolutions its prices and
/// sizes are counted in. Immutable once resolved.
#[derive(Clone, PartialEq, Eq, Hash, Debug)]
pub struct Symbol {
    pub name: String,
    pub price_tick: Tick,
    pub size_tick: Tick,
}

impl Symbol {
    /// Both resolutions are representable.
    pub open spec fn valid(self) -> bool {
        self.price_tick.valid() && self.size_tick.valid()
    }

    pub fn new(name: String, price_tick: Tick, size_tick: Tick) -> (r: Symbol)
        ensures
            r.name == name,
            r.price_tick == price_tick,
            r.size_tick == size_tick,
    {
        Symbol { name, price_tick, size_tick }
    }

    /// The exchange's name for the instrument.
    pub fn name(&self) -> (r: &str)
        ensures
            r@ == self.name@,
    {
        self.name.as_str()
    }

    /// The price resolution.
    pub fn price_tick(&self) -> (r: Tick)
        ensures
            r == self.price_tick,
    {
        self.price_tick
    }

    /// The size resolution.
    pub fn size_tick(&self) -> (r: Tick)
        ensures
            r == self.size_tick,
    {
        self.size_tick
    }

    /// Tests the validity of both resolutions, so that unverified callers
    /// can refuse a symbol outside the library's contracts.
    pub fn check(&self) -> (r: bool)
        ensures
            r == self.valid(),
    {
        self.price_tick.exp <= 18 && self.size_tick.exp <= 18
    }
}

/// The resolved symbols of an exchange, keyed by lowercase name; built
/// once when a client is constructed and immutable afterwards.
pub struct SymbolTable {
    pub entries: Vec<(String, Symbol)>,
}

impl SymbolTable {
    pub fn new() -> (r: SymbolTable)
        ensures
            r.entries@.len() == 0,
    {
        SymbolTable { entries: Vec::new() }
    }

    /// Records a symbol under its lowercase name.
    pub fn insert(&mut self, name_lower: String, symbol: Symbol)
        ensures
            final(self).entries@ == old(self).entries@.push((name_lower, symbol)),
    {
        self.entries.push((name_lower, symbol));
    }

    /// The symbol recorded under `name_lower`, or `None` when no entry
    /// carries that name.
    pub fn find_symbol(&self, name_lower: &str) -> (r: Option<Symbol>)
        ensures
            match r {
                Some(sym) => exists|i: int|
                    0 <= i < self.entries@.len() && (#[trigger] self.entries@[i]).0@ == name_lower@
                        && self.entries@[i].1 == sym,
                None => forall|i: int|
                    0 <= i < self.entries@.len() ==> (#[trigger] self.entries@[i]).0@
                        != name_lower@,
            },
    {
        let mut i: usize = 0;
        while i < self.entries.len()
            invariant
                i <= self.entries@.len(),
                forall|j: int|
                    0 <= j < i ==> (#[trigger] self.entries@[j]).0@ != name_lower@,
            decreases self.entries@.len() - i,
        {
            if str_eq(self.entries[i].0.as_str(), name_lower) {
                let found = &self.entries[i].1;
                let sym = Symbol {
                    name: found.name.clone(),
                    price_tick: found.price_tick,
                    size_tick: found.size_tick,
                };
                proof {
                    assert(self.entries@[i as int].1 == sym);
                }
                return Some(sym);
            }
            i = i + 1;
        }
        None
    }
}

/// An order to be sent through the API.
#[derive(Clone, PartialEq, Eq, Hash, Debug)]
pub struct Order {
    pub price: Price,
    pub size: Size,
    pub side: Side,
    pub time_in_force: TimeInForce,
    pub time_window: u64,
    pub order_id: Option<String>,
}

impl Order {
    /// Return a new `Order` at `price` and `size`, buying when `side` is
    /// `Bid` and selling when it is `Ask`; good till canceled, with a five
    /// second time window and no caller-supplied id.
    pub fn new(price: Price, size: Size, side: Side) -> (r: Order)
        ensures
            r.price == price,
            r.size == size,
            r.side == side,
            r.time_in_force is GoodTilCanceled,
            r.time_window == 5000,
            r.order_id is None,
    {
        Order {
            price,
            size,
            side,
            time_in_force: TimeInForce::GoodTilCanceled,
            time_window: 5000,
            order_id: None,
        }
    }

    /// Replace the time in force.
    pub fn time_in_force(self, time_in_force: TimeInForce) -> (r: Order)
        ensures
            r == (Order { time_in_force, ..self }),
    {
        Order { time_in_force, ..self }
    }

    /// Replace the delay until the order becomes invalid if not treated by
    /// the server, in ms.
    pub fn time_window(self, time_window: u64) -> (r: Order)
        ensures
            r == (Order { time_window, ..self }),
    {
        Order { time_window, ..self }
    }

    /// Set the unique id used to identify this order; generated by the
    /// exchange adapter when left unset.
    pub fn order_id(self, order_id: String) -> (r: Order)
        ensures
            r == (Order { order_id: Some(order_id), ..self }),
    {
        Order { order_id: Some(order_id), ..self }
    }
}

/// An order to cancel a previous order.
#[derive(Clone, PartialEq, Eq, Hash, Debug)]
pub struct Cancel {
    pub order_id: String,
    pub time_window: u64,
}

impl Cancel {
    /// Return a new `Cancel` for the order named `order_id`, with a five
    /// second time window.
    pub fn new(order_id: String) -> (r: Cancel)
        ensures
            r.order_id == order_id,
            r.time_window == 5000,
    {
        Cancel { order_id, time_window: 5000 }
    }

    /// Replace the delay until the cancel becomes invalid if not treated by
    /// the server, in ms.
    pub fn time_window(self, time_window: u64) -> (r: Cancel)
        ensures
            r == (Cancel { time_window, ..self }),
    {
        Cancel { time_window, ..self }
    }
}

/// An acknowledgment that an order has been treated by the server.
#[derive(Clone, PartialEq, Eq, Hash, Debug)]
pub struct OrderAck {
    /// ID identifying the order.
    pub order_id: String,
}

/// An acknowledgment that a cancel order has been treated by the server.
#[derive(Clone, PartialEq, Eq, Hash, Debug)]
pub struct CancelAck {
    /// ID identifying the canceled order.
    pub order_id: String,
}

/// A notification that an exchange received an order.
#[derive(Clone, PartialEq, Eq, Hash, Debug)]
pub struct OrderConfirmation {
    /// Unique order id.
    pub order_id: String,
    /// Price at which the order was inserted, in price ticks.
    pub price: Price,
    /// Size at which the order was inserted, in size ticks.
    pub size: Size,
    /// Side of the order.
    pub side: Side,
}

/// A notification that a trade crossed through a tracked order.
#[derive(Clone, PartialEq, Eq, Hash, Debug)]
pub struct OrderUpdate {
    /// ID identifying the order being updated.
    pub order_id: String,
    /// Size just consumed by the last trade, in size ticks.
    pub consumed_size: Size,
    /// Total remaining size for this order: always the size at insertion
    /// minus the sizes consumed so far.
    pub remaining_size: Size,
    /// Price at which the last trade happened, in price ticks.
    pub consumed_price: Price,
    /// Commission amount charged for the trade.
    pub commission: Size,
}

/// A liquidity-consuming public trade.
#[derive(Copy, Clone, PartialEq, Eq, Hash, Debug)]
pub struct Trade {
    /// Price in price ticks.
    pub price: Price,
    /// Size consumed by the trade, in size ticks.
    pub size: Size,
    /// Side of the maker: `Ask` when the consumer bought from the maker,
    /// `Bid` when the consumer sold to the maker.
    pub maker_side: Side,
}

/// A notification that an order is no longer live: it was canceled.
#[derive(Clone, PartialEq, Eq, Hash, Debug)]
pub struct OrderExpiration {
    /// Expired order.
    pub order_id: String,
}

/// One order-book level delta; a size of zero removes the level.
#[derive(Clone, PartialEq, Eq, Hash, Debug)]
pub struct LimitUpdate {
    pub side: Side,
    pub price: Price,
    pub size: Size,
}

/// A normalized event pushed to the consumer of a stream.
#[derive(Clone, PartialEq, Eq, Debug)]
pub enum Notification {
    /// A trade was executed.
    Trade(Timestamped<Trade>),
    /// The limit order book has changed and should be updated.
    LimitUpdates(Vec<Timestamped<LimitUpdate>>),
    /// An order was received by the exchange.
    OrderConfirmation(Timestamped<OrderConfirmation>),
    /// An order has been updated by a trade.
    OrderUpdate(Timestamped<OrderUpdate>),
    /// An order has expired or was canceled.
    OrderExpiration(Timestamped<OrderExpiration>),
}

/// A bit set selecting which categories of events a stream delivers, and
/// which wire channels are subscribed for them.
#[derive(Copy, Clone, PartialEq, Eq, Structural, Hash, Debug)]
pub struct NotificationFlags {
    /// Deliver order-book level deltas.
    pub order_book: bool,
    /// Deliver public trades.
    pub trades: bool,
    /// Deliver the lifecycle of the caller's own orders.
    pub orders: bool,
}

impl NotificationFlags {
    /// A flag set selecting exactly the named categories.
    pub fn new(order_book: bool, trades: bool, orders: bool) -> (r: NotificationFlags)
        ensures
            r.order_book == order_book,
            r.trades == trades,
            r.orders == orders,
    {
        NotificationFlags { order_book, trades, orders }
    }

    /// Every category.
    pub fn all() -> (r: NotificationFlags)
        ensures
            r.order_book && r.trades && r.orders,
    {
        NotificationFlags { order_book: true, trades: true, orders: true }
    }
}

/// Generate an order id from the caller's hint. This exchange accepts
/// caller-supplied ids verbatim, so the hint itself is the id and two
/// generated ids are equal only when their hints are.
pub fn new_order_id(hint: &str) -> (r: String)
    ensures
        r@ == hint@,
{
    hint.to_owned()
}

} // verus!
