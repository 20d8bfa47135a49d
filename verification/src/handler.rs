//! The stream handler's protocol state machine: decoded frames go in,
//! normalized notifications come out.
//!
//! The whole dispatch table is the spec function [`sp_handle`]: one case
//! per frame tag, each gated by the notification flags. The executable
//! [`Handler::handle_message`] is proved to behave exactly as `sp_handle`
//! says on the decoded form of its input. The laws about the machine —
//! one-way subscription state, flag filtering, exact remaining sizes —
//! are proved about `sp_handle` below.

use vstd::prelude::*;
use crate::errors::{ConversionError, Error};
use crate::frame::{Frame, SpFrame, decode_frame, sp_decode_frame, frame_view, str_eq};
use crate::registry::OrderIdRegistry;
use crate::tick::{spec_ticked, decimal_shape, precision_ok};
use crate::timestamp::sp_iso_ms;
use crate::types::{
    LimitUpdate, Notification, NotificationFlags, OrderConfirmation, OrderExpiration, OrderUpdate,
    Side, Symbol, Timestamped, Trade, with_timestamp,
};

verus! {

/// Whether the subscription handshake has been acknowledged. The machine
/// only ever moves from `NotSubscribed` to `Subscribed`.
#[derive(Copy, Clone, PartialEq, Eq, Structural, Hash, Debug)]
pub enum SubscriptionState {
    NotSubscribed,
    Subscribed,
}

/// View of a tracked order.
pub struct SpConf {
    pub order_id: Seq<char>,
    pub price: i64,
    pub size: i64,
    pub side: Side,
}

/// View of a notification: for an order update, the timestamp, order id,
/// consumed size, remaining size, consumed price and commission.
pub enum SpNotif {
    Trade(u64, Trade),
    LimitUpdates(Seq<Timestamped<LimitUpdate>>),
    Confirm(u64, SpConf),
    Update(u64, Seq<char>, i64, i64, i64, i64),
    Expire(u64, Seq<char>),
}

pub open spec fn conf_view(c: OrderConfirmation) -> SpConf {
    SpConf { order_id: c.order_id@, price: c.price, size: c.size, side: c.side }
}

pub open spec fn notif_view(n: Notification) -> SpNotif {
    match n {
        Notification::Trade(t) => SpNotif::Trade(t.timestamp, t.inner),
        Notification::LimitUpdates(us) => SpNotif::LimitUpdates(us@),
        Notification::OrderConfirmation(t) => SpNotif::Confirm(t.timestamp, conf_view(t.inner)),
        Notification::OrderUpdate(t) => SpNotif::Update(
            t.timestamp,
            t.inner.order_id@,
            t.inner.consumed_size,
            t.inner.remaining_size,
            t.inner.consumed_price,
            t.inner.commission,
        ),
        Notification::OrderExpiration(t) => SpNotif::Expire(t.timestamp, t.inner.order_id@),
    }
}

pub open spec fn notifs_view(v: Seq<Notification>) -> Seq<SpNotif> {
    v.map_values(|n: Notification| notif_view(n))
}

pub open spec fn orders_view(v: Seq<(String, OrderConfirmation)>) -> Seq<(Seq<char>, SpConf)> {
    v.map_values(|p: (String, OrderConfirmation)| (p.0@, conf_view(p.1)))
}

/// The error kind of an outcome. A protocol violation carries the message
/// owed to the caller: the exchange's own words for an error frame, or
/// `None` where only the kind is fixed (an over-consuming match).
pub enum SpErr {
    Decode,
    Conv(ConversionError),
    Protocol(Option<Seq<char>>),
}

/// An outcome of one frame: the subscription state, the tracked orders and
/// the notifications after it, or an error beside the state it leaves.
pub type SpOutcome = Result<
    (bool, Seq<(Seq<char>, SpConf)>, Seq<SpNotif>),
    (SpErr, bool, Seq<(Seq<char>, SpConf)>),
>;

/// Which error `ticked` reports for `s`.
pub open spec fn sp_conv_err(s: Seq<char>, e: nat) -> ConversionError {
    if !decimal_shape(s) {
        ConversionError::NotParseable
    } else if !precision_ok(s, e) {
        ConversionError::TooPrecise
    } else {
        ConversionError::Overflow
    }
}

/// The side a wire word names.
pub open spec fn side_of(s: Seq<char>) -> Option<Side> {
    if s == "buy"@ {
        Some(Side::Bid)
    } else if s == "sell"@ {
        Some(Side::Ask)
    } else {
        None
    }
}

/// Book levels of one side, converted to ticks; the first conversion
/// failure decides the error.
pub open spec fn sp_levels(
    pairs: Seq<(Seq<char>, Seq<char>)>,
    side: Side,
    pexp: nat,
    sexp: nat,
    now: u64,
    i: int,
    acc: Seq<Timestamped<LimitUpdate>>,
) -> Result<Seq<Timestamped<LimitUpdate>>, ConversionError>
    decreases pairs.len() - i when 0 <= i <= pairs.len()
{
    if i >= pairs.len() {
        Ok(acc)
    } else {
        match spec_ticked(pairs[i].0, pexp) {
            None => Err(sp_conv_err(pairs[i].0, pexp)),
            Some(p) => match spec_ticked(pairs[i].1, sexp) {
                None => Err(sp_conv_err(pairs[i].1, sexp)),
                Some(sz) => sp_levels(
                    pairs,
                    side,
                    pexp,
                    sexp,
                    now,
                    i + 1,
                    acc.push(
                        Timestamped {
                            timestamp: now,
                            inner: LimitUpdate { side, price: p as i64, size: sz as i64 },
                        },
                    ),
                ),
            },
        }
    }
}

/// Book deltas `(side, price, size)`, converted to ticks.
pub open spec fn sp_changes(
    triples: Seq<(Seq<char>, Seq<char>, Seq<char>)>,
    pexp: nat,
    sexp: nat,
    now: u64,
    i: int,
    acc: Seq<Timestamped<LimitUpdate>>,
) -> Result<Seq<Timestamped<LimitUpdate>>, Error>
    decreases triples.len() - i when 0 <= i <= triples.len()
{
    if i >= triples.len() {
        Ok(acc)
    } else {
        match side_of(triples[i].0) {
            None => Err(Error::Decode),
            Some(side) => match spec_ticked(triples[i].1, pexp) {
                None => Err(Error::Conversion(sp_conv_err(triples[i].1, pexp))),
                Some(p) => match spec_ticked(triples[i].2, sexp) {
                    None => Err(Error::Conversion(sp_conv_err(triples[i].2, sexp))),
                    Some(sz) => sp_changes(
                        triples,
                        pexp,
                        sexp,
                        now,
                        i + 1,
                        acc.push(
                            Timestamped {
                                timestamp: now,
                                inner: LimitUpdate { side, price: p as i64, size: sz as i64 },
                            },
                        ),
                    ),
                },
            },
        }
    }
}

/// Index of the tracked order keyed by the exchange id `key`.
pub open spec fn sp_find_order(ov: Seq<(Seq<char>, SpConf)>, key: Seq<char>, i: int) -> Option<int>
    decreases ov.len() - i when 0 <= i <= ov.len()
{
    if i >= ov.len() {
        None
    } else if ov[i].0 == key {
        Some(i)
    } else {
        sp_find_order(ov, key, i + 1)
    }
}

/// One leg of a match against the tracked orders: an untracked id changes
/// nothing; a tracked one has `consumed` taken from its remaining size and
/// an update emitted; consuming more than remains is a protocol violation
/// (`None`).
pub open spec fn sp_match_step(
    ov: Seq<(Seq<char>, SpConf)>,
    oid: Seq<char>,
    consumed: i64,
    price: i64,
    now: u64,
) -> Option<(Seq<(Seq<char>, SpConf)>, Seq<SpNotif>)> {
    match sp_find_order(ov, oid, 0) {
        None => Some((ov, Seq::<SpNotif>::empty())),
        Some(ix) => {
            let ord = ov[ix].1;
            if consumed <= ord.size {
                let remaining = (ord.size - consumed) as i64;
                let ord2 = SpConf { size: remaining, ..ord };
                Some(
                    (
                        ov.update(ix, (ov[ix].0, ord2)),
                        seq![SpNotif::Update(now, ord.order_id, consumed, remaining, price, 0)],
                    ),
                )
            } else {
                None
            }
        },
    }
}

/// Inserting or replacing the tracked order keyed by `key`.
pub open spec fn sp_upsert(
    ov: Seq<(Seq<char>, SpConf)>,
    key: Seq<char>,
    conf: SpConf,
) -> Seq<(Seq<char>, SpConf)> {
    match sp_find_order(ov, key, 0) {
        Some(ix) => ov.update(ix, (key, conf)),
        None => ov.push((key, conf)),
    }
}

/// The dispatch table: what one decoded frame does to the machine, given
/// the subscription state, the tracked orders, the flags, the tick
/// resolutions and the timestamp the notifications carry.
pub open spec fn sp_handle(
    sf: SpFrame,
    sub: bool,
    ov: Seq<(Seq<char>, SpConf)>,
    flags: NotificationFlags,
    pexp: nat,
    sexp: nat,
    now: u64,
) -> SpOutcome {
    match sf {
        SpFrame::SubscribeAck => Ok((true, ov, Seq::<SpNotif>::empty())),
        SpFrame::Snapshot { bids, asks } => {
            if !flags.order_book {
                Ok((sub, ov, Seq::<SpNotif>::empty()))
            } else {
                match sp_levels(bids, Side::Bid, pexp, sexp, now, 0, Seq::empty()) {
                    Err(e) => Err((SpErr::Conv(e), sub, ov)),
                    Ok(lb) => match sp_levels(asks, Side::Ask, pexp, sexp, now, 0, Seq::empty()) {
                        Err(e) => Err((SpErr::Conv(e), sub, ov)),
                        Ok(la) => Ok((sub, ov, seq![SpNotif::LimitUpdates(lb + la)])),
                    },
                }
            }
        },
        SpFrame::L2Update { changes } => {
            if !flags.order_book {
                Ok((sub, ov, Seq::<SpNotif>::empty()))
            } else {
                match sp_changes(changes, pexp, sexp, now, 0, Seq::empty()) {
                    Err(Error::Decode) => Err((SpErr::Decode, sub, ov)),
                    Err(Error::Conversion(e)) => Err((SpErr::Conv(e), sub, ov)),
                    Err(_) => Err((SpErr::Decode, sub, ov)),
                    Ok(us) => if us.len() == 0 {
                        Ok((sub, ov, Seq::<SpNotif>::empty()))
                    } else {
                        Ok((sub, ov, seq![SpNotif::LimitUpdates(us)]))
                    },
                }
            }
        },
        SpFrame::Match { time, size, price, side, maker_order_id, taker_order_id, profile_id } => {
            if !flags.trades && !flags.orders {
                Ok((sub, ov, Seq::<SpNotif>::empty()))
            } else {
                match sp_iso_ms(time) {
                None => Err((SpErr::Decode, sub, ov)),
                Some(ts) => match spec_ticked(size, sexp) {
                    None => Err((SpErr::Conv(sp_conv_err(size, sexp)), sub, ov)),
                    Some(c) => match spec_ticked(price, pexp) {
                        None => Err((SpErr::Conv(sp_conv_err(price, pexp)), sub, ov)),
                        Some(p) => {
                            let own = flags.orders && profile_id is Some;
                            let step1 = if own {
                                sp_match_step(ov, taker_order_id, c as i64, p as i64, ts)
                            } else {
                                Some((ov, Seq::<SpNotif>::empty()))
                            };
                            match step1 {
                                None => Err((SpErr::Protocol(None), sub, ov)),
                                Some((ov1, n1)) => {
                                    let step2 = if own {
                                        sp_match_step(ov1, maker_order_id, c as i64, p as i64, ts)
                                    } else {
                                        Some((ov1, Seq::<SpNotif>::empty()))
                                    };
                                    match step2 {
                                        None => Err((SpErr::Protocol(None), sub, ov1)),
                                        Some((ov2, n2)) => {
                                            if flags.trades {
                                                match side_of(side) {
                                                    None => Err((SpErr::Decode, sub, ov2)),
                                                    Some(ms) => Ok(
                                                        (
                                                            sub,
                                                            ov2,
                                                            n1 + n2 + seq![
                                                                SpNotif::Trade(
                                                                    ts,
                                                                    Trade {
                                                                        price: p as i64,
                                                                        size: c as i64,
                                                                        maker_side: ms,
                                                                    },
                                                                ),
                                                            ],
                                                        ),
                                                    ),
                                                }
                                            } else {
                                                Ok((sub, ov2, n1 + n2))
                                            }
                                        },
                                    }
                                },
                            }
                        },
                    },
                },
                }
            }
        },
        SpFrame::Received { time, client_oid, order_id, size, price, side } => {
            if !flags.orders {
                Ok((sub, ov, Seq::<SpNotif>::empty()))
            } else {
                match sp_iso_ms(time) {
                None => Err((SpErr::Decode, sub, ov)),
                Some(ts) => match spec_ticked(size, sexp) {
                    None => Err((SpErr::Conv(sp_conv_err(size, sexp)), sub, ov)),
                    Some(sz) => match spec_ticked(price, pexp) {
                        None => Err((SpErr::Conv(sp_conv_err(price, pexp)), sub, ov)),
                        Some(p) => match side_of(side) {
                            None => Err((SpErr::Decode, sub, ov)),
                            Some(sd) => {
                                let oid = match client_oid {
                                    Some(c) => c,
                                    None => order_id,
                                };
                                let conf = SpConf {
                                    order_id: oid,
                                    price: p as i64,
                                    size: sz as i64,
                                    side: sd,
                                };
                                Ok(
                                    (
                                        sub,
                                        sp_upsert(ov, order_id, conf),
                                        seq![SpNotif::Confirm(ts, conf)],
                                    ),
                                )
                            },
                        },
                    },
                },
                }
            }
        },
        SpFrame::Done { reason, order_id, time } => {
            if !flags.orders {
                Ok((sub, ov, Seq::<SpNotif>::empty()))
            } else {
                match sp_iso_ms(time) {
                    None => Err((SpErr::Decode, sub, ov)),
                    Some(ts) => {
                        if reason != "canceled"@ {
                            Ok((sub, ov, Seq::<SpNotif>::empty()))
                        } else {
                            match sp_find_order(ov, order_id, 0) {
                                None => Ok((sub, ov, Seq::<SpNotif>::empty())),
                                Some(ix) => Ok(
                                    (sub, ov, seq![SpNotif::Expire(ts, ov[ix].1.order_id)]),
                                ),
                            }
                        }
                    },
                }
            }
        },
        SpFrame::ErrorFrame { message } => Err((SpErr::Protocol(Some(message)), sub, ov)),
        SpFrame::Other => Ok((sub, ov, Seq::<SpNotif>::empty())),
    }
}

/// Every notification respects the flags that gate its category.
pub open spec fn sp_flag_filtered(ns: Seq<SpNotif>, flags: NotificationFlags) -> bool {
    forall|i: int|
        0 <= i < ns.len() ==> (match #[trigger] ns[i] {
            SpNotif::Trade(_, _) => flags.trades,
            SpNotif::LimitUpdates(_) => flags.order_book,
            SpNotif::Confirm(_, _) => flags.orders,
            SpNotif::Update(_, _, _, _, _, _) => flags.orders,
            SpNotif::Expire(_, _) => flags.orders,
        })
}

/// Tracked remaining sizes are never negative.
pub open spec fn sp_orders_wf(ov: Seq<(Seq<char>, SpConf)>) -> bool {
    forall|i: int| 0 <= i < ov.len() ==> 0 <= (#[trigger] ov[i]).1.size
}

/// The per-connection stream handler: flags and symbol fixed at
/// construction, the subscription state and the tracked orders owned by
/// the connection, the order-id registry shared with the request path.
pub struct Handler {
    pub symbol: Symbol,
    pub flags: NotificationFlags,
    pub state: SubscriptionState,
    pub orders: Vec<(String, OrderConfirmation)>,
    pub registry: OrderIdRegistry,
}

impl Handler {
    /// The symbol's resolutions are representable and no tracked size is
    /// negative.
    pub open spec fn wf(self) -> bool {
        self.symbol.valid() && sp_orders_wf(orders_view(self.orders@))
    }

    pub fn new(symbol: Symbol, flags: NotificationFlags, registry: OrderIdRegistry) -> (r: Handler)
        requires
            symbol.valid(),
        ensures
            r.wf(),
            r.symbol == symbol,
            r.flags == flags,
            r.state is NotSubscribed,
            r.orders@.len() == 0,
            r.registry == registry,
    {
        let h = Handler {
            symbol,
            flags,
            state: SubscriptionState::NotSubscribed,
            orders: Vec::new(),
            registry,
        };
        proof {
            assert(orders_view(h.orders@) =~= Seq::<(Seq<char>, SpConf)>::empty());
        }
        h
    }

    /// Handles one inbound frame text: decodes it and dispatches exactly as
    /// [`sp_handle`] says, pushing the mapping of a newly confirmed order
    /// into the shared registry on the way. Order events carry the
    /// exchange's own time; `now_ms` stamps the book events, whose frames
    /// name none. Undecodable text is a fatal `Decode` error; an explicit
    /// error frame is a fatal `Protocol` error carrying the exchange's
    /// message.
    #[verifier::rlimit(100)]
    #[verifier::spinoff_prover]
    pub fn handle_message(&mut self, text: &str, now_ms: u64) -> (r: Result<Vec<Notification>, Error>)
        requires
            old(self).wf(),
        ensures
            final(self).wf(),
            final(self).symbol == old(self).symbol,
            final(self).flags == old(self).flags,
            final(self).registry == old(self).registry,
            match sp_decode_frame(text@, old(self).flags) {
                None => r == Err::<Vec<Notification>, Error>(Error::Decode) && final(self).state
                    == old(self).state && final(self).orders == old(self).orders,
                Some(sf) => {
                    let out = sp_handle(
                        sf,
                        old(self).state is Subscribed,
                        orders_view(old(self).orders@),
                        old(self).flags,
                        old(self).symbol.price_tick.spec_exp(),
                        old(self).symbol.size_tick.spec_exp(),
                        now_ms,
                    );
                    match out {
                        Ok((sub2, ov2, ns)) => {
                            &&& r matches Ok(v) && notifs_view(v@) == ns
                            &&& (final(self).state is Subscribed) == sub2
                            &&& orders_view(final(self).orders@) == ov2
                        },
                        Err((kind, sub2, ov2)) => {
                            &&& match kind {
                                SpErr::Decode => r == Err::<Vec<Notification>, Error>(
                                    Error::Decode,
                                ),
                                SpErr::Conv(e) => r == Err::<Vec<Notification>, Error>(
                                    Error::Conversion(e),
                                ),
                                SpErr::Protocol(m) => match m {
                                    Some(text) => r matches Err(Error::Protocol(msg)) && msg@
                                        == text,
                                    None => r matches Err(Error::Protocol(_)),
                                },
                            }
                            &&& (final(self).state is Subscribed) == sub2
                            &&& orders_view(final(self).orders@) == ov2
                        },
                    }
                },
            },
    {
        let frame = match decode_frame(text, self.flags) {
            Ok(f) => f,
            Err(e) => {
                return Err(e);
            },
        };
        self.handle_frame(frame, now_ms)
    }

    /// Dispatches one decoded frame; the behavior is [`sp_handle`] on the
    /// frame's view.
    #[verifier::rlimit(100)]
    #[verifier::spinoff_prover]
    pub fn handle_frame(&mut self, frame: Frame, now_ms: u64) -> (r: Result<Vec<Notification>, Error>)
        requires
            old(self).wf(),
        ensures
            final(self).wf(),
            final(self).symbol == old(self).symbol,
            final(self).flags == old(self).flags,
            final(self).registry == old(self).registry,
            ({
                let out = sp_handle(
                    frame_view(frame),
                    old(self).state is Subscribed,
                    orders_view(old(self).orders@),
                    old(self).flags,
                    old(self).symbol.price_tick.spec_exp(),
                    old(self).symbol.size_tick.spec_exp(),
                    now_ms,
                );
                match out {
                    Ok((sub2, ov2, ns)) => {
                        &&& r matches Ok(v) && notifs_view(v@) == ns
                        &&& (final(self).state is Subscribed) == sub2
                        &&& orders_view(final(self).orders@) == ov2
                    },
                    Err((kind, sub2, ov2)) => {
                        &&& match kind {
                            SpErr::Decode => r == Err::<Vec<Notification>, Error>(Error::Decode),
                            SpErr::Conv(e) => r == Err::<Vec<Notification>, Error>(
                                Error::Conversion(e),
                            ),
                            SpErr::Protocol(m) => match m {
                                Some(text) => r matches Err(Error::Protocol(msg)) && msg@ == text,
                                None => r matches Err(Error::Protocol(_)),
                            },
                        }
                        &&& (final(self).state is Subscribed) == sub2
                        &&& orders_view(final(self).orders@) == ov2
                    },
                }
            }),
    {
        match frame {
            Frame::SubscribeAck => {
                // a second acknowledgment is an anomaly, not an error: the
                // state simply stays `Subscribed`
                self.state = SubscriptionState::Subscribed;
                Ok(no_notifs())
            },
            Frame::Snapshot { bids, asks } => {
                if !self.flags.order_book {
                    return Ok(no_notifs());
                }
                proof {
                    lemma_levels_acc(
                        crate::frame::pairs_view(asks@),
                        Side::Ask,
                        self.symbol.price_tick.spec_exp(),
                        self.symbol.size_tick.spec_exp(),
                        now_ms,
                    );
                }
                let empty_acc: Vec<Timestamped<LimitUpdate>> = Vec::new();
                let lb = match convert_levels(&bids, Side::Bid, &self.symbol, now_ms, empty_acc) {
                    Ok(v) => v,
                    Err(e) => {
                        return Err(Error::Conversion(e));
                    },
                };
                let both = match convert_levels(&asks, Side::Ask, &self.symbol, now_ms, lb) {
                    Ok(v) => v,
                    Err(e) => {
                        return Err(Error::Conversion(e));
                    },
                };
                let mut ns: Vec<Notification> = Vec::new();
                let n = Notification::LimitUpdates(both);
                proof {
                    assert(notifs_view(ns@.push(n)) =~= seq![notif_view(n)]);
                }
                ns.push(n);
                Ok(ns)
            },
            Frame::L2Update { changes } => {
                if !self.flags.order_book {
                    return Ok(no_notifs());
                }
                let us = match convert_changes(&changes, &self.symbol, now_ms) {
                    Ok(v) => v,
                    Err(Error::Conversion(ce)) => {
                        return Err(Error::Conversion(ce));
                    },
                    Err(_) => {
                        return Err(Error::Decode);
                    },
                };
                if us.len() == 0 {
                    return Ok(no_notifs());
                }
                let mut ns: Vec<Notification> = Vec::new();
                let n = Notification::LimitUpdates(us);
                proof {
                    assert(notifs_view(ns@.push(n)) =~= seq![notif_view(n)]);
                }
                ns.push(n);
                Ok(ns)
            },
            Frame::Match {
                time,
                size,
                price,
                side,
                maker_order_id,
                taker_order_id,
                profile_id,
            } => {
                if !self.flags.trades && !self.flags.orders {
                    return Ok(no_notifs());
                }
                let ts = match crate::timestamp::iso_to_ms(time.as_str()) {
                    Some(v) => v,
                    None => {
                        return Err(Error::Decode);
                    },
                };
                let c = match self.symbol.size_tick.ticked(size.as_str()) {
                    Ok(v) => v,
                    Err(e) => {
                        return Err(Error::Conversion(e));
                    },
                };
                let p = match self.symbol.price_tick.ticked(price.as_str()) {
                    Ok(v) => v,
                    Err(e) => {
                        return Err(Error::Conversion(e));
                    },
                };
                let mut out: Vec<Notification>;
                if self.flags.orders && profile_id.is_some() {
                    out = match apply_own_match(
                        &mut self.orders,
                        taker_order_id.as_str(),
                        maker_order_id.as_str(),
                        c,
                        p,
                        ts,
                    ) {
                        Ok(v) => v,
                        Err(e) => {
                            return Err(e);
                        },
                    };
                } else {
                    out = no_notifs();
                    proof {
                        assert(Seq::<SpNotif>::empty() + Seq::<SpNotif>::empty()
                            =~= Seq::<SpNotif>::empty());
                    }
                }
                if self.flags.trades {
                    let ms = match convert_side(side.as_str()) {
                        Some(sd) => sd,
                        None => {
                            return Err(Error::Decode);
                        },
                    };
                    let t = Trade { price: p, size: c, maker_side: ms };
                    let n = Notification::Trade(with_timestamp(t, ts));
                    proof {
                        assert(notifs_view(out@.push(n)) =~= notifs_view(out@) + seq![
                            notif_view(n),
                        ]);
                    }
                    out.push(n);
                }
                Ok(out)
            },
            Frame::Received { time, client_oid, order_id, size, price, side } => {
                if !self.flags.orders {
                    return Ok(no_notifs());
                }
                let ts = match crate::timestamp::iso_to_ms(time.as_str()) {
                    Some(v) => v,
                    None => {
                        return Err(Error::Decode);
                    },
                };
                let sz = match self.symbol.size_tick.ticked(size.as_str()) {
                    Ok(v) => v,
                    Err(e) => {
                        return Err(Error::Conversion(e));
                    },
                };
                let p = match self.symbol.price_tick.ticked(price.as_str()) {
                    Ok(v) => v,
                    Err(e) => {
                        return Err(Error::Conversion(e));
                    },
                };
                let sd = match convert_side(side.as_str()) {
                    Some(v) => v,
                    None => {
                        return Err(Error::Decode);
                    },
                };
                // the caller's id when it gave one, the exchange's id
                // otherwise
                let oid: String = match client_oid {
                    Some(c) => c,
                    None => order_id.clone(),
                };
                // close the race with the request path: publish the mapping
                // as soon as the order is seen on the wire
                self.registry.insert(oid.clone(), order_id.clone());
                let conf = OrderConfirmation {
                    order_id: oid.clone(),
                    price: p,
                    size: sz,
                    side: sd,
                };
                let mut ns: Vec<Notification> = Vec::new();
                let n = Notification::OrderConfirmation(with_timestamp(
                    OrderConfirmation { order_id: oid, price: p, size: sz, side: sd },
                    ts,
                ));
                proof {
                    assert(notifs_view(ns@.push(n)) =~= seq![notif_view(n)]);
                }
                ns.push(n);
                upsert_order(&mut self.orders, order_id, conf);
                Ok(ns)
            },
            Frame::Done { reason, order_id, time } => {
                if !self.flags.orders {
                    return Ok(no_notifs());
                }
                let ts = match crate::timestamp::iso_to_ms(time.as_str()) {
                    Some(v) => v,
                    None => {
                        return Err(Error::Decode);
                    },
                };
                if !str_eq(reason.as_str(), "canceled") {
                    return Ok(no_notifs());
                }
                match find_order(&self.orders, order_id.as_str(), 0) {
                    None => Ok(no_notifs()),
                    Some(ix) => {
                        proof {
                            assert(orders_view(self.orders@)[ix as int] == (
                                self.orders@[ix as int].0@,
                                conf_view(self.orders@[ix as int].1),
                            ));
                        }
                        let tracked_id = self.orders[ix].1.order_id.clone();
                        let mut ns: Vec<Notification> = Vec::new();
                        let n = Notification::OrderExpiration(with_timestamp(
                            OrderExpiration { order_id: tracked_id },
                            ts,
                        ));
                        proof {
                            assert(notifs_view(ns@.push(n)) =~= seq![notif_view(n)]);
                        }
                        ns.push(n);
                        Ok(ns)
                    },
                }
            },
            Frame::ErrorFrame { message } => Err(Error::Protocol(message)),
            Frame::Other => Ok(no_notifs()),
        }
    }
}

/// An empty notification batch.
fn no_notifs() -> (r: Vec<Notification>)
    ensures
        r@.len() == 0,
        notifs_view(r@) == Seq::<SpNotif>::empty(),
{
    let v: Vec<Notification> = Vec::new();
    proof {
        assert(notifs_view(v@) =~= Seq::<SpNotif>::empty());
    }
    v
}

/// Both legs of a match against the caller's own tracked orders: first the
/// taker, then the maker on the map the taker's leg left.
fn apply_own_match(
    orders: &mut Vec<(String, OrderConfirmation)>,
    taker: &str,
    maker: &str,
    consumed: i64,
    price: i64,
    now: u64,
) -> (r: Result<Vec<Notification>, Error>)
    requires
        sp_orders_wf(orders_view(old(orders)@)),
        0 <= consumed,
    ensures
        sp_orders_wf(orders_view(final(orders)@)),
        match sp_match_step(orders_view(old(orders)@), taker@, consumed, price, now) {
            None => r matches Err(Error::Protocol(_)) && orders_view(final(orders)@)
                == orders_view(old(orders)@),
            Some((ov1, n1)) => match sp_match_step(ov1, maker@, consumed, price, now) {
                None => r matches Err(Error::Protocol(_)) && orders_view(final(orders)@) == ov1,
                Some((ov2, n2)) => r matches Ok(v) && notifs_view(v@) == n1 + n2 && orders_view(
                    final(orders)@,
                ) == ov2,
            },
        },
{
    let mut out: Vec<Notification> = Vec::new();
    proof {
        assert(notifs_view(out@) =~= Seq::<SpNotif>::empty());
    }
    match apply_match(orders, taker, consumed, price, now) {
        Ok(Some(n)) => {
            proof {
                assert(notifs_view(out@.push(n)) =~= notifs_view(out@) + seq![notif_view(n)]);
                assert(Seq::<SpNotif>::empty() + seq![notif_view(n)] =~= seq![notif_view(n)]);
            }
            out.push(n);
        },
        Ok(None) => {},
        Err(e) => {
            return Err(e);
        },
    }
    let ghost n1 = notifs_view(out@);
    match apply_match(orders, maker, consumed, price, now) {
        Ok(Some(n)) => {
            proof {
                assert(notifs_view(out@.push(n)) =~= notifs_view(out@) + seq![notif_view(n)]);
            }
            out.push(n);
        },
        Ok(None) => {
            proof {
                assert(n1 + Seq::<SpNotif>::empty() =~= n1);
            }
        },
        Err(e) => {
            return Err(e);
        },
    }
    Ok(out)
}

/// The side a wire word names, or `None` for any other word.
pub fn convert_side(side: &str) -> (r: Option<Side>)
    ensures
        r == side_of(side@),
{
    if str_eq(side, "buy") {
        Some(Side::Bid)
    } else if str_eq(side, "sell") {
        Some(Side::Ask)
    } else {
        None
    }
}

pub open spec fn pairs_view_of(v: Seq<(String, String)>) -> Seq<(Seq<char>, Seq<char>)> {
    crate::frame::pairs_view(v)
}

/// Converting with a non-empty accumulator appends to converting alone.
proof fn lemma_levels_acc(
    pairs: Seq<(Seq<char>, Seq<char>)>,
    side: Side,
    pexp: nat,
    sexp: nat,
    now: u64,
)
    ensures
        forall|acc: Seq<Timestamped<LimitUpdate>>, i: int|
            0 <= i <= pairs.len() ==> #[trigger] sp_levels(pairs, side, pexp, sexp, now, i, acc)
                == match sp_levels(pairs, side, pexp, sexp, now, i, Seq::empty()) {
                Ok(tail) => Ok::<Seq<Timestamped<LimitUpdate>>, ConversionError>(acc + tail),
                Err(e) => Err(e),
            },
    decreases pairs.len(),
{
    assert forall|acc: Seq<Timestamped<LimitUpdate>>, i: int| 0 <= i <= pairs.len() implies
        #[trigger] sp_levels(pairs, side, pexp, sexp, now, i, acc) == match sp_levels(
        pairs,
        side,
        pexp,
        sexp,
        now,
        i,
        Seq::empty(),
    ) {
        Ok(tail) => Ok::<Seq<Timestamped<LimitUpdate>>, ConversionError>(acc + tail),
        Err(e) => Err(e),
    } by {
        lemma_levels_acc_one(pairs, side, pexp, sexp, now, i, acc);
    }
}

proof fn lemma_levels_acc_one(
    pairs: Seq<(Seq<char>, Seq<char>)>,
    side: Side,
    pexp: nat,
    sexp: nat,
    now: u64,
    i: int,
    acc: Seq<Timestamped<LimitUpdate>>,
)
    requires
        0 <= i <= pairs.len(),
    ensures
        sp_levels(pairs, side, pexp, sexp, now, i, acc) == match sp_levels(
            pairs,
            side,
            pexp,
            sexp,
            now,
            i,
            Seq::empty(),
        ) {
            Ok(tail) => Ok::<Seq<Timestamped<LimitUpdate>>, ConversionError>(acc + tail),
            Err(e) => Err(e),
        },
    decreases pairs.len() - i,
{
    if i >= pairs.len() {
        assert(acc + Seq::<Timestamped<LimitUpdate>>::empty() =~= acc);
    } else {
        match spec_ticked(pairs[i].0, pexp) {
            None => {},
            Some(p) => match spec_ticked(pairs[i].1, sexp) {
                None => {},
                Some(sz) => {
                    let u = Timestamped {
                        timestamp: now,
                        inner: LimitUpdate { side, price: p as i64, size: sz as i64 },
                    };
                    lemma_levels_acc_one(pairs, side, pexp, sexp, now, i + 1, acc.push(u));
                    lemma_levels_acc_one(pairs, side, pexp, sexp, now, i + 1, seq![u]);
                    match sp_levels(pairs, side, pexp, sexp, now, i + 1, Seq::empty()) {
                        Ok(tail) => {
                            assert(acc.push(u) + tail =~= acc + (seq![u] + tail));
                            assert(Seq::<Timestamped<LimitUpdate>>::empty().push(u) =~= seq![u]);
                        },
                        Err(_) => {},
                    }
                },
            },
        }
    }
}

/// Converts one side of a book snapshot, extending `acc`.
fn convert_levels(
    pairs: &Vec<(String, String)>,
    side: Side,
    symbol: &Symbol,
    now: u64,
    acc: Vec<Timestamped<LimitUpdate>>,
) -> (r: Result<Vec<Timestamped<LimitUpdate>>, ConversionError>)
    requires
        symbol.valid(),
    ensures
        match (
            r,
            sp_levels(
                pairs_view_of(pairs@),
                side,
                symbol.price_tick.spec_exp(),
                symbol.size_tick.spec_exp(),
                now,
                0,
                acc@,
            ),
        ) {
            (Ok(v), Ok(sv)) => v@ == sv,
            (Err(e), Err(se)) => e == se,
            _ => false,
        },
{
    convert_levels_from(pairs, side, symbol, now, 0, acc)
}

fn convert_levels_from(
    pairs: &Vec<(String, String)>,
    side: Side,
    symbol: &Symbol,
    now: u64,
    i: usize,
    acc: Vec<Timestamped<LimitUpdate>>,
) -> (r: Result<Vec<Timestamped<LimitUpdate>>, ConversionError>)
    requires
        symbol.valid(),
        i <= pairs@.len(),
    ensures
        match (
            r,
            sp_levels(
                pairs_view_of(pairs@),
                side,
                symbol.price_tick.spec_exp(),
                symbol.size_tick.spec_exp(),
                now,
                i as int,
                acc@,
            ),
        ) {
            (Ok(v), Ok(sv)) => v@ == sv,
            (Err(e), Err(se)) => e == se,
            _ => false,
        },
    decreases pairs@.len() - i,
{
    if i >= pairs.len() {
        return Ok(acc);
    }
    proof {
        assert(pairs_view_of(pairs@)[i as int] == (pairs@[i as int].0@, pairs@[i as int].1@));
    }
    let p = match symbol.price_tick.ticked(pairs[i].0.as_str()) {
        Ok(v) => v,
        Err(e) => {
            return Err(e);
        },
    };
    let sz = match symbol.size_tick.ticked(pairs[i].1.as_str()) {
        Ok(v) => v,
        Err(e) => {
            return Err(e);
        },
    };
    let u = with_timestamp(LimitUpdate { side, price: p, size: sz }, now);
    let mut acc2 = acc;
    acc2.push(u);
    convert_levels_from(pairs, side, symbol, now, i + 1, acc2)
}

/// Converts the deltas of an `l2update`.
fn convert_changes(triples: &Vec<(String, String, String)>, symbol: &Symbol, now: u64) -> (r:
    Result<Vec<Timestamped<LimitUpdate>>, Error>)
    requires
        symbol.valid(),
    ensures
        match (
            r,
            sp_changes(
                crate::frame::triples_view(triples@),
                symbol.price_tick.spec_exp(),
                symbol.size_tick.spec_exp(),
                now,
                0,
                Seq::empty(),
            ),
        ) {
            (Ok(v), Ok(sv)) => v@ == sv,
            (Err(e), Err(se)) => e == se,
            _ => false,
        },
{
    let empty: Vec<Timestamped<LimitUpdate>> = Vec::new();
    convert_changes_from(triples, symbol, now, 0, empty)
}

fn convert_changes_from(
    triples: &Vec<(String, String, String)>,
    symbol: &Symbol,
    now: u64,
    i: usize,
    acc: Vec<Timestamped<LimitUpdate>>,
) -> (r: Result<Vec<Timestamped<LimitUpdate>>, Error>)
    requires
        symbol.valid(),
        i <= triples@.len(),
    ensures
        match (
            r,
            sp_changes(
                crate::frame::triples_view(triples@),
                symbol.price_tick.spec_exp(),
                symbol.size_tick.spec_exp(),
                now,
                i as int,
                acc@,
            ),
        ) {
            (Ok(v), Ok(sv)) => v@ == sv,
            (Err(e), Err(se)) => e == se,
            _ => false,
        },
    decreases triples@.len() - i,
{
    if i >= triples.len() {
        return Ok(acc);
    }
    proof {
        assert(crate::frame::triples_view(triples@)[i as int] == (
            triples@[i as int].0@,
            triples@[i as int].1@,
            triples@[i as int].2@,
        ));
    }
    let sd = match convert_side(triples[i].0.as_str()) {
        Some(v) => v,
        None => {
            return Err(Error::Decode);
        },
    };
    let p = match symbol.price_tick.ticked(triples[i].1.as_str()) {
        Ok(v) => v,
        Err(e) => {
            return Err(Error::Conversion(e));
        },
    };
    let sz = match symbol.size_tick.ticked(triples[i].2.as_str()) {
        Ok(v) => v,
        Err(e) => {
            return Err(Error::Conversion(e));
        },
    };
    let u = with_timestamp(LimitUpdate { side: sd, price: p, size: sz }, now);
    let mut acc2 = acc;
    acc2.push(u);
    convert_changes_from(triples, symbol, now, i + 1, acc2)
}

/// Index of the tracked order keyed by the exchange id `key`.
fn find_order(orders: &Vec<(String, OrderConfirmation)>, key: &str, i: usize) -> (r: Option<usize>)
    requires
        i <= orders@.len(),
    ensures
        match (r, sp_find_order(orders_view(orders@), key@, i as int)) {
            (Some(ix), Some(sx)) => ix == sx && i <= ix < orders@.len(),
            (None, None) => true,
            _ => false,
        },
    decreases orders@.len() - i,
{
    if i >= orders.len() {
        return None;
    }
    proof {
        assert(orders_view(orders@)[i as int] == (
            orders@[i as int].0@,
            conf_view(orders@[i as int].1),
        ));
    }
    if str_eq(orders[i].0.as_str(), key) {
        Some(i)
    } else {
        find_order(orders, key, i + 1)
    }
}

/// Applies one match leg to the tracked orders, as [`sp_match_step`] says.
fn apply_match(
    orders: &mut Vec<(String, OrderConfirmation)>,
    oid: &str,
    consumed: i64,
    price: i64,
    now: u64,
) -> (r: Result<Option<Notification>, Error>)
    requires
        sp_orders_wf(orders_view(old(orders)@)),
        0 <= consumed,
    ensures
        sp_orders_wf(orders_view(final(orders)@)),
        match sp_match_step(orders_view(old(orders)@), oid@, consumed, price, now) {
            Some((ov2, ns)) => {
                &&& r matches Ok(on)
                &&& orders_view(final(orders)@) == ov2
                &&& match r {
                    Ok(Some(n)) => ns == seq![notif_view(n)],
                    Ok(None) => ns == Seq::<SpNotif>::empty(),
                    Err(_) => false,
                }
            },
            None => r matches Err(Error::Protocol(_)) && orders_view(final(orders)@)
                == orders_view(old(orders)@),
        },
{
    let ghost ov = orders_view(orders@);
    match find_order(orders, oid, 0) {
        None => Ok(None),
        Some(ix) => {
            proof {
                assert(ov[ix as int] == (orders@[ix as int].0@, conf_view(orders@[ix as int].1)));
                assert(0 <= ov[ix as int].1.size);
            }
            let ord = &orders[ix];
            if consumed <= ord.1.size {
                let remaining = ord.1.size - consumed;
                let upd = OrderUpdate {
                    order_id: ord.1.order_id.clone(),
                    consumed_size: consumed,
                    remaining_size: remaining,
                    consumed_price: price,
                    commission: 0,
                };
                let key = ord.0.clone();
                let conf2 = OrderConfirmation {
                    order_id: ord.1.order_id.clone(),
                    price: ord.1.price,
                    size: remaining,
                    side: ord.1.side,
                };
                orders.set(ix, (key, conf2));
                proof {
                    let ov2 = orders_view(orders@);
                    let sv2 = ov.update(ix as int, (ov[ix as int].0, SpConf {
                        size: remaining,
                        ..ov[ix as int].1
                    }));
                    assert(ov2 =~= sv2);
                    assert(sp_orders_wf(ov2)) by {
                        assert forall|w: int| 0 <= w < ov2.len() implies 0 <= (
                            #[trigger] ov2[w]).1.size by {
                            if w != ix {
                                assert(ov2[w] == ov[w]);
                            }
                        }
                    }
                }
                let n = Notification::OrderUpdate(with_timestamp(upd, now));
                Ok(Some(n))
            } else {
                Err(Error::Protocol(String::from_str("match consumed more than the tracked size")))
            }
        },
    }
}

/// Inserts or replaces a tracked order, as [`sp_upsert`] says.
fn upsert_order(
    orders: &mut Vec<(String, OrderConfirmation)>,
    key: String,
    conf: OrderConfirmation,
)
    requires
        sp_orders_wf(orders_view(old(orders)@)),
        0 <= conf.size,
    ensures
        orders_view(final(orders)@) == sp_upsert(orders_view(old(orders)@), key@, conf_view(conf)),
        sp_orders_wf(orders_view(final(orders)@)),
{
    let ghost ov = orders_view(orders@);
    match find_order(orders, key.as_str(), 0) {
        Some(ix) => {
            orders.set(ix, (key, conf));
            proof {
                let ov2 = orders_view(orders@);
                assert(ov2 =~= ov.update(ix as int, (key@, conf_view(conf))));
                assert forall|w: int| 0 <= w < ov2.len() implies 0 <= (#[trigger] ov2[w]).1.size by {
                    if w != ix {
                        assert(ov2[w] == ov[w]);
                    }
                }
            }
        },
        None => {
            orders.push((key, conf));
            proof {
                let ov2 = orders_view(orders@);
                assert(ov2 =~= ov.push((key@, conf_view(conf))));
                assert forall|w: int| 0 <= w < ov2.len() implies 0 <= (#[trigger] ov2[w]).1.size by {
                    if w != ov.len() {
                        assert(ov2[w] == ov[w]);
                    }
                }
            }
        },
    }
}

/// The subscription state moves one way: a subscribe acknowledgment
/// subscribes, nothing else changes the state, and in particular a second
/// acknowledgment while subscribed leaves the machine subscribed and is no
/// error.
pub proof fn lemma_subscription_one_way(
    sf: SpFrame,
    sub: bool,
    ov: Seq<(Seq<char>, SpConf)>,
    flags: NotificationFlags,
    pexp: nat,
    sexp: nat,
    now: u64,
)
    ensures
        match sp_handle(sf, sub, ov, flags, pexp, sexp, now) {
            Ok((sub2, _, _)) => sub2 == (sub || sf is SubscribeAck),
            Err((_, sub2, _)) => sub2 == sub && !(sf is SubscribeAck),
        },
        sf is SubscribeAck ==> sp_handle(sf, sub, ov, flags, pexp, sexp, now) is Ok,
{
}

/// Every notification a frame emits respects the flag that gates its
/// category: without `order_book` no book update, without `trades` no
/// trade, without `orders` no order lifecycle event.
pub proof fn lemma_flag_filtering(
    sf: SpFrame,
    sub: bool,
    ov: Seq<(Seq<char>, SpConf)>,
    flags: NotificationFlags,
    pexp: nat,
    sexp: nat,
    now: u64,
)
    ensures
        match sp_handle(sf, sub, ov, flags, pexp, sexp, now) {
            Ok((_, _, ns)) => sp_flag_filtered(ns, flags),
            Err(_) => true,
        },
{
    match sp_handle(sf, sub, ov, flags, pexp, sexp, now) {
        Ok((_, _, ns)) => {
            match sf {
                SpFrame::Match {
                    time,
                    size,
                    price,
                    side,
                    maker_order_id,
                    taker_order_id,
                    profile_id,
                } => {
                    if (flags.trades || flags.orders) && sp_iso_ms(time) is Some {
                        let ts = sp_iso_ms(time).unwrap();
                        let c = spec_ticked(size, sexp);
                        let p = spec_ticked(price, pexp);
                        if c is Some && p is Some {
                            let own = flags.orders && profile_id is Some;
                            let step1 = if own {
                                sp_match_step(
                                    ov,
                                    taker_order_id,
                                    c.unwrap() as i64,
                                    p.unwrap() as i64,
                                    ts,
                                )
                            } else {
                                Some((ov, Seq::<SpNotif>::empty()))
                            };
                            if step1 is Some {
                                let (ov1, n1) = step1.unwrap();
                                let step2 = if own {
                                    sp_match_step(
                                        ov1,
                                        maker_order_id,
                                        c.unwrap() as i64,
                                        p.unwrap() as i64,
                                        ts,
                                    )
                                } else {
                                    Some((ov1, Seq::<SpNotif>::empty()))
                                };
                                if step2 is Some {
                                    let (ov2, n2) = step2.unwrap();
                                    assert forall|i: int| 0 <= i < n1.len() implies (#[trigger]
                                    n1[i]) matches SpNotif::Update(_, _, _, _, _, _) by {}
                                    assert forall|i: int| 0 <= i < n2.len() implies (#[trigger]
                                    n2[i]) matches SpNotif::Update(_, _, _, _, _, _) by {}
                                    assert(sp_flag_filtered(ns, flags)) by {
                                        assert forall|i: int| 0 <= i < ns.len() implies (match
                                            #[trigger] ns[i] {
                                            SpNotif::Trade(_, _) => flags.trades,
                                            SpNotif::LimitUpdates(_) => flags.order_book,
                                            SpNotif::Confirm(_, _) => flags.orders,
                                            SpNotif::Update(_, _, _, _, _, _) => flags.orders,
                                            SpNotif::Expire(_, _) => flags.orders,
                                        }) by {
                                            if i < n1.len() {
                                                assert(ns[i] == n1[i]);
                                            } else if i < n1.len() + n2.len() {
                                                assert(ns[i] == n2[i - n1.len()]);
                                            }
                                        }
                                    }
                                }
                            }
                        }
                    }
                },
                _ => {},
            }
        },
        Err(_) => {},
    }
}

/// The sum of a sequence of consumed sizes.
pub open spec fn sum_of(cs: Seq<i64>) -> int
    decreases cs.len(),
{
    if cs.len() == 0 {
        0
    } else {
        cs[0] + sum_of(cs.drop_first())
    }
}

/// A sequence of match legs against one tracked order, each applied to the
/// orders the one before left.
pub open spec fn sp_match_many(
    ov: Seq<(Seq<char>, SpConf)>,
    oid: Seq<char>,
    cs: Seq<i64>,
    price: i64,
    now: u64,
) -> Option<Seq<(Seq<char>, SpConf)>>
    decreases cs.len(),
{
    if cs.len() == 0 {
        Some(ov)
    } else {
        match sp_match_step(ov, oid, cs[0], price, now) {
            Some((ov1, _)) => sp_match_many(ov1, oid, cs.drop_first(), price, now),
            None => None,
        }
    }
}

/// Finding an order depends only on the keys.
proof fn lemma_find_stable(
    a: Seq<(Seq<char>, SpConf)>,
    b: Seq<(Seq<char>, SpConf)>,
    oid: Seq<char>,
    i: int,
)
    requires
        a.len() == b.len(),
        forall|j: int| 0 <= j < a.len() ==> (#[trigger] a[j]).0 == b[j].0,
        0 <= i <= a.len(),
    ensures
        sp_find_order(a, oid, i) == sp_find_order(b, oid, i),
    decreases a.len() - i,
{
    if i < a.len() {
        lemma_find_stable(a, b, oid, i + 1);
    }
}

/// Exact accounting across any run of matches that consume one tracked
/// order: after every accepted update the remaining size equals the size
/// at the start minus the running sum of consumed sizes, and it never goes
/// negative.
pub proof fn lemma_remaining_size(
    ov: Seq<(Seq<char>, SpConf)>,
    oid: Seq<char>,
    cs: Seq<i64>,
    price: i64,
    now: u64,
    ix: int,
)
    requires
        sp_orders_wf(ov),
        forall|i: int| 0 <= i < cs.len() ==> 0 <= #[trigger] cs[i],
        sp_find_order(ov, oid, 0) == Some(ix),
        0 <= ix < ov.len(),
    ensures
        match sp_match_many(ov, oid, cs, price, now) {
            Some(ov2) => {
                &&& ov2.len() == ov.len()
                &&& forall|j: int| 0 <= j < ov.len() ==> (#[trigger] ov2[j]).0 == ov[j].0
                &&& ov2[ix].1.size == ov[ix].1.size - sum_of(cs)
                &&& 0 <= ov2[ix].1.size
                &&& sp_orders_wf(ov2)
            },
            None => true,
        },
    decreases cs.len(),
{
    if cs.len() == 0 {
    } else {
        match sp_match_step(ov, oid, cs[0], price, now) {
            Some((ov1, _)) => {
                assert(ov1.len() == ov.len());
                assert(forall|j: int| 0 <= j < ov.len() ==> (#[trigger] ov1[j]).0 == ov[j].0);
                assert(ov1[ix].1.size == ov[ix].1.size - cs[0]);
                assert(sp_orders_wf(ov1)) by {
                    assert forall|j: int| 0 <= j < ov1.len() implies 0 <= (
                        #[trigger] ov1[j]).1.size by {
                        if j != ix {
                            assert(ov1[j] == ov[j]);
                        }
                    }
                }
                lemma_find_stable(ov, ov1, oid, 0);
                lemma_remaining_size(ov1, oid, cs.drop_first(), price, now, ix);
            },
            None => {},
        }
    }
}

} // verus!
