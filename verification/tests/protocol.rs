use exchange_stream::auth::{subscription_request, Keys};
use exchange_stream::errors::{ConversionError, Error};
use exchange_stream::handler::{Handler, SubscriptionState};
use exchange_stream::registry::OrderIdRegistry;
use exchange_stream::tick::Tick;
use exchange_stream::timestamp::iso_to_ms;
use exchange_stream::types::{
    Notification, NotificationFlags, Order, Side, Symbol, TimeInForce, new_order_id,
    with_timestamp,
};

fn symbol() -> Symbol {
    // price resolution 0.01, size resolution 0.1
    Symbol::new(
        "BTC-USD".to_string(),
        Tick::new(100).unwrap(),
        Tick::new(10).unwrap(),
    )
}

fn handler(flags: NotificationFlags, registry: &OrderIdRegistry) -> Handler {
    Handler::new(symbol(), flags, registry.handle())
}

#[test]
fn ticked_exact_values() {
    let price = Tick::new(100).unwrap();
    assert_eq!(price.ticked("100.00"), Ok(10000));
    assert_eq!(price.ticked("101.00"), Ok(10100));
    assert_eq!(price.ticked("0.4"), Ok(40));
    assert_eq!(price.ticked("2"), Ok(200));
    assert_eq!(price.ticked("0.250"), Ok(25));
}

#[test]
fn ticked_rejects_excess_precision() {
    let price = Tick::new(100).unwrap();
    assert_eq!(price.ticked("100.005"), Err(ConversionError::TooPrecise));
    let unit = Tick::new(1).unwrap();
    assert_eq!(unit.ticked("2.5"), Err(ConversionError::TooPrecise));
    assert_eq!(unit.ticked("2.0"), Ok(2));
}

#[test]
fn ticked_rejects_garbage() {
    let price = Tick::new(100).unwrap();
    assert_eq!(price.ticked(""), Err(ConversionError::NotParseable));
    assert_eq!(price.ticked("12a"), Err(ConversionError::NotParseable));
    assert_eq!(price.ticked(".5"), Err(ConversionError::NotParseable));
    assert_eq!(price.ticked("5."), Err(ConversionError::NotParseable));
    assert_eq!(price.ticked("1.2.3"), Err(ConversionError::NotParseable));
    assert_eq!(price.ticked("-1.0"), Err(ConversionError::NotParseable));
}

#[test]
fn ticked_rejects_overflow() {
    let price = Tick::new(100).unwrap();
    assert_eq!(
        price.ticked("99999999999999999999"),
        Err(ConversionError::Overflow)
    );
    // i64::MAX is 9223372036854775807: one tick above it overflows
    assert_eq!(price.ticked("92233720368547758.07"), Ok(i64::MAX));
    assert_eq!(price.ticked("92233720368547758.08"), Err(ConversionError::Overflow));
}

#[test]
fn decimal_round_trip() {
    let price = Tick::new(100).unwrap();
    assert_eq!(price.to_decimal(10000), "100");
    assert_eq!(price.to_decimal(10050), "100.5");
    assert_eq!(price.to_decimal(10005), "100.05");
    assert_eq!(price.to_decimal(0), "0");
    for t in [0i64, 1, 40, 99, 100, 10000, 123456789, i64::MAX] {
        let s = price.to_decimal(t);
        assert_eq!(price.ticked(&s), Ok(t), "round trip failed for {}", s);
    }
}

#[test]
fn tick_resolutions_are_powers_of_ten() {
    assert!(Tick::new(0).is_none());
    assert!(Tick::new(7).is_none());
    assert!(Tick::new(1).is_some());
    let t = Tick::new(1000000).unwrap();
    assert_eq!(t.ticks_per_unit(), 1000000);
}

#[test]
fn registry_race_is_idempotent() {
    // both writers record the same fact; either order leaves the same state
    let a = OrderIdRegistry::new();
    let b = a.handle();
    a.insert("abc".to_string(), "srv1".to_string());
    b.insert("abc".to_string(), "srv1".to_string());
    assert_eq!(a.get(&"abc".to_string()), Some("srv1".to_string()));
    assert_eq!(b.get(&"abc".to_string()), Some("srv1".to_string()));
    assert_eq!(a.get(&"missing".to_string()), None);
}

#[test]
fn subscribe_ack_is_one_way_and_repeatable() {
    let reg = OrderIdRegistry::new();
    let mut h = handler(NotificationFlags::all(), &reg);
    assert_eq!(h.state, SubscriptionState::NotSubscribed);
    let r1 = h.handle_message("{\"type\":\"subscribe\"}", 1);
    assert_eq!(r1, Ok(vec![]));
    assert_eq!(h.state, SubscriptionState::Subscribed);
    // a second acknowledgment is an anomaly, not an error
    let r2 = h.handle_message("{\"type\":\"subscribe\"}", 2);
    assert_eq!(r2, Ok(vec![]));
    assert_eq!(h.state, SubscriptionState::Subscribed);
}

#[test]
fn snapshot_becomes_one_batch() {
    let reg = OrderIdRegistry::new();
    // tick resolution 0.01 for prices; sizes resolved at whole units
    let sym = Symbol::new(
        "BTC-USD".to_string(),
        Tick::new(100).unwrap(),
        Tick::new(1).unwrap(),
    );
    let mut h = Handler::new(sym, NotificationFlags::new(true, false, false), reg.handle());
    let ns = h
        .handle_message(
            "{\"type\":\"snapshot\",\"bids\":[[\"100.00\",\"2\"]],\"asks\":[[\"101.00\",\"3\"]]}",
            7,
        )
        .unwrap();
    assert_eq!(ns.len(), 1);
    match &ns[0] {
        Notification::LimitUpdates(us) => {
            assert_eq!(us.len(), 2);
            assert_eq!(us[0].inner.side, Side::Bid);
            assert_eq!(us[0].inner.price, 10000);
            assert_eq!(us[0].inner.size, 2);
            assert_eq!(us[1].inner.side, Side::Ask);
            assert_eq!(us[1].inner.price, 10100);
            assert_eq!(us[1].inner.size, 3);
            assert_eq!(us[0].timestamp, 7);
        }
        other => panic!("expected a LimitUpdates batch, got {:?}", other),
    }
}

#[test]
fn snapshot_ignored_without_order_book_flag() {
    let reg = OrderIdRegistry::new();
    let mut h = handler(NotificationFlags::new(false, true, true), &reg);
    // the payload is not even decoded: a nested object and a missing asks
    // member would fail the snapshot schema
    let ns = h
        .handle_message(
            "{\"type\":\"snapshot\",\"bids\":{\"nested\":[1,2]}}",
            7,
        )
        .unwrap();
    assert!(ns.is_empty());
}

#[test]
fn l2update_converts_and_skips_empty() {
    let reg = OrderIdRegistry::new();
    let mut h = handler(NotificationFlags::new(true, false, false), &reg);
    let ns = h
        .handle_message(
            "{\"type\":\"l2update\",\"changes\":[[\"sell\",\"50.25\",\"0.0\"]]}",
            3,
        )
        .unwrap();
    assert_eq!(ns.len(), 1);
    match &ns[0] {
        Notification::LimitUpdates(us) => {
            assert_eq!(us.len(), 1);
            assert_eq!(us[0].inner.side, Side::Ask);
            assert_eq!(us[0].inner.price, 5025);
            // size 0 marks the level for removal
            assert_eq!(us[0].inner.size, 0);
        }
        other => panic!("expected a LimitUpdates batch, got {:?}", other),
    }
    let empty = h
        .handle_message("{\"type\":\"l2update\",\"changes\":[]}", 4)
        .unwrap();
    assert!(empty.is_empty());
}

#[test]
fn received_registers_and_confirms() {
    let reg = OrderIdRegistry::new();
    let mut h = handler(NotificationFlags::all(), &reg);
    let ns = h
        .handle_message(
            "{\"type\":\"received\",\"time\":\"2014-11-07T08:19:27.028459Z\",\"client_oid\":\"abc\",\"order_id\":\"srv1\",\"size\":\"1.0\",\"price\":\"50.00\",\"side\":\"buy\"}",
            11,
        )
        .unwrap();
    // the race-closing step: the mapping is published before the REST
    // response can arrive
    assert_eq!(reg.get(&"abc".to_string()), Some("srv1".to_string()));
    assert_eq!(ns.len(), 1);
    match &ns[0] {
        Notification::OrderConfirmation(c) => {
            // the exchange-supplied time, not the local clock
            assert_eq!(c.timestamp, 1415348367028);
            assert_eq!(c.inner.order_id, "abc");
            assert_eq!(c.inner.price, 5000);
            assert_eq!(c.inner.size, 10);
            assert_eq!(c.inner.side, Side::Bid);
        }
        other => panic!("expected an OrderConfirmation, got {:?}", other),
    }
}

#[test]
fn match_updates_tracked_order_and_emits_trade() {
    let reg = OrderIdRegistry::new();
    let mut h = handler(NotificationFlags::all(), &reg);
    h.handle_message(
        "{\"type\":\"received\",\"time\":\"2014-11-07T08:19:27.028459Z\",\"client_oid\":\"abc\",\"order_id\":\"srv1\",\"size\":\"1.0\",\"price\":\"50.00\",\"side\":\"buy\"}",
        11,
    )
    .unwrap();
    let ns = h
        .handle_message(
            "{\"type\":\"match\",\"time\":\"2014-11-07T08:19:27.028459Z\",\"taker_order_id\":\"srv1\",\"maker_order_id\":\"other\",\"size\":\"0.4\",\"price\":\"50.00\",\"side\":\"sell\",\"profile_id\":\"me\"}",
            12,
        )
        .unwrap();
    assert_eq!(ns.len(), 2);
    match &ns[0] {
        Notification::OrderUpdate(u) => {
            assert_eq!(u.inner.order_id, "abc");
            assert_eq!(u.inner.consumed_size, 4);
            assert_eq!(u.inner.remaining_size, 6);
            assert_eq!(u.inner.consumed_price, 5000);
            assert_eq!(u.inner.commission, 0);
        }
        other => panic!("expected an OrderUpdate, got {:?}", other),
    }
    match &ns[1] {
        Notification::Trade(t) => {
            assert_eq!(t.inner.maker_side, Side::Ask);
            assert_eq!(t.inner.size, 4);
            assert_eq!(t.inner.price, 5000);
        }
        other => panic!("expected a Trade, got {:?}", other),
    }
    // remaining size accounting carries across matches
    let ns2 = h
        .handle_message(
            "{\"type\":\"match\",\"time\":\"2014-11-07T08:19:27.028459Z\",\"taker_order_id\":\"srv1\",\"maker_order_id\":\"other\",\"size\":\"0.5\",\"price\":\"50.00\",\"side\":\"sell\",\"profile_id\":\"me\"}",
            13,
        )
        .unwrap();
    match &ns2[0] {
        Notification::OrderUpdate(u) => {
            assert_eq!(u.inner.remaining_size, 1);
        }
        other => panic!("expected an OrderUpdate, got {:?}", other),
    }
}

#[test]
fn match_with_only_order_book_flag_is_silent() {
    let reg = OrderIdRegistry::new();
    let mut h = handler(NotificationFlags::new(true, false, false), &reg);
    // gated off, the frame is ignored without its schema being read: the
    // time and size here would not even decode
    let ns = h
        .handle_message(
            "{\"type\":\"match\",\"time\":\"soon\",\"taker_order_id\":\"srv1\",\"size\":{},\"price\":\"50.00\",\"side\":\"sell\",\"profile_id\":\"me\"}",
            12,
        )
        .unwrap();
    assert!(ns.is_empty());
}

#[test]
fn public_match_without_orders_flag_still_trades() {
    let reg = OrderIdRegistry::new();
    let mut h = handler(NotificationFlags::new(false, true, false), &reg);
    let ns = h
        .handle_message(
            "{\"type\":\"match\",\"time\":\"2014-11-07T08:19:27.028459Z\",\"taker_order_id\":\"x\",\"maker_order_id\":\"y\",\"size\":\"0.4\",\"price\":\"50.00\",\"side\":\"buy\"}",
            12,
        )
        .unwrap();
    assert_eq!(ns.len(), 1);
    match &ns[0] {
        Notification::Trade(t) => assert_eq!(t.inner.maker_side, Side::Bid),
        other => panic!("expected a Trade, got {:?}", other),
    }
}

#[test]
fn done_for_untracked_order_is_dropped() {
    let reg = OrderIdRegistry::new();
    let mut h = handler(NotificationFlags::all(), &reg);
    let ns = h
        .handle_message(
            "{\"type\":\"done\",\"reason\":\"canceled\",\"order_id\":\"never-seen\",\"time\":\"2014-11-07T08:19:27.028459Z\"}",
            20,
        )
        .unwrap();
    assert!(ns.is_empty());
}

#[test]
fn done_for_tracked_order_expires_it() {
    let reg = OrderIdRegistry::new();
    let mut h = handler(NotificationFlags::all(), &reg);
    h.handle_message(
        "{\"type\":\"received\",\"time\":\"2014-11-07T08:19:27.028459Z\",\"order_id\":\"srv9\",\"size\":\"1.0\",\"price\":\"50.00\",\"side\":\"sell\"}",
        11,
    )
    .unwrap();
    // a fill completion is not an expiration
    let filled = h
        .handle_message(
            "{\"type\":\"done\",\"reason\":\"filled\",\"order_id\":\"srv9\",\"time\":\"2014-11-07T08:19:27.028459Z\"}",
            21,
        )
        .unwrap();
    assert!(filled.is_empty());
    let ns = h
        .handle_message(
            "{\"type\":\"done\",\"reason\":\"canceled\",\"order_id\":\"srv9\",\"time\":\"2014-11-07T08:19:27.028459Z\"}",
            22,
        )
        .unwrap();
    assert_eq!(ns.len(), 1);
    match &ns[0] {
        // without a client id the exchange id identifies the order
        Notification::OrderExpiration(e) => assert_eq!(e.inner.order_id, "srv9"),
        other => panic!("expected an OrderExpiration, got {:?}", other),
    }
}

#[test]
fn error_frame_is_fatal() {
    let reg = OrderIdRegistry::new();
    let mut h = handler(NotificationFlags::all(), &reg);
    let r = h.handle_message(
        "{\"type\":\"error\",\"message\":\"Failed to subscribe\",\"reason\":\"bad channel\"}",
        30,
    );
    match r {
        Err(Error::Protocol(msg)) => assert_eq!(msg, "Failed to subscribe"),
        other => panic!("expected a Protocol error, got {:?}", other),
    }
}

#[test]
fn unknown_tags_are_ignored_and_garbage_is_fatal() {
    let reg = OrderIdRegistry::new();
    let mut h = handler(NotificationFlags::all(), &reg);
    let ns = h
        .handle_message("{\"type\":\"heartbeat\",\"sequence\":123}", 5)
        .unwrap();
    assert!(ns.is_empty());
    assert_eq!(h.handle_message("not json at all", 6), Err(Error::Decode));
    assert_eq!(h.handle_message("{\"no_type\":\"x\"}", 6), Err(Error::Decode));
}

#[test]
fn conversion_failure_in_frame_is_fatal() {
    let reg = OrderIdRegistry::new();
    let mut h = handler(NotificationFlags::all(), &reg);
    let r = h.handle_message(
        "{\"type\":\"snapshot\",\"bids\":[[\"100.001\",\"2\"]],\"asks\":[]}",
        7,
    );
    assert_eq!(r, Err(Error::Conversion(ConversionError::TooPrecise)));
}

#[test]
fn subscription_without_credentials() {
    let sym = symbol();
    let req = subscription_request(&sym, NotificationFlags::all(), None, 1000).unwrap();
    assert_eq!(
        req,
        "{\"type\":\"subscribe\",\"product_ids\":[\"BTC-USD\"],\"channels\":[{\"name\":\"heartbeat\",\"product_ids\":[\"BTC-USD\"]},\"level2\",\"matches\"]}"
    );
    let bare = subscription_request(
        &sym,
        NotificationFlags::new(false, false, false),
        None,
        1000,
    )
    .unwrap();
    assert_eq!(
        bare,
        "{\"type\":\"subscribe\",\"product_ids\":[\"BTC-USD\"],\"channels\":[{\"name\":\"heartbeat\",\"product_ids\":[\"BTC-USD\"]}]}"
    );
}

#[test]
fn subscription_with_credentials_is_signed() {
    let sym = symbol();
    let keys = Keys::new(
        "my-key".to_string(),
        b"super secret".to_vec(),
        "phrase".to_string(),
    );
    let req =
        subscription_request(&sym, NotificationFlags::all(), Some(&keys), 1533828734346).unwrap();
    assert!(req.contains("\"user\""));
    assert!(req.contains("\"key\":\"my-key\""));
    assert!(req.contains("\"timestamp\":1533828734.346,"));
    assert!(req.contains("\"passphrase\":\"phrase\""));
    // an HMAC-SHA256 digest is 32 bytes: its base64 form is 44 characters
    let start = req.find("\"signature\":\"").unwrap() + "\"signature\":\"".len();
    let sig: String = req[start..].chars().take_while(|c| *c != '"').collect();
    assert_eq!(sig.len(), 44);
    assert!(sig.ends_with('='));
    // signing is deterministic in the key and the template
    let again =
        subscription_request(&sym, NotificationFlags::all(), Some(&keys), 1533828734346).unwrap();
    assert_eq!(req, again);
}

#[test]
fn order_and_cancel_builders() {
    let o = Order::new(5000, 10, Side::Bid);
    assert_eq!(o.time_in_force, TimeInForce::GoodTilCanceled);
    assert_eq!(o.time_window, 5000);
    assert_eq!(o.order_id, None);
    let o = o
        .time_in_force(TimeInForce::ImmediateOrCancel)
        .time_window(1000)
        .order_id("mine".to_string());
    assert_eq!(o.time_in_force, TimeInForce::ImmediateOrCancel);
    assert_eq!(o.time_window, 1000);
    assert_eq!(o.order_id, Some("mine".to_string()));
    let c = exchange_stream::types::Cancel::new("mine".to_string()).time_window(2000);
    assert_eq!(c.order_id, "mine");
    assert_eq!(c.time_window, 2000);
    assert_eq!(Side::Bid.as_str(), "BUY");
    assert_eq!(Side::Ask.as_str(), "SELL");
    assert_eq!(TimeInForce::FillOrKill.as_str(), "FOK");
    assert_eq!(new_order_id("hint-7"), "hint-7");
    let ts = with_timestamp(42u32, 9);
    assert_eq!(ts.timestamp(), 9);
    assert_eq!(ts.into_inner(), 42);
}

#[test]
fn oversized_match_is_a_protocol_error() {
    let reg = OrderIdRegistry::new();
    let mut h = handler(NotificationFlags::all(), &reg);
    h.handle_message(
        "{\"type\":\"received\",\"time\":\"2014-11-07T08:19:27.028459Z\",\"order_id\":\"srv1\",\"size\":\"1.0\",\"price\":\"50.00\",\"side\":\"buy\"}",
        1,
    )
    .unwrap();
    let r = h.handle_message(
        "{\"type\":\"match\",\"time\":\"2014-11-07T08:19:27.028459Z\",\"taker_order_id\":\"srv1\",\"maker_order_id\":\"z\",\"size\":\"2.0\",\"price\":\"50.00\",\"side\":\"sell\",\"profile_id\":\"me\"}",
        2,
    );
    assert!(matches!(r, Err(Error::Protocol(_))));
}

#[test]
fn iso_timestamps_convert_exactly() {
    assert_eq!(iso_to_ms("1970-01-01T00:00:00Z"), Some(0));
    assert_eq!(iso_to_ms("1970-01-01T00:00:00.5Z"), Some(500));
    assert_eq!(iso_to_ms("2014-11-07T08:19:27.028459Z"), Some(1415348367028));
    assert_eq!(iso_to_ms("2014-13-01T00:00:00Z"), None);
    assert_eq!(iso_to_ms("2014-02-29T00:00:00Z"), None);
    assert!(iso_to_ms("2016-02-29T00:00:00Z").is_some());
    assert_eq!(iso_to_ms("1969-12-31T23:59:59Z"), None);
    assert_eq!(iso_to_ms("not a time"), None);
    assert_eq!(iso_to_ms("2014-11-07 08:19:27Z"), None);
}

#[test]
fn bad_time_in_frame_is_fatal() {
    let reg = OrderIdRegistry::new();
    let mut h = handler(NotificationFlags::all(), &reg);
    let r = h.handle_message(
        "{\"type\":\"received\",\"time\":\"soon\",\"order_id\":\"srv1\",\"size\":\"1.0\",\"price\":\"50.00\",\"side\":\"buy\"}",
        1,
    );
    assert_eq!(r, Err(Error::Decode));
}

#[test]
fn unknown_tags_with_unreadable_members_are_ignored() {
    let reg = OrderIdRegistry::new();
    let mut h = handler(NotificationFlags::all(), &reg);
    // nested objects and arrays in members nobody reads
    let ns = h
        .handle_message("{\"type\":\"x\",\"y\":{}}", 5)
        .unwrap();
    assert!(ns.is_empty());
    let ns = h
        .handle_message(
            "{\"type\":\"status\",\"products\":[{\"id\":\"BTC-USD\",\"limits\":[1,2]}],\"note\":\"a\\\"quoted\\\" note\"}",
            6,
        )
        .unwrap();
    assert!(ns.is_empty());
    // truly malformed text is still fatal
    assert_eq!(h.handle_message("{\"type\":\"x\",\"y\":{", 7), Err(Error::Decode));
}

#[test]
fn error_frame_of_any_shape_is_protocol() {
    let reg = OrderIdRegistry::new();
    let mut h = handler(NotificationFlags::all(), &reg);
    // no message member at all: still a protocol error, with an empty message
    let r = h.handle_message("{\"type\":\"error\"}", 30);
    assert_eq!(r, Err(Error::Protocol(String::new())));
    let r = h.handle_message("{\"type\":\"error\",\"details\":{\"code\":42}}", 31);
    assert_eq!(r, Err(Error::Protocol(String::new())));
}

#[test]
fn basic_auth_header_encodes_credentials() {
    // the classic base64 example: "Man" encodes to "TWFu"
    assert_eq!(
        exchange_stream::auth::basic_auth_header(&b"Man".to_vec()),
        "Basic TWFu"
    );
}

#[test]
fn symbol_table_lookup() {
    let mut table = exchange_stream::types::SymbolTable::new();
    table.insert("btc-usd".to_string(), symbol());
    let found = table.find_symbol("btc-usd").unwrap();
    assert_eq!(found, symbol());
    assert!(table.find_symbol("eth-usd").is_none());
    assert!(symbol().check());
}
