use bybit_ws::{
    auth_expires, auth_frame, auth_payload, build_topic_args, ms_to_ns, op_frame, ping_frame,
    status_of, str_eq, str_starts_with, trade_auth_frame, trade_frame, ts_str, Asset, AssetMap,
    BybitOrder, BybitOrderReq, LiveEvent, OrdStatus,
};

#[test]
fn ping_frame_is_exact() {
    assert_eq!(ping_frame(), r#"{"req_id":"ping","op":"ping","args":[]}"#);
}

#[test]
fn op_frame_with_args_is_exact() {
    let args = vec!["a".to_string(), "b".to_string()];
    assert_eq!(
        op_frame("r1", "subscribe", &args),
        r#"{"req_id":"r1","op":"subscribe","args":["a","b"]}"#
    );
}

#[test]
fn op_frame_escapes_quotes_backslashes_and_controls() {
    let args = vec!["a\"b\\c\nd".to_string()];
    assert_eq!(
        op_frame("r", "x", &args),
        "{\"req_id\":\"r\",\"op\":\"x\",\"args\":[\"a\\\"b\\\\c\\u000ad\"]}"
    );
}

#[test]
fn auth_frame_is_exact() {
    assert_eq!(
        auth_frame("key", 1234, "sig"),
        r#"{"req_id":"auth","op":"auth","args":["key","1234","sig"]}"#
    );
}

#[test]
fn trade_auth_frame_carries_empty_header() {
    assert_eq!(
        trade_auth_frame("key", 1234, "sig"),
        r#"{"req_id":"auth","header":{},"op":"auth","args":["key","1234","sig"]}"#
    );
}

#[test]
fn trade_frame_is_exact() {
    let order = BybitOrder {
        symbol: "BTCUSDT".to_string(),
        side: "Buy".to_string(),
        order_type: "Limit".to_string(),
        qty: "0.1".to_string(),
        price: "100.5".to_string(),
        category: "linear".to_string(),
        time_in_force: "GTC".to_string(),
        order_link_id: "abc".to_string(),
    };
    let f = trade_frame("order.create", &order, 1700000000000);
    let expected = r#"{"req_id":"abc","header":{"X-BAPI-TIMESTAMP":"1700000000000","X-BAPI-RECV-WINDOW":"5000"},"op":"order.create","args":[{"category":"linear","symbol":"BTCUSDT","side":"Buy","orderType":"Limit","qty":"0.1","price":"100.5","timeInForce":"GTC","orderLinkId":"abc"}]}"#;
    assert_eq!(f, expected);
}

#[test]
fn order_req_carries_payload_and_channel() {
    let (tx, rx) = std::sync::mpsc::channel::<LiveEvent>();
    let req = BybitOrderReq {
        op: "order.create".to_string(),
        bybit_order: BybitOrder {
            symbol: "BTCUSDT".to_string(),
            side: "Sell".to_string(),
            order_type: "Limit".to_string(),
            qty: "1".to_string(),
            price: "2".to_string(),
            category: "linear".to_string(),
            time_in_force: "GTC".to_string(),
            order_link_id: "id9".to_string(),
        },
        tx,
    };
    let f = trade_frame(&req.op, &req.bybit_order, 5);
    assert!(f.starts_with(r#"{"req_id":"id9""#));
    drop(rx);
}

#[test]
fn topic_args_cover_every_symbol_under_every_topic() {
    let mut assets = AssetMap::new();
    assets.add(Asset { symbol: "BTCUSDT".to_string(), asset_no: 0 }).unwrap();
    assets.add(Asset { symbol: "ETHUSDT".to_string(), asset_no: 1 }).unwrap();
    let topics = vec!["orderbook.1".to_string(), "publicTrade".to_string()];
    let args = build_topic_args(&topics, &assets);
    assert_eq!(
        args,
        vec![
            "orderbook.1.BTCUSDT".to_string(),
            "orderbook.1.ETHUSDT".to_string(),
            "publicTrade.BTCUSDT".to_string(),
            "publicTrade.ETHUSDT".to_string(),
        ]
    );
}

#[test]
fn ts_str_handles_signs() {
    assert_eq!(ts_str(0), "0");
    assert_eq!(ts_str(1700000000000), "1700000000000");
    assert_eq!(ts_str(-5), "-5");
    assert_eq!(ts_str(i64::MIN), "-9223372036854775808");
}

#[test]
fn auth_payload_is_exact() {
    assert_eq!(auth_payload(1700000005000), "GET/realtime1700000005000");
    assert_eq!(auth_payload(-7), "GET/realtime-7");
}

#[test]
fn auth_expires_adds_the_window() {
    assert_eq!(auth_expires(1000), 6000);
    assert_eq!(auth_expires(i64::MAX - 100), i64::MAX);
}

#[test]
fn ms_to_ns_scales_and_guards() {
    assert_eq!(ms_to_ns(1), Some(1_000_000));
    assert_eq!(ms_to_ns(u64::MAX / 1_000_000 + 1), None);
}

#[test]
fn string_helpers() {
    assert!(str_eq("abc", "abc"));
    assert!(!str_eq("abc", "abd"));
    assert!(!str_eq("abc", "ab"));
    assert!(str_starts_with("orderbook.1.BTCUSDT", "orderbook"));
    assert!(!str_starts_with("order", "orderbook"));
}

#[test]
fn status_words_map_to_the_state_machine() {
    assert_eq!(status_of("New"), Some(OrdStatus::New));
    assert_eq!(status_of("PartiallyFilled"), Some(OrdStatus::PartiallyFilled));
    assert_eq!(status_of("Filled"), Some(OrdStatus::Filled));
    assert_eq!(status_of("Cancelled"), Some(OrdStatus::Canceled));
    assert_eq!(status_of("PartiallyFilledCanceled"), Some(OrdStatus::Canceled));
    assert_eq!(status_of("Rejected"), Some(OrdStatus::SubmitRejected));
    assert_eq!(status_of("Untriggered"), None);
}
