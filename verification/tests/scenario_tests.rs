use bybit_ws::{
    handle_private_stream, handle_public_stream, handle_trade_stream, Asset, AssetMap, Dec,
    ErrorKind, HandleError, LiveEvent, Order, OrderLedger, OrdStatus, SessionAction, Side,
};

fn btc_assets() -> AssetMap {
    let mut m = AssetMap::new();
    m.add(Asset { symbol: "BTCUSDT".to_string(), asset_no: 3 }).unwrap();
    m
}

fn submitted(id: &str) -> Order {
    Order {
        asset_no: 3,
        client_req_id: id.to_string(),
        exch_order_id: Some(format!("X-{id}")),
        side: Side::Buy,
        price: Dec { neg: false, mant: 1005, scale: 1 },
        qty: Dec { neg: false, mant: 10, scale: 1 },
        filled: Dec { neg: false, mant: 0, scale: 0 },
        status: OrdStatus::Submitted,
        cancel_pending: false,
        pre_cancel: OrdStatus::Submitted,
    }
}

#[test]
fn orderbook_frame_yields_one_depth_event() {
    let assets = btc_assets();
    let text = r#"{"topic":"orderbook.1.BTCUSDT","cts":1700000000000,"data":{"s":"BTCUSDT","b":[["100.5","2"]],"a":[["100.6","1"]]}}"#;
    let (events, diags) = handle_public_stream(text, &assets, 42).unwrap();
    assert!(diags.is_empty());
    assert_eq!(events.len(), 1);
    match &events[0] {
        LiveEvent::Depth(d) => {
            assert_eq!(d.asset_no, 3);
            assert_eq!(d.exch_ts, 1_700_000_000_000 * 1_000_000);
            assert_eq!(d.local_ts, 42);
            assert_eq!(d.bids, vec![(
                Dec { neg: false, mant: 1005, scale: 1 },
                Dec { neg: false, mant: 2, scale: 0 },
            )]);
            assert_eq!(d.asks, vec![(
                Dec { neg: false, mant: 1006, scale: 1 },
                Dec { neg: false, mant: 1, scale: 0 },
            )]);
            let px = d.bids[0].0.mant as f32 / 10f32.powi(d.bids[0].0.scale as i32);
            assert!((px - 100.5).abs() < 1e-6);
        }
        other => panic!("expected a Depth event, got {other:?}"),
    }
}

#[test]
fn orderbook_frame_without_timestamp_fails_only_that_message() {
    let assets = btc_assets();
    let text = r#"{"topic":"orderbook.1.BTCUSDT","data":{"s":"BTCUSDT","b":[],"a":[]}}"#;
    assert_eq!(
        handle_public_stream(text, &assets, 0).unwrap_err(),
        HandleError::Decode
    );
}

#[test]
fn orderbook_unknown_symbol_yields_no_event() {
    let assets = btc_assets();
    let text = r#"{"topic":"orderbook.1.ETHUSDT","cts":1,"data":{"s":"ETHUSDT","b":[["1","1"]],"a":[]}}"#;
    assert_eq!(
        handle_public_stream(text, &assets, 0).unwrap_err(),
        HandleError::AssetNotFound
    );
}

#[test]
fn trade_batch_unknown_symbol_skips_item_and_keeps_siblings() {
    let assets = btc_assets();
    let text = r#"{"topic":"publicTrade.BTCUSDT","data":[
        {"s":"ETHUSDT","T":1700000000000,"S":"Buy","p":"1.5","v":"1"},
        {"s":"BTCUSDT","T":1700000000000,"S":"Sell","p":"100.5","v":"0.1"}
    ]}"#;
    let (events, diags) = handle_public_stream(text, &assets, 9).unwrap();
    assert_eq!(diags, vec![HandleError::AssetNotFound]);
    assert_eq!(events.len(), 1);
    match &events[0] {
        LiveEvent::Trade(t) => {
            assert_eq!(t.asset_no, 3);
            assert_eq!(t.side, Side::Sell);
            assert_eq!(t.price, Dec { neg: false, mant: 1005, scale: 1 });
            assert_eq!(t.qty, Dec { neg: false, mant: 1, scale: 1 });
            assert_eq!(t.exch_ts, 1_700_000_000_000 * 1_000_000);
            assert_eq!(t.local_ts, 9);
        }
        other => panic!("expected a Trade event, got {other:?}"),
    }
}

#[test]
fn trade_batch_malformed_price_skips_item_and_keeps_siblings() {
    let assets = btc_assets();
    let text = r#"{"topic":"publicTrade.BTCUSDT","data":[
        {"s":"BTCUSDT","T":1,"S":"Buy","p":"oops","v":"1"},
        {"s":"BTCUSDT","T":1,"S":"Buy","p":"2","v":"1"}
    ]}"#;
    let (events, diags) = handle_public_stream(text, &assets, 0).unwrap();
    assert_eq!(diags, vec![HandleError::Numeric]);
    assert_eq!(events.len(), 1);
}

#[test]
fn garbage_frame_is_a_decode_error() {
    let assets = btc_assets();
    assert_eq!(
        handle_public_stream("not json at all", &assets, 0).unwrap_err(),
        HandleError::Decode
    );
}

#[test]
fn create_rejection_yields_order_update_and_error_event() {
    let mut ledger = OrderLedger::new();
    ledger.new_order(submitted("abc")).unwrap();
    let text = r#"{"op":"order.create","reqId":"abc","retCode":10429,"retMsg":"rate limited"}"#;
    let (events, action) = handle_trade_stream(text, &mut ledger).unwrap();
    assert!(matches!(action, SessionAction::Continue));
    assert_eq!(events.len(), 2);
    match &events[0] {
        LiveEvent::Order(r) => {
            assert_eq!(r.asset_no, 3);
            assert_eq!(r.order.status, OrdStatus::SubmitRejected);
            assert_eq!(r.order.client_req_id, "abc");
        }
        other => panic!("expected an OrderUpdate event, got {other:?}"),
    }
    match &events[1] {
        LiveEvent::Error(e) => {
            assert_eq!(e.kind, ErrorKind::OrderError);
            assert_eq!(e.venue_code, 10429);
            assert_eq!(e.venue_msg, "rate limited");
        }
        other => panic!("expected an Error event, got {other:?}"),
    }
    assert_eq!(ledger.entry_at(0).status, OrdStatus::SubmitRejected);
}

#[test]
fn create_success_touches_nothing() {
    let mut ledger = OrderLedger::new();
    ledger.new_order(submitted("abc")).unwrap();
    let text = r#"{"op":"order.create","reqId":"abc","retCode":0,"retMsg":"OK"}"#;
    let (events, action) = handle_trade_stream(text, &mut ledger).unwrap();
    assert!(events.is_empty());
    assert!(matches!(action, SessionAction::Continue));
    assert_eq!(ledger.entry_at(0).status, OrdStatus::Submitted);
}

#[test]
fn ack_without_result_code_is_a_decode_error() {
    let mut ledger = OrderLedger::new();
    let text = r#"{"op":"order.create","reqId":"abc","retMsg":"OK"}"#;
    assert_eq!(
        handle_trade_stream(text, &mut ledger).unwrap_err(),
        HandleError::Decode
    );
}

#[test]
fn rejection_without_req_id_cannot_be_reconciled() {
    let mut ledger = OrderLedger::new();
    let text = r#"{"op":"order.create","retCode":1,"retMsg":"x"}"#;
    assert_eq!(
        handle_trade_stream(text, &mut ledger).unwrap_err(),
        HandleError::ReqIdNotExist
    );
}

#[test]
fn cancel_rejection_restores_live_state() {
    let mut ledger = OrderLedger::new();
    ledger.new_order(submitted("abc")).unwrap();
    ledger.mark_cancel_pending(&"abc".to_string()).unwrap();
    let text = r#"{"op":"order.cancel","reqId":"abc","retCode":10404,"retMsg":"not found"}"#;
    let (events, _) = handle_trade_stream(text, &mut ledger).unwrap();
    assert_eq!(events.len(), 2);
    assert_eq!(ledger.entry_at(0).status, OrdStatus::Submitted);
    assert!(!ledger.entry_at(0).cancel_pending);
}

#[test]
fn trade_auth_failure_is_fatal() {
    let mut ledger = OrderLedger::new();
    let text = r#"{"op":"auth","retCode":20001,"retMsg":"invalid signature"}"#;
    let (events, action) = handle_trade_stream(text, &mut ledger).unwrap();
    assert!(matches!(action, SessionAction::Terminate));
    assert_eq!(events.len(), 1);
    match &events[0] {
        LiveEvent::Error(e) => {
            assert_eq!(e.kind, ErrorKind::CriticalConnectionError);
            assert_eq!(e.venue_code, 20001);
            assert_eq!(e.venue_msg, "invalid signature");
        }
        other => panic!("expected an Error event, got {other:?}"),
    }
}

#[test]
fn private_auth_failure_terminates_without_subscription() {
    let assets = btc_assets();
    let mut ledger = OrderLedger::new();
    let text = r#"{"op":"auth","success":false,"conn_id":"c"}"#;
    let (events, diags, action) =
        handle_private_stream(text, &assets, &mut ledger, 0).unwrap();
    assert!(events.is_empty());
    assert!(diags.is_empty());
    assert!(matches!(action, SessionAction::Terminate));
}

#[test]
fn private_auth_success_sends_one_subscription() {
    let assets = btc_assets();
    let mut ledger = OrderLedger::new();
    let text = r#"{"op":"auth","success":true,"conn_id":"c"}"#;
    let (events, _, action) = handle_private_stream(text, &assets, &mut ledger, 0).unwrap();
    assert!(events.is_empty());
    match action {
        SessionAction::SendText(f) => {
            assert_eq!(
                f,
                r#"{"req_id":"3","op":"subscribe","args":["position","execution.fast"]}"#
            );
        }
        other => panic!("expected a subscription send, got {other:?}"),
    }
}

#[test]
fn position_push_becomes_position_events() {
    let assets = btc_assets();
    let mut ledger = OrderLedger::new();
    let text = r#"{"topic":"position","data":[{"symbol":"BTCUSDT","positionValue":"119.9998"}]}"#;
    let (events, diags, _) = handle_private_stream(text, &assets, &mut ledger, 0).unwrap();
    assert!(diags.is_empty());
    assert_eq!(events.len(), 1);
    match &events[0] {
        LiveEvent::Position(p) => {
            assert_eq!(p.asset_no, 3);
            assert_eq!(p.symbol, "BTCUSDT");
            assert_eq!(p.qty, Dec { neg: false, mant: 1199998, scale: 4 });
        }
        other => panic!("expected a Position event, got {other:?}"),
    }
}

#[test]
fn unknown_execution_is_logged_and_siblings_still_apply() {
    let assets = btc_assets();
    let mut ledger = OrderLedger::new();
    ledger.new_order(submitted("known")).unwrap();
    let text = r#"{"topic":"execution.fast","data":[
        {"orderId":"ghost","orderLinkId":"ghost","execQty":"1"},
        {"orderId":"X-known","orderLinkId":"known","execQty":"0.5"}
    ]}"#;
    let (events, diags, _) = handle_private_stream(text, &assets, &mut ledger, 0).unwrap();
    assert_eq!(diags, vec![HandleError::OrderNotFound]);
    assert_eq!(events.len(), 1);
    match &events[0] {
        LiveEvent::Order(r) => {
            assert_eq!(r.order.status, OrdStatus::PartiallyFilled);
            assert_eq!(r.order.client_req_id, "known");
        }
        other => panic!("expected an OrderUpdate event, got {other:?}"),
    }
}

#[test]
fn order_push_routes_into_ledger() {
    let assets = btc_assets();
    let mut ledger = OrderLedger::new();
    ledger.new_order(submitted("abc")).unwrap();
    let text = r#"{"topic":"order","data":[{"orderId":"X-abc","orderLinkId":"abc","orderStatus":"Filled"}]}"#;
    let (events, diags, _) = handle_private_stream(text, &assets, &mut ledger, 0).unwrap();
    assert!(diags.is_empty());
    assert_eq!(events.len(), 1);
    assert_eq!(ledger.entry_at(0).status, OrdStatus::Filled);
}
