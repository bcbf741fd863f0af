use bybit_ws::{
    Dec, ExecPush, HandleError, Order, OrderLedger, OrderPush, OrdStatus, Side,
};

fn entry(id: &str, status: OrdStatus) -> Order {
    Order {
        asset_no: 7,
        client_req_id: id.to_string(),
        exch_order_id: None,
        side: Side::Buy,
        price: Dec { neg: false, mant: 1005, scale: 1 },
        qty: Dec { neg: false, mant: 10, scale: 1 },
        filled: Dec { neg: false, mant: 0, scale: 0 },
        status,
        cancel_pending: false,
        pre_cancel: status,
    }
}

#[test]
fn new_order_rejects_duplicate_id() {
    let mut l = OrderLedger::new();
    l.new_order(entry("a", OrdStatus::New)).unwrap();
    let e = l.new_order(entry("a", OrdStatus::New)).unwrap_err();
    assert_eq!(e, HandleError::DuplicateClientId);
    assert_eq!(l.len(), 1);
}

#[test]
fn update_order_binds_exchange_id() {
    let mut l = OrderLedger::new();
    l.new_order(entry("a", OrdStatus::New)).unwrap();
    let push = OrderPush {
        order_id: "X1".to_string(),
        order_link_id: "a".to_string(),
        status: OrdStatus::Submitted,
    };
    let (asset_no, o) = l.update_order(&push).unwrap();
    assert_eq!(asset_no, 7);
    assert_eq!(o.status, OrdStatus::Submitted);
    assert_eq!(o.exch_order_id.as_deref(), Some("X1"));
    assert_eq!(o.client_req_id, "a");

    // The entry is now found by the venue id as well.
    let push2 = OrderPush {
        order_id: "X1".to_string(),
        order_link_id: "unknown-link".to_string(),
        status: OrdStatus::Canceled,
    };
    let (_, o2) = l.update_order(&push2).unwrap();
    assert_eq!(o2.client_req_id, "a");
    assert_eq!(o2.status, OrdStatus::Canceled);
}

#[test]
fn update_order_unknown_id_is_error() {
    let mut l = OrderLedger::new();
    l.new_order(entry("a", OrdStatus::New)).unwrap();
    let push = OrderPush {
        order_id: "nope".to_string(),
        order_link_id: "nope".to_string(),
        status: OrdStatus::Filled,
    };
    assert_eq!(l.update_order(&push).unwrap_err(), HandleError::OrderNotFound);
    assert_eq!(l.entry_at(0).status, OrdStatus::New);
}

#[test]
fn terminal_entry_never_transitions() {
    let mut l = OrderLedger::new();
    l.new_order(entry("a", OrdStatus::Filled)).unwrap();
    let push = OrderPush {
        order_id: "X".to_string(),
        order_link_id: "a".to_string(),
        status: OrdStatus::New,
    };
    assert_eq!(l.update_order(&push).unwrap_err(), HandleError::StateInvalid);
    assert_eq!(l.entry_at(0).status, OrdStatus::Filled);
}

#[test]
fn execution_accumulates_to_partial_then_filled() {
    let mut l = OrderLedger::new();
    l.new_order(entry("a", OrdStatus::Submitted)).unwrap();
    let fill = |q: &str| ExecPush {
        order_id: "X".to_string(),
        order_link_id: "a".to_string(),
        exec_qty: bybit_ws::parse_decimal(q).unwrap(),
    };
    let (_, o) = l.update_execution(&fill("0.4")).unwrap();
    assert_eq!(o.status, OrdStatus::PartiallyFilled);
    let (_, o) = l.update_execution(&fill("0.6")).unwrap();
    assert_eq!(o.status, OrdStatus::Filled);
    // Terminal now: a further fill is refused.
    assert_eq!(
        l.update_execution(&fill("0.1")).unwrap_err(),
        HandleError::StateInvalid
    );
}

#[test]
fn execution_unknown_id_leaves_ledger_unchanged() {
    let mut l = OrderLedger::new();
    l.new_order(entry("a", OrdStatus::Submitted)).unwrap();
    let fill = ExecPush {
        order_id: "zz".to_string(),
        order_link_id: "zz".to_string(),
        exec_qty: Dec { neg: false, mant: 1, scale: 0 },
    };
    assert_eq!(l.update_execution(&fill).unwrap_err(), HandleError::OrderNotFound);
    let o = l.entry_at(0);
    assert_eq!(o.status, OrdStatus::Submitted);
    assert_eq!(o.filled, Dec { neg: false, mant: 0, scale: 0 });
}

#[test]
fn submit_fail_only_from_new_or_submitted() {
    let mut l = OrderLedger::new();
    l.new_order(entry("a", OrdStatus::Submitted)).unwrap();
    l.new_order(entry("b", OrdStatus::PartiallyFilled)).unwrap();
    let (_, o) = l.update_submit_fail(&"a".to_string()).unwrap();
    assert_eq!(o.status, OrdStatus::SubmitRejected);
    assert_eq!(
        l.update_submit_fail(&"b".to_string()).unwrap_err(),
        HandleError::StateInvalid
    );
    assert_eq!(l.entry_at(1).status, OrdStatus::PartiallyFilled);
}

#[test]
fn submit_fail_unknown_id_is_noop_error() {
    let mut l = OrderLedger::new();
    l.new_order(entry("a", OrdStatus::Submitted)).unwrap();
    assert_eq!(
        l.update_submit_fail(&"zz".to_string()).unwrap_err(),
        HandleError::OrderNotFound
    );
    assert_eq!(l.len(), 1);
    assert_eq!(l.entry_at(0).status, OrdStatus::Submitted);
}

#[test]
fn cancel_fail_restores_pre_cancel_state() {
    let mut l = OrderLedger::new();
    l.new_order(entry("a", OrdStatus::PartiallyFilled)).unwrap();
    l.mark_cancel_pending(&"a".to_string()).unwrap();
    assert!(l.entry_at(0).cancel_pending);
    let (_, o) = l.update_cancel_fail(&"a".to_string()).unwrap();
    assert_eq!(o.status, OrdStatus::PartiallyFilled);
    assert!(!o.cancel_pending);
}

#[test]
fn cancel_fail_unknown_id_is_noop_error() {
    let mut l = OrderLedger::new();
    l.new_order(entry("a", OrdStatus::Submitted)).unwrap();
    assert_eq!(
        l.update_cancel_fail(&"zz".to_string()).unwrap_err(),
        HandleError::OrderNotFound
    );
    assert_eq!(l.entry_at(0).status, OrdStatus::Submitted);
}

#[test]
fn cancel_fail_without_pending_cancel_is_error() {
    let mut l = OrderLedger::new();
    l.new_order(entry("a", OrdStatus::Submitted)).unwrap();
    assert_eq!(
        l.update_cancel_fail(&"a".to_string()).unwrap_err(),
        HandleError::StateInvalid
    );
}
