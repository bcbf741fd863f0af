//! The normalized event model and the order data carried by the ledger.

use vstd::prelude::*;
use crate::decimal::Dec;

verus! {

/// Side of a trade or of an order; venue-native side strings are mapped
/// to it exactly once, at the boundary.
#[derive(Clone, Copy, Debug, PartialEq, Eq, Structural)]
pub enum Side {
    Buy,
    Sell,
}

/// Order lifecycle states of the ledger's state machine.
/// `Filled`, `SubmitRejected` and `CancelRejected` are terminal.
#[derive(Clone, Copy, Debug, PartialEq, Eq, Structural)]
pub enum OrdStatus {
    New,
    Submitted,
    PartiallyFilled,
    Filled,
    Canceled,
    SubmitRejected,
    CancelRejected,
}

impl OrdStatus {
    /// A terminal-state entry never transitions again.
    pub open spec fn spec_is_terminal(self) -> bool {
        self == OrdStatus::Filled || self == OrdStatus::SubmitRejected
            || self == OrdStatus::CancelRejected
    }

    pub fn is_terminal(self) -> (r: bool)
        ensures
            r == self.spec_is_terminal(),
    {
        match self {
            OrdStatus::Filled => true,
            OrdStatus::SubmitRejected => true,
            OrdStatus::CancelRejected => true,
            _ => false,
        }
    }

    /// A live entry is one that may still transition.
    pub open spec fn spec_is_live(self) -> bool {
        !self.spec_is_terminal()
    }
}

/// Classification of the errors the handlers surface to their callers.
#[derive(Clone, Debug, PartialEq, Eq)]
pub enum HandleError {
    /// A frame or a field of it could not be decoded.
    Decode,
    /// A numeric price/quantity string was malformed or out of range.
    Numeric,
    /// A venue symbol is absent from the asset mapping.
    AssetNotFound,
    /// No ledger entry matches the given request or order id.
    OrderNotFound,
    /// The matched ledger entry is not in a state that admits the transition.
    StateInvalid,
    /// A duplicate live client request id was handed to the ledger.
    DuplicateClientId,
    /// An acknowledgement that requires correlation carried no request id.
    ReqIdNotExist,
}

/// Kind carried by an `ErrorEvent`.
#[derive(Clone, Copy, Debug, PartialEq, Eq, Structural)]
pub enum ErrorKind {
    CriticalConnectionError,
    OrderError,
}

/// The structured error payload surfaced through `LiveEvent::Error`.
#[derive(Clone, Debug)]
pub struct ErrorEvent {
    pub kind: ErrorKind,
    pub venue_code: i64,
    pub venue_msg: String,
}

/// One depth update: venue levels forwarded verbatim as parsed pairs.
#[derive(Clone, Debug)]
pub struct Depth {
    pub asset_no: u64,
    pub exch_ts: u64,
    pub local_ts: i64,
    pub bids: Vec<(Dec, Dec)>,
    pub asks: Vec<(Dec, Dec)>,
}

/// One public trade tick.
#[derive(Clone, Debug)]
pub struct Trade {
    pub asset_no: u64,
    pub exch_ts: u64,
    pub local_ts: i64,
    pub side: Side,
    pub price: Dec,
    pub qty: Dec,
}

/// Replace-on-update position snapshot for one symbol.
#[derive(Clone, Debug)]
pub struct Position {
    pub asset_no: u64,
    pub symbol: String,
    pub qty: Dec,
}

/// One ledger entry: an in-flight or recent order.
#[derive(Clone, Debug)]
pub struct Order {
    pub asset_no: u64,
    /// Correlation key assigned by the caller, known before submission.
    pub client_req_id: String,
    /// Venue-assigned id, known only after acknowledgement.
    pub exch_order_id: Option<String>,
    pub side: Side,
    pub price: Dec,
    pub qty: Dec,
    /// Quantity filled so far, accumulated from execution reports.
    pub filled: Dec,
    pub status: OrdStatus,
    /// Set while a cancel request is outstanding; `pre_cancel` then holds
    /// the live state to restore if the venue rejects the cancel.
    pub cancel_pending: bool,
    pub pre_cancel: OrdStatus,
}

/// An order-state change re-exported from the ledger.
#[derive(Clone, Debug)]
pub struct OrderResponse {
    pub asset_no: u64,
    pub order: Order,
}

/// The single normalized output union all three handlers emit.
#[derive(Clone, Debug)]
pub enum LiveEvent {
    Depth(Depth),
    Trade(Trade),
    Position(Position),
    Order(OrderResponse),
    Error(ErrorEvent),
}

/// What a handler asks its session loop to do after one inbound frame.
#[derive(Clone, Debug)]
pub enum SessionAction {
    /// Nothing beyond emitting the returned events.
    Continue,
    /// Send this text frame on the socket (e.g. the subscription after auth).
    SendText(String),
    /// Terminate the session loop (e.g. authentication failure).
    Terminate,
}

/// The wire payload of one order-entry request.
#[derive(Clone, Debug)]
pub struct BybitOrder {
    pub symbol: String,
    pub side: String,
    pub order_type: String,
    pub qty: String,
    pub price: String,
    pub category: String,
    pub time_in_force: String,
    pub order_link_id: String,
}

/// Declares std::sync::mpsc::Sender so the strategy engine's completion
/// channel can stand as a request field; the library never sends on it.
#[verifier::external_type_specification]
#[verifier::external_body]
#[verifier::reject_recursive_types(T)]
pub struct ExSender<T>(std::sync::mpsc::Sender<T>);

/// One outbound order-entry request consumed by the trade handler; the
/// completion channel belongs to the submitting strategy engine.
pub struct BybitOrderReq {
    pub op: String,
    pub bybit_order: BybitOrder,
    pub tx: std::sync::mpsc::Sender<LiveEvent>,
}

} // verus!
