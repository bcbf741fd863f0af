//! The wire message model: inbound JSON frames are decoded in two phases —
//! the outer envelope first, to discover the topic or operation, then the
//! topic-specific payload. The JSON tree is parsed by serde_json behind
//! trusted wrappers whose contracts speak of a named model of the parse
//! (`json_doc`, `val_model`), so each decoder's result is pinned as a
//! function of the frame text alone.

use vstd::prelude::*;
use vstd::string::StrSliceExecFns;
use vstd::string::StringExecFns;
use crate::types::HandleError;

verus! {

/// Declares serde_json::Value so the decoded JSON tree can pass through
/// verified code; the value itself is opaque, everything read out of it
/// goes through the accessor wrappers below, whose contracts speak of
/// `val_model`.
#[verifier::external_type_specification]
#[verifier::external_body]
pub struct ExValue(serde_json::Value);

/// Declares serde_json::Error so the parse wrapper can return it; verified
/// code maps it to the library's own decode error.
#[verifier::external_type_specification]
#[verifier::external_body]
pub struct ExJsonError(serde_json::Error);

/// The mathematical shape of a parsed JSON value. Numbers follow
/// serde_json's own representation: a non-negative integer, a negative
/// integer (always below zero), or a float, which this library never
/// reads.
pub enum JsonRep {
    Null,
    Bool(bool),
    NumU(u64),
    NumI(i64),
    NumF,
    Str(Seq<char>),
    Arr(Seq<JsonRep>),
    Obj(Map<Seq<char>, JsonRep>),
}

/// What serde_json's parse returns for a given text: `None` where the
/// parser rejects the document, its tree otherwise. A function of the
/// text alone.
pub uninterp spec fn json_doc(s: Seq<char>) -> Option<JsonRep>;

/// The shape of one parsed serde_json value.
pub uninterp spec fn val_model(v: serde_json::Value) -> JsonRep;

pub open spec fn models_of(a: Seq<serde_json::Value>) -> Seq<JsonRep> {
    a.map_values(|e: serde_json::Value| val_model(e))
}

/// The member of an object under a key, if the value is an object and the
/// key is present.
pub open spec fn obj_field(d: JsonRep, key: Seq<char>) -> Option<JsonRep> {
    match d {
        JsonRep::Obj(m) => if m.contains_key(key) {
            Some(m[key])
        } else {
            None
        },
        _ => None,
    }
}

pub open spec fn str_of(d: JsonRep) -> Option<Seq<char>> {
    match d {
        JsonRep::Str(s) => Some(s),
        _ => None,
    }
}

pub open spec fn bool_of(d: JsonRep) -> Option<bool> {
    match d {
        JsonRep::Bool(b) => Some(b),
        _ => None,
    }
}

pub open spec fn u64_of(d: JsonRep) -> Option<u64> {
    match d {
        JsonRep::NumU(n) => Some(n),
        _ => None,
    }
}

pub open spec fn i64_of(d: JsonRep) -> Option<i64> {
    match d {
        JsonRep::NumU(n) => if n <= i64::MAX {
            Some(n as i64)
        } else {
            None
        },
        JsonRep::NumI(n) => Some(n),
        _ => None,
    }
}

pub open spec fn arr_of(d: JsonRep) -> Option<Seq<JsonRep>> {
    match d {
        JsonRep::Arr(s) => Some(s),
        _ => None,
    }
}

pub open spec fn str_field(d: JsonRep, key: Seq<char>) -> Option<Seq<char>> {
    match obj_field(d, key) {
        Some(f) => str_of(f),
        None => None,
    }
}

pub open spec fn u64_field(d: JsonRep, key: Seq<char>) -> Option<u64> {
    match obj_field(d, key) {
        Some(f) => u64_of(f),
        None => None,
    }
}

pub open spec fn bool_field(d: JsonRep, key: Seq<char>) -> Option<bool> {
    match obj_field(d, key) {
        Some(f) => bool_of(f),
        None => None,
    }
}

/// Relies on serde_json::from_str::<Value>: parses one JSON document; the
/// result is a function of the text alone, named by `json_doc`.
#[verifier::external_body]
fn parse_json(s: &str) -> (r: Result<serde_json::Value, serde_json::Error>)
    ensures
        match r {
            Ok(v) => json_doc(s@) == Some(val_model(v)),
            Err(_) => json_doc(s@) is None,
        },
{
    serde_json::from_str(s)
}

/// Relies on serde_json::Value::get: the member of an object under a key,
/// `None` when the value is not an object or the key is absent.
#[verifier::external_body]
fn obj_get<'a>(v: &'a serde_json::Value, key: &str) -> (r: Option<&'a serde_json::Value>)
    ensures
        match r {
            Some(f) => obj_field(val_model(*v), key@) == Some(val_model(*f)),
            None => obj_field(val_model(*v), key@) is None,
        },
{
    v.get(key)
}

/// Relies on serde_json::Value::as_str: the text of a JSON string value.
#[verifier::external_body]
fn val_as_str<'a>(v: &'a serde_json::Value) -> (r: Option<&'a str>)
    ensures
        match r {
            Some(s) => str_of(val_model(*v)) == Some(s@),
            None => str_of(val_model(*v)) is None,
        },
{
    v.as_str()
}

/// Relies on serde_json::Value::as_i64: a JSON number as a signed integer
/// (a non-negative integer within range, or a negative integer).
#[verifier::external_body]
fn val_as_i64(v: &serde_json::Value) -> (r: Option<i64>)
    ensures
        r == i64_of(val_model(*v)),
{
    v.as_i64()
}

/// Relies on serde_json::Value::as_u64: a JSON number as an unsigned
/// integer.
#[verifier::external_body]
fn val_as_u64(v: &serde_json::Value) -> (r: Option<u64>)
    ensures
        r == u64_of(val_model(*v)),
{
    v.as_u64()
}

/// Relies on serde_json::Value::as_bool: a JSON boolean.
#[verifier::external_body]
fn val_as_bool(v: &serde_json::Value) -> (r: Option<bool>)
    ensures
        r == bool_of(val_model(*v)),
{
    v.as_bool()
}

/// Relies on serde_json::Value::as_array: the elements of a JSON array.
#[verifier::external_body]
fn val_as_array<'a>(v: &'a serde_json::Value) -> (r: Option<&'a Vec<serde_json::Value>>)
    ensures
        match r {
            Some(a) => arr_of(val_model(*v)) == Some(models_of(a@)),
            None => arr_of(val_model(*v)) is None,
        },
{
    v.as_array()
}

/// Content equality of two string slices.
pub fn str_eq(a: &str, b: &str) -> (r: bool)
    ensures
        r == (a@ == b@),
{
    let n = a.unicode_len();
    if n != b.unicode_len() {
        return false;
    }
    let mut i: usize = 0;
    while i < n
        invariant
            i <= n == a@.len(),
            b@.len() == n,
            forall|k: int| 0 <= k < i ==> a@[k] == b@[k],
        decreases n - i,
    {
        if a.get_char(i) != b.get_char(i) {
            return false;
        }
        i = i + 1;
    }
    proof {
        assert(a@ =~= b@);
    }
    true
}

/// Whether `s` starts with the prefix `p`, by content.
pub open spec fn prefix_of(s: Seq<char>, p: Seq<char>) -> bool {
    s.len() >= p.len() && s.take(p.len() as int) == p
}

pub fn str_starts_with(s: &str, p: &str) -> (r: bool)
    ensures
        r == prefix_of(s@, p@),
{
    let n = s.unicode_len();
    let m = p.unicode_len();
    if n < m {
        return false;
    }
    let mut i: usize = 0;
    while i < m
        invariant
            i <= m == p@.len(),
            m <= n == s@.len(),
            forall|k: int| 0 <= k < i ==> s@[k] == p@[k],
        decreases m - i,
    {
        if s.get_char(i) != p.get_char(i) {
            proof {
                assert(s@.take(p@.len() as int)[i as int] == s@[i as int]);
            }
            return false;
        }
        i = i + 1;
    }
    proof {
        assert(s@.take(p@.len() as int) =~= p@);
    }
    true
}

fn get_string(v: &serde_json::Value, key: &str) -> (r: Option<String>)
    ensures
        match r {
            Some(s) => str_field(val_model(*v), key@) == Some(s@),
            None => str_field(val_model(*v), key@) is None,
        },
{
    match obj_get(v, key) {
        Some(f) => match val_as_str(f) {
            Some(s) => Some(String::from_str(s)),
            None => None,
        },
        None => None,
    }
}

fn get_u64(v: &serde_json::Value, key: &str) -> (r: Option<u64>)
    ensures
        r == u64_field(val_model(*v), key@),
{
    match obj_get(v, key) {
        Some(f) => val_as_u64(f),
        None => None,
    }
}

fn get_bool(v: &serde_json::Value, key: &str) -> (r: Option<bool>)
    ensures
        r == bool_field(val_model(*v), key@),
{
    match obj_get(v, key) {
        Some(f) => val_as_bool(f),
        None => None,
    }
}

/// Decodes a homogeneous list element by element; the first failing
/// element fails the list with its error.
pub open spec fn list_decode<T>(
    elems: Seq<JsonRep>,
    f: spec_fn(JsonRep) -> Result<T, HandleError>,
) -> Result<Seq<T>, HandleError>
    decreases elems.len(),
{
    if elems.len() == 0 {
        Ok(Seq::empty())
    } else {
        match list_decode(elems.drop_last(), f) {
            Err(e) => Err(e),
            Ok(rest) => match f(elems.last()) {
                Err(e) => Err(e),
                Ok(x) => Ok(rest.push(x)),
            },
        }
    }
}

proof fn lemma_list_decode_err<T>(
    elems: Seq<JsonRep>,
    f: spec_fn(JsonRep) -> Result<T, HandleError>,
    i: int,
    e: HandleError,
)
    requires
        0 <= i < elems.len(),
        list_decode(elems.take(i), f) is Ok,
        f(elems[i]) == Result::<T, HandleError>::Err(e),
    ensures
        list_decode(elems, f) == Result::<Seq<T>, HandleError>::Err(e),
    decreases elems.len(),
{
    if elems.len() == i + 1 {
        assert(elems.drop_last() =~= elems.take(i));
        assert(elems.last() == elems[i]);
    } else {
        assert(elems.drop_last().take(i) =~= elems.take(i));
        assert(elems.drop_last()[i] == elems[i]);
        lemma_list_decode_err(elems.drop_last(), f, i, e);
    }
}

/// One raw public-trade element, all fields as the venue sent them.
pub struct TradeItemRaw {
    pub symbol: String,
    pub ts: Option<u64>,
    pub side: String,
    pub price: String,
    pub size: String,
}

/// One raw position element.
pub struct PositionItemRaw {
    pub symbol: String,
    pub value: String,
}

/// One raw execution (fill) element.
pub struct ExecItemRaw {
    pub order_id: String,
    pub order_link_id: String,
    pub exec_qty: String,
}

/// One raw order-state element.
pub struct OrderItemRaw {
    pub order_id: String,
    pub order_link_id: String,
    pub status: String,
}

/// The mathematical reading of a public-trade element.
pub struct TradeItemModel {
    pub symbol: Seq<char>,
    pub ts: Option<u64>,
    pub side: Seq<char>,
    pub price: Seq<char>,
    pub size: Seq<char>,
}

pub struct PositionItemModel {
    pub symbol: Seq<char>,
    pub value: Seq<char>,
}

pub struct ExecItemModel {
    pub order_id: Seq<char>,
    pub order_link_id: Seq<char>,
    pub exec_qty: Seq<char>,
}

pub struct OrderItemModel {
    pub order_id: Seq<char>,
    pub order_link_id: Seq<char>,
    pub status: Seq<char>,
}

pub open spec fn trade_item_view(it: TradeItemRaw) -> TradeItemModel {
    TradeItemModel {
        symbol: it.symbol@,
        ts: it.ts,
        side: it.side@,
        price: it.price@,
        size: it.size@,
    }
}

pub open spec fn pos_item_view(it: PositionItemRaw) -> PositionItemModel {
    PositionItemModel { symbol: it.symbol@, value: it.value@ }
}

pub open spec fn exec_item_view(it: ExecItemRaw) -> ExecItemModel {
    ExecItemModel {
        order_id: it.order_id@,
        order_link_id: it.order_link_id@,
        exec_qty: it.exec_qty@,
    }
}

pub open spec fn order_item_view(it: OrderItemRaw) -> OrderItemModel {
    OrderItemModel {
        order_id: it.order_id@,
        order_link_id: it.order_link_id@,
        status: it.status@,
    }
}

/// The decoded envelope of a public-session frame.
pub enum PublicMsg {
    /// A control acknowledgement (subscribe, ping, ...).
    Ack { op: String, success: Option<bool>, req_id: Option<String> },
    /// An order-book topic payload.
    OrderBook {
        symbol: String,
        cts: Option<u64>,
        bids: Vec<(String, String)>,
        asks: Vec<(String, String)>,
    },
    /// A public-trade topic payload.
    Trades { items: Vec<TradeItemRaw> },
    /// A topic this handler does not route.
    UnknownTopic { topic: String },
}

/// The mathematical reading of a public frame.
pub enum PubModel {
    Ack { op: Seq<char>, success: Option<bool>, req_id: Option<Seq<char>> },
    OrderBook {
        symbol: Seq<char>,
        cts: Option<u64>,
        bids: Seq<(Seq<char>, Seq<char>)>,
        asks: Seq<(Seq<char>, Seq<char>)>,
    },
    Trades { items: Seq<TradeItemModel> },
    Unknown,
}

/// The decoded envelope of a private-session frame.
pub enum PrivateMsg {
    Ack { op: String, success: Option<bool> },
    Positions { items: Vec<PositionItemRaw> },
    Executions { items: Vec<ExecItemRaw> },
    Orders { items: Vec<OrderItemRaw> },
    UnknownTopic { topic: String },
}

/// The mathematical reading of a private frame.
pub enum PrivModel {
    Ack { op: Seq<char>, success: Option<bool> },
    Positions { items: Seq<PositionItemModel> },
    Executions { items: Seq<ExecItemModel> },
    Orders { items: Seq<OrderItemModel> },
    Unknown,
}

/// The decoded envelope of an order-entry acknowledgement frame.
pub struct TradeAck {
    pub op: String,
    pub req_id: Option<String>,
    pub ret_code: i64,
    pub ret_msg: String,
}

/// The mathematical reading of an order-entry acknowledgement.
pub struct TradeAckModel {
    pub op: Seq<char>,
    pub req_id: Option<Seq<char>>,
    pub ret_code: i64,
    pub ret_msg: Seq<char>,
}

pub open spec fn opt_str_view(o: Option<String>) -> Option<Seq<char>> {
    match o {
        Some(s) => Some(s@),
        None => None,
    }
}

/// One `[price, quantity]` level element.
pub open spec fn spec_level_pair(e: JsonRep) -> Result<(Seq<char>, Seq<char>), HandleError> {
    match arr_of(e) {
        None => Err(HandleError::Decode),
        Some(p) => if p.len() < 2 {
            Err(HandleError::Decode)
        } else {
            match str_of(p[0]) {
                None => Err(HandleError::Decode),
                Some(px) => match str_of(p[1]) {
                    None => Err(HandleError::Decode),
                    Some(qty) => Ok((px, qty)),
                },
            }
        },
    }
}

/// A whole side of an order-book payload.
pub open spec fn spec_raw_levels(d: JsonRep) -> Result<Seq<(Seq<char>, Seq<char>)>, HandleError> {
    match arr_of(d) {
        None => Err(HandleError::Decode),
        Some(elems) => list_decode(elems, |e: JsonRep| spec_level_pair(e)),
    }
}

pub open spec fn spec_trade_elem(e: JsonRep) -> Result<TradeItemModel, HandleError> {
    match str_field(e, "s"@) {
        None => Err(HandleError::Decode),
        Some(symbol) => match str_field(e, "S"@) {
            None => Err(HandleError::Decode),
            Some(side) => match str_field(e, "p"@) {
                None => Err(HandleError::Decode),
                Some(price) => match str_field(e, "v"@) {
                    None => Err(HandleError::Decode),
                    Some(size) => Ok(
                        TradeItemModel { symbol, ts: u64_field(e, "T"@), side, price, size },
                    ),
                },
            },
        },
    }
}

pub open spec fn spec_pos_elem(e: JsonRep) -> Result<PositionItemModel, HandleError> {
    match str_field(e, "symbol"@) {
        None => Err(HandleError::Decode),
        Some(symbol) => match str_field(e, "positionValue"@) {
            None => Err(HandleError::Decode),
            Some(value) => Ok(PositionItemModel { symbol, value }),
        },
    }
}

pub open spec fn spec_exec_elem(e: JsonRep) -> Result<ExecItemModel, HandleError> {
    match str_field(e, "orderId"@) {
        None => Err(HandleError::Decode),
        Some(order_id) => match str_field(e, "orderLinkId"@) {
            None => Err(HandleError::Decode),
            Some(order_link_id) => match str_field(e, "execQty"@) {
                None => Err(HandleError::Decode),
                Some(exec_qty) => Ok(ExecItemModel { order_id, order_link_id, exec_qty }),
            },
        },
    }
}

pub open spec fn spec_order_elem(e: JsonRep) -> Result<OrderItemModel, HandleError> {
    match str_field(e, "orderId"@) {
        None => Err(HandleError::Decode),
        Some(order_id) => match str_field(e, "orderLinkId"@) {
            None => Err(HandleError::Decode),
            Some(order_link_id) => match str_field(e, "orderStatus"@) {
                None => Err(HandleError::Decode),
                Some(status) => Ok(OrderItemModel { order_id, order_link_id, status }),
            },
        },
    }
}

/// The exact reading of a public frame's document: envelope first, then
/// the topic payload once the topic is known.
pub open spec fn spec_decode_public(d: JsonRep) -> Result<PubModel, HandleError> {
    match str_field(d, "topic"@) {
        None => match str_field(d, "op"@) {
            None => Err(HandleError::Decode),
            Some(op) => Ok(
                PubModel::Ack {
                    op,
                    success: bool_field(d, "success"@),
                    req_id: str_field(d, "req_id"@),
                },
            ),
        },
        Some(topic) => if prefix_of(topic, "orderbook"@) {
            match obj_field(d, "data"@) {
                None => Err(HandleError::Decode),
                Some(data) => match str_field(data, "s"@) {
                    None => Err(HandleError::Decode),
                    Some(symbol) => match obj_field(data, "b"@) {
                        None => Err(HandleError::Decode),
                        Some(bv) => match obj_field(data, "a"@) {
                            None => Err(HandleError::Decode),
                            Some(av) => match spec_raw_levels(bv) {
                                Err(e) => Err(e),
                                Ok(bids) => match spec_raw_levels(av) {
                                    Err(e) => Err(e),
                                    Ok(asks) => Ok(
                                        PubModel::OrderBook {
                                            symbol,
                                            cts: u64_field(d, "cts"@),
                                            bids,
                                            asks,
                                        },
                                    ),
                                },
                            },
                        },
                    },
                },
            }
        } else if prefix_of(topic, "publicTrade"@) {
            match obj_field(d, "data"@) {
                None => Err(HandleError::Decode),
                Some(data) => match arr_of(data) {
                    None => Err(HandleError::Decode),
                    Some(elems) => match list_decode(elems, |e: JsonRep| spec_trade_elem(e)) {
                        Err(e) => Err(e),
                        Ok(items) => Ok(PubModel::Trades { items }),
                    },
                },
            }
        } else {
            Ok(PubModel::Unknown)
        },
    }
}

/// The exact reading of a private frame's document.
pub open spec fn spec_decode_private(d: JsonRep) -> Result<PrivModel, HandleError> {
    match str_field(d, "topic"@) {
        None => match str_field(d, "op"@) {
            None => Err(HandleError::Decode),
            Some(op) => Ok(PrivModel::Ack { op, success: bool_field(d, "success"@) }),
        },
        Some(topic) => match obj_field(d, "data"@) {
            None => Err(HandleError::Decode),
            Some(data) => match arr_of(data) {
                None => Err(HandleError::Decode),
                Some(elems) => if prefix_of(topic, "position"@) {
                    match list_decode(elems, |e: JsonRep| spec_pos_elem(e)) {
                        Err(e) => Err(e),
                        Ok(items) => Ok(PrivModel::Positions { items }),
                    }
                } else if prefix_of(topic, "execution"@) {
                    match list_decode(elems, |e: JsonRep| spec_exec_elem(e)) {
                        Err(e) => Err(e),
                        Ok(items) => Ok(PrivModel::Executions { items }),
                    }
                } else if prefix_of(topic, "order"@) {
                    match list_decode(elems, |e: JsonRep| spec_order_elem(e)) {
                        Err(e) => Err(e),
                        Ok(items) => Ok(PrivModel::Orders { items }),
                    }
                } else {
                    Ok(PrivModel::Unknown)
                },
            },
        },
    }
}

/// The exact reading of an order-entry acknowledgement document. A
/// missing or non-integer result code is a decode failure; a missing
/// message reads as empty.
pub open spec fn spec_decode_trade(d: JsonRep) -> Result<TradeAckModel, HandleError> {
    match str_field(d, "op"@) {
        None => Err(HandleError::Decode),
        Some(op) => match obj_field(d, "retCode"@) {
            None => Err(HandleError::Decode),
            Some(rc) => match i64_of(rc) {
                None => Err(HandleError::Decode),
                Some(ret_code) => Ok(
                    TradeAckModel {
                        op,
                        req_id: str_field(d, "reqId"@),
                        ret_code,
                        ret_msg: match str_field(d, "retMsg"@) {
                            Some(m) => m,
                            None => Seq::empty(),
                        },
                    },
                ),
            },
        },
    }
}

/// The decoded message carries exactly the model's content.
pub open spec fn pub_msg_matches(m: PublicMsg, mm: PubModel) -> bool {
    match (m, mm) {
        (PublicMsg::Ack { op, success, req_id }, PubModel::Ack { op: o2, success: s2, req_id: r2 }) => op@
            == o2 && success == s2 && opt_str_view(req_id) == r2,
        (
            PublicMsg::OrderBook { symbol, cts, bids, asks },
            PubModel::OrderBook { symbol: sy2, cts: c2, bids: b2, asks: a2 },
        ) => symbol@ == sy2 && cts == c2 && crate::decimal::raw_pairs_view(bids@) == b2
            && crate::decimal::raw_pairs_view(asks@) == a2,
        (PublicMsg::Trades { items }, PubModel::Trades { items: it2 }) => items@.map_values(
            |it: TradeItemRaw| trade_item_view(it),
        ) == it2,
        (PublicMsg::UnknownTopic { .. }, PubModel::Unknown) => true,
        _ => false,
    }
}

pub open spec fn priv_msg_matches(m: PrivateMsg, mm: PrivModel) -> bool {
    match (m, mm) {
        (PrivateMsg::Ack { op, success }, PrivModel::Ack { op: o2, success: s2 }) => op@ == o2
            && success == s2,
        (PrivateMsg::Positions { items }, PrivModel::Positions { items: it2 }) => items@.map_values(
            |it: PositionItemRaw| pos_item_view(it),
        ) == it2,
        (PrivateMsg::Executions { items }, PrivModel::Executions { items: it2 }) => items@.map_values(
            |it: ExecItemRaw| exec_item_view(it),
        ) == it2,
        (PrivateMsg::Orders { items }, PrivModel::Orders { items: it2 }) => items@.map_values(
            |it: OrderItemRaw| order_item_view(it),
        ) == it2,
        (PrivateMsg::UnknownTopic { .. }, PrivModel::Unknown) => true,
        _ => false,
    }
}

pub open spec fn trade_ack_matches(a: TradeAck, am: TradeAckModel) -> bool {
    a.op@ == am.op && opt_str_view(a.req_id) == am.req_id && a.ret_code == am.ret_code
        && a.ret_msg@ == am.ret_msg
}

fn raw_levels(v: &serde_json::Value) -> (r: Result<Vec<(String, String)>, HandleError>)
    ensures
        match r {
            Ok(out) => spec_raw_levels(val_model(*v)) == Result::<
                Seq<(Seq<char>, Seq<char>)>,
                HandleError,
            >::Ok(crate::decimal::raw_pairs_view(out@)),
            Err(e) => spec_raw_levels(val_model(*v)) == Result::<
                Seq<(Seq<char>, Seq<char>)>,
                HandleError,
            >::Err(e),
        },
{
    let arr = match val_as_array(v) {
        Some(a) => a,
        None => {
            return Err(HandleError::Decode);
        },
    };
    let ghost elems = models_of(arr@);
    let ghost f = |e: JsonRep| spec_level_pair(e);
    let mut out: Vec<(String, String)> = Vec::new();
    let mut i: usize = 0;
    proof {
        assert(elems.take(0) =~= Seq::<JsonRep>::empty());
        assert(crate::decimal::raw_pairs_view(out@) =~= Seq::<(Seq<char>, Seq<char>)>::empty());
    }
    while i < arr.len()
        invariant
            i <= arr@.len() == elems.len(),
            elems == models_of(arr@),
            f == (|e: JsonRep| spec_level_pair(e)),
            spec_raw_levels(val_model(*v)) == list_decode(elems, f),
            list_decode(elems.take(i as int), f) == Result::<
                Seq<(Seq<char>, Seq<char>)>,
                HandleError,
            >::Ok(crate::decimal::raw_pairs_view(out@)),
        decreases arr@.len() - i,
    {
        proof {
            assert(elems[i as int] == val_model(arr@[i as int]));
            assert(elems.take(i + 1).drop_last() =~= elems.take(i as int));
            assert(elems.take(i + 1).last() == elems[i as int]);
        }
        let pair = match val_as_array(&arr[i]) {
            Some(p) => p,
            None => {
                proof {
                    lemma_list_decode_err(elems, f, i as int, HandleError::Decode);
                }
                return Err(HandleError::Decode);
            },
        };
        if pair.len() < 2 {
            proof {
                lemma_list_decode_err(elems, f, i as int, HandleError::Decode);
            }
            return Err(HandleError::Decode);
        }
        proof {
            assert(models_of(pair@)[0] == val_model(pair@[0]));
            assert(models_of(pair@)[1] == val_model(pair@[1]));
        }
        let px = match val_as_str(&pair[0]) {
            Some(s) => String::from_str(s),
            None => {
                proof {
                    lemma_list_decode_err(elems, f, i as int, HandleError::Decode);
                }
                return Err(HandleError::Decode);
            },
        };
        let qty = match val_as_str(&pair[1]) {
            Some(s) => String::from_str(s),
            None => {
                proof {
                    lemma_list_decode_err(elems, f, i as int, HandleError::Decode);
                }
                return Err(HandleError::Decode);
            },
        };
        let ghost pre_view = crate::decimal::raw_pairs_view(out@);
        out.push((px, qty));
        proof {
            assert(crate::decimal::raw_pairs_view(out@) =~= pre_view.push((px@, qty@)));
        }
        i = i + 1;
    }
    proof {
        assert(elems.take(elems.len() as int) =~= elems);
    }
    Ok(out)
}

/// First decode phase of a public frame, exact against `json_doc` of the
/// text: the envelope, then — once the topic is known — the topic-specific
/// payload shape. A malformed frame fails only this message.
pub fn decode_public(text: &str) -> (r: Result<PublicMsg, HandleError>)
    ensures
        match json_doc(text@) {
            None => r == Result::<PublicMsg, HandleError>::Err(HandleError::Decode),
            Some(d) => match (r, spec_decode_public(d)) {
                (Ok(m), Ok(mm)) => pub_msg_matches(m, mm),
                (Err(e1), Err(e2)) => e1 == e2,
                _ => false,
            },
        },
{
    let v = match parse_json(text) {
        Ok(v) => v,
        Err(_) => {
            return Err(HandleError::Decode);
        },
    };
    let ghost d = val_model(v);
    let topic = match get_string(&v, "topic") {
        Some(t) => t,
        None => {
            let op = match get_string(&v, "op") {
                Some(o) => o,
                None => {
                    return Err(HandleError::Decode);
                },
            };
            return Ok(PublicMsg::Ack {
                op,
                success: get_bool(&v, "success"),
                req_id: get_string(&v, "req_id"),
            });
        },
    };
    if str_starts_with(topic.as_str(), "orderbook") {
        let data = match obj_get(&v, "data") {
            Some(d) => d,
            None => {
                return Err(HandleError::Decode);
            },
        };
        let symbol = match get_string(data, "s") {
            Some(s) => s,
            None => {
                return Err(HandleError::Decode);
            },
        };
        let bids_v = match obj_get(data, "b") {
            Some(b) => b,
            None => {
                return Err(HandleError::Decode);
            },
        };
        let asks_v = match obj_get(data, "a") {
            Some(a) => a,
            None => {
                return Err(HandleError::Decode);
            },
        };
        let bids = match raw_levels(bids_v) {
            Ok(b) => b,
            Err(e) => {
                return Err(e);
            },
        };
        let asks = match raw_levels(asks_v) {
            Ok(a) => a,
            Err(e) => {
                return Err(e);
            },
        };
        Ok(PublicMsg::OrderBook { symbol, cts: get_u64(&v, "cts"), bids, asks })
    } else if str_starts_with(topic.as_str(), "publicTrade") {
        let data = match obj_get(&v, "data") {
            Some(d) => d,
            None => {
                return Err(HandleError::Decode);
            },
        };
        let arr = match val_as_array(data) {
            Some(a) => a,
            None => {
                return Err(HandleError::Decode);
            },
        };
        let ghost elems = models_of(arr@);
        let ghost f = |e: JsonRep| spec_trade_elem(e);
        let mut items: Vec<TradeItemRaw> = Vec::new();
        let mut i: usize = 0;
        proof {
            assert(elems.take(0) =~= Seq::<JsonRep>::empty());
            assert(items@.map_values(|it: TradeItemRaw| trade_item_view(it)) =~= Seq::<
                TradeItemModel,
            >::empty());
        }
        while i < arr.len()
            invariant
                i <= arr@.len() == elems.len(),
                elems == models_of(arr@),
                f == (|e: JsonRep| spec_trade_elem(e)),
                json_doc(text@) == Some(d),
                spec_decode_public(d) == (match list_decode(elems, f) {
                    Err(e) => Result::<PubModel, HandleError>::Err(e),
                    Ok(its) => Result::<PubModel, HandleError>::Ok(PubModel::Trades { items: its }),
                }),
                list_decode(elems.take(i as int), f) == Result::<
                    Seq<TradeItemModel>,
                    HandleError,
                >::Ok(items@.map_values(|it: TradeItemRaw| trade_item_view(it))),
            decreases arr@.len() - i,
        {
            proof {
                assert(elems[i as int] == val_model(arr@[i as int]));
                assert(elems.take(i + 1).drop_last() =~= elems.take(i as int));
                assert(elems.take(i + 1).last() == elems[i as int]);
            }
            let e = &arr[i];
            let symbol = match get_string(e, "s") {
                Some(s) => s,
                None => {
                    proof {
                        lemma_list_decode_err(elems, f, i as int, HandleError::Decode);
                    }
                    return Err(HandleError::Decode);
                },
            };
            let side = match get_string(e, "S") {
                Some(s) => s,
                None => {
                    proof {
                        lemma_list_decode_err(elems, f, i as int, HandleError::Decode);
                    }
                    return Err(HandleError::Decode);
                },
            };
            let price = match get_string(e, "p") {
                Some(s) => s,
                None => {
                    proof {
                        lemma_list_decode_err(elems, f, i as int, HandleError::Decode);
                    }
                    return Err(HandleError::Decode);
                },
            };
            let size = match get_string(e, "v") {
                Some(s) => s,
                None => {
                    proof {
                        lemma_list_decode_err(elems, f, i as int, HandleError::Decode);
                    }
                    return Err(HandleError::Decode);
                },
            };
            let ghost pre_view = items@.map_values(|it: TradeItemRaw| trade_item_view(it));
            let item = TradeItemRaw { symbol, ts: get_u64(e, "T"), side, price, size };
            proof {
                assert(f(elems[i as int]) == Result::<TradeItemModel, HandleError>::Ok(
                    trade_item_view(item),
                ));
            }
            items.push(item);
            proof {
                assert(items@.map_values(|it: TradeItemRaw| trade_item_view(it)) =~= pre_view.push(
                    trade_item_view(item),
                ));
            }
            i = i + 1;
        }
        proof {
            assert(elems.take(elems.len() as int) =~= elems);
        }
        Ok(PublicMsg::Trades { items })
    } else {
        Ok(PublicMsg::UnknownTopic { topic })
    }
}

/// First decode phase of a private frame, exact against `json_doc`.
pub fn decode_private(text: &str) -> (r: Result<PrivateMsg, HandleError>)
    ensures
        match json_doc(text@) {
            None => r == Result::<PrivateMsg, HandleError>::Err(HandleError::Decode),
            Some(d) => match (r, spec_decode_private(d)) {
                (Ok(m), Ok(mm)) => priv_msg_matches(m, mm),
                (Err(e1), Err(e2)) => e1 == e2,
                _ => false,
            },
        },
{
    let v = match parse_json(text) {
        Ok(v) => v,
        Err(_) => {
            return Err(HandleError::Decode);
        },
    };
    let ghost d = val_model(v);
    let topic = match get_string(&v, "topic") {
        Some(t) => t,
        None => {
            let op = match get_string(&v, "op") {
                Some(o) => o,
                None => {
                    return Err(HandleError::Decode);
                },
            };
            return Ok(PrivateMsg::Ack { op, success: get_bool(&v, "success") });
        },
    };
    let data = match obj_get(&v, "data") {
        Some(d) => d,
        None => {
            return Err(HandleError::Decode);
        },
    };
    let arr = match val_as_array(data) {
        Some(a) => a,
        None => {
            return Err(HandleError::Decode);
        },
    };
    let ghost elems = models_of(arr@);
    if str_starts_with(topic.as_str(), "position") {
        let ghost f = |e: JsonRep| spec_pos_elem(e);
        let mut items: Vec<PositionItemRaw> = Vec::new();
        let mut i: usize = 0;
        proof {
            assert(elems.take(0) =~= Seq::<JsonRep>::empty());
            assert(items@.map_values(|it: PositionItemRaw| pos_item_view(it)) =~= Seq::<
                PositionItemModel,
            >::empty());
        }
        while i < arr.len()
            invariant
                i <= arr@.len() == elems.len(),
                elems == models_of(arr@),
                f == (|e: JsonRep| spec_pos_elem(e)),
                json_doc(text@) == Some(d),
                spec_decode_private(d) == (match list_decode(elems, f) {
                    Err(e) => Result::<PrivModel, HandleError>::Err(e),
                    Ok(its) => Result::<PrivModel, HandleError>::Ok(
                        PrivModel::Positions { items: its },
                    ),
                }),
                list_decode(elems.take(i as int), f) == Result::<
                    Seq<PositionItemModel>,
                    HandleError,
                >::Ok(items@.map_values(|it: PositionItemRaw| pos_item_view(it))),
            decreases arr@.len() - i,
        {
            proof {
                assert(elems[i as int] == val_model(arr@[i as int]));
                assert(elems.take(i + 1).drop_last() =~= elems.take(i as int));
                assert(elems.take(i + 1).last() == elems[i as int]);
            }
            let e = &arr[i];
            let symbol = match get_string(e, "symbol") {
                Some(s) => s,
                None => {
                    proof {
                        lemma_list_decode_err(elems, f, i as int, HandleError::Decode);
                    }
                    return Err(HandleError::Decode);
                },
            };
            let value = match get_string(e, "positionValue") {
                Some(s) => s,
                None => {
                    proof {
                        lemma_list_decode_err(elems, f, i as int, HandleError::Decode);
                    }
                    return Err(HandleError::Decode);
                },
            };
            let ghost pre_view = items@.map_values(|it: PositionItemRaw| pos_item_view(it));
            let item = PositionItemRaw { symbol, value };
            items.push(item);
            proof {
                assert(items@.map_values(|it: PositionItemRaw| pos_item_view(it)) =~= pre_view.push(
                    pos_item_view(item),
                ));
            }
            i = i + 1;
        }
        proof {
            assert(elems.take(elems.len() as int) =~= elems);
        }
        Ok(PrivateMsg::Positions { items })
    } else if str_starts_with(topic.as_str(), "execution") {
        let ghost f = |e: JsonRep| spec_exec_elem(e);
        let mut items: Vec<ExecItemRaw> = Vec::new();
        let mut i: usize = 0;
        proof {
            assert(elems.take(0) =~= Seq::<JsonRep>::empty());
            assert(items@.map_values(|it: ExecItemRaw| exec_item_view(it)) =~= Seq::<
                ExecItemModel,
            >::empty());
        }
        while i < arr.len()
            invariant
                i <= arr@.len() == elems.len(),
                elems == models_of(arr@),
                f == (|e: JsonRep| spec_exec_elem(e)),
                json_doc(text@) == Some(d),
                spec_decode_private(d) == (match list_decode(elems, f) {
                    Err(e) => Result::<PrivModel, HandleError>::Err(e),
                    Ok(its) => Result::<PrivModel, HandleError>::Ok(
                        PrivModel::Executions { items: its },
                    ),
                }),
                list_decode(elems.take(i as int), f) == Result::<
                    Seq<ExecItemModel>,
                    HandleError,
                >::Ok(items@.map_values(|it: ExecItemRaw| exec_item_view(it))),
            decreases arr@.len() - i,
        {
            proof {
                assert(elems[i as int] == val_model(arr@[i as int]));
                assert(elems.take(i + 1).drop_last() =~= elems.take(i as int));
                assert(elems.take(i + 1).last() == elems[i as int]);
            }
            let e = &arr[i];
            let order_id = match get_string(e, "orderId") {
                Some(s) => s,
                None => {
                    proof {
                        lemma_list_decode_err(elems, f, i as int, HandleError::Decode);
                    }
                    return Err(HandleError::Decode);
                },
            };
            let order_link_id = match get_string(e, "orderLinkId") {
                Some(s) => s,
                None => {
                    proof {
                        lemma_list_decode_err(elems, f, i as int, HandleError::Decode);
                    }
                    return Err(HandleError::Decode);
                },
            };
            let exec_qty = match get_string(e, "execQty") {
                Some(s) => s,
                None => {
                    proof {
                        lemma_list_decode_err(elems, f, i as int, HandleError::Decode);
                    }
                    return Err(HandleError::Decode);
                },
            };
            let ghost pre_view = items@.map_values(|it: ExecItemRaw| exec_item_view(it));
            let item = ExecItemRaw { order_id, order_link_id, exec_qty };
            items.push(item);
            proof {
                assert(items@.map_values(|it: ExecItemRaw| exec_item_view(it)) =~= pre_view.push(
                    exec_item_view(item),
                ));
            }
            i = i + 1;
        }
        proof {
            assert(elems.take(elems.len() as int) =~= elems);
        }
        Ok(PrivateMsg::Executions { items })
    } else if str_starts_with(topic.as_str(), "order") {
        let ghost f = |e: JsonRep| spec_order_elem(e);
        let mut items: Vec<OrderItemRaw> = Vec::new();
        let mut i: usize = 0;
        proof {
            assert(elems.take(0) =~= Seq::<JsonRep>::empty());
            assert(items@.map_values(|it: OrderItemRaw| order_item_view(it)) =~= Seq::<
                OrderItemModel,
            >::empty());
        }
        while i < arr.len()
            invariant
                i <= arr@.len() == elems.len(),
                elems == models_of(arr@),
                f == (|e: JsonRep| spec_order_elem(e)),
                json_doc(text@) == Some(d),
                spec_decode_private(d) == (match list_decode(elems, f) {
                    Err(e) => Result::<PrivModel, HandleError>::Err(e),
                    Ok(its) => Result::<PrivModel, HandleError>::Ok(
                        PrivModel::Orders { items: its },
                    ),
                }),
                list_decode(elems.take(i as int), f) == Result::<
                    Seq<OrderItemModel>,
                    HandleError,
                >::Ok(items@.map_values(|it: OrderItemRaw| order_item_view(it))),
            decreases arr@.len() - i,
        {
            proof {
                assert(elems[i as int] == val_model(arr@[i as int]));
                assert(elems.take(i + 1).drop_last() =~= elems.take(i as int));
                assert(elems.take(i + 1).last() == elems[i as int]);
            }
            let e = &arr[i];
            let order_id = match get_string(e, "orderId") {
                Some(s) => s,
                None => {
                    proof {
                        lemma_list_decode_err(elems, f, i as int, HandleError::Decode);
                    }
                    return Err(HandleError::Decode);
                },
            };
            let order_link_id = match get_string(e, "orderLinkId") {
                Some(s) => s,
                None => {
                    proof {
                        lemma_list_decode_err(elems, f, i as int, HandleError::Decode);
                    }
                    return Err(HandleError::Decode);
                },
            };
            let status = match get_string(e, "orderStatus") {
                Some(s) => s,
                None => {
                    proof {
                        lemma_list_decode_err(elems, f, i as int, HandleError::Decode);
                    }
                    return Err(HandleError::Decode);
                },
            };
            let ghost pre_view = items@.map_values(|it: OrderItemRaw| order_item_view(it));
            let item = OrderItemRaw { order_id, order_link_id, status };
            items.push(item);
            proof {
                assert(items@.map_values(|it: OrderItemRaw| order_item_view(it)) =~= pre_view.push(
                    order_item_view(item),
                ));
            }
            i = i + 1;
        }
        proof {
            assert(elems.take(elems.len() as int) =~= elems);
        }
        Ok(PrivateMsg::Orders { items })
    } else {
        Ok(PrivateMsg::UnknownTopic { topic })
    }
}

/// First decode phase of an order-entry acknowledgement, exact against
/// `json_doc`: the operation and result code are required, the request id
/// and message optional.
pub fn decode_trade(text: &str) -> (r: Result<TradeAck, HandleError>)
    ensures
        match json_doc(text@) {
            None => r == Result::<TradeAck, HandleError>::Err(HandleError::Decode),
            Some(d) => match (r, spec_decode_trade(d)) {
                (Ok(a), Ok(am)) => trade_ack_matches(a, am),
                (Err(e1), Err(e2)) => e1 == e2,
                _ => false,
            },
        },
{
    let v = match parse_json(text) {
        Ok(v) => v,
        Err(_) => {
            return Err(HandleError::Decode);
        },
    };
    let op = match get_string(&v, "op") {
        Some(o) => o,
        None => {
            return Err(HandleError::Decode);
        },
    };
    let ret_code = match obj_get(&v, "retCode") {
        Some(f) => match val_as_i64(f) {
            Some(c) => c,
            None => {
                return Err(HandleError::Decode);
            },
        },
        None => {
            return Err(HandleError::Decode);
        },
    };
    let ret_msg = match get_string(&v, "retMsg") {
        Some(m) => m,
        None => String::new(),
    };
    Ok(TradeAck { op, req_id: get_string(&v, "reqId"), ret_code, ret_msg })
}

} // verus!
