//! The routing logic of the three stream handlers. Inbound frames are
//! decoded to plain messages (wire module) with contracts exact against
//! the named model of the JSON parse, then routed here: every routing
//! function is verified with an exact contract, for all values the
//! decoder can hand it, and each handler's outcome is pinned per decoded
//! frame.

use vstd::prelude::*;
use crate::assets::asset_no_of;
use crate::assets::has_symbol;
use crate::assets::lemma_asset_no_of;
use crate::assets::AssetMap;
use crate::decimal::level_str_ok;
use crate::decimal::levels_ok;
use crate::decimal::levels_parse_of;
use crate::decimal::ms_to_ns;
use crate::decimal::parse_decimal;
use crate::decimal::parse_depth;
use crate::decimal::raw_pairs_view;
use crate::decimal::spec_dec_of;
use crate::frames::op_frame;
use crate::frames::spec_op_frame;
use crate::frames::views_of;
use crate::ledger::cancel_fail_result;
use crate::ledger::has_client_id;
use crate::ledger::lemma_frozen_trans;
use crate::ledger::ord_eq;
use crate::ledger::submit_fail_result;
use crate::ledger::terminal_frozen;
use crate::ledger::updated_at;
use crate::ledger::ExecPush;
use crate::ledger::OrderLedger;
use crate::ledger::OrderPush;
use crate::types::Depth;
use crate::types::ErrorEvent;
use crate::types::ErrorKind;
use crate::types::HandleError;
use crate::types::LiveEvent;
use crate::types::Order;
use crate::types::OrderResponse;
use crate::types::OrdStatus;
use crate::types::Position;
use crate::types::SessionAction;
use crate::types::Side;
use crate::types::Trade;
use crate::wire::decode_public;
use crate::wire::decode_private;
use crate::wire::decode_trade;
use crate::wire::json_doc;
use crate::wire::opt_str_view;
use crate::wire::pos_item_view;
use crate::wire::spec_decode_private;
use crate::wire::spec_decode_public;
use crate::wire::spec_decode_trade;
use crate::wire::str_eq;
use crate::wire::trade_item_view;
use crate::wire::PositionItemModel;
use crate::wire::PositionItemRaw;
use crate::wire::PrivateMsg;
use crate::wire::PrivModel;
use crate::wire::PublicMsg;
use crate::wire::PubModel;
use crate::wire::TradeAck;
use crate::wire::TradeItemModel;
use crate::wire::TradeItemRaw;

verus! {

/// A venue millisecond timestamp that scales to nanoseconds in range.
pub open spec fn ts_ok(cts: Option<u64>) -> bool {
    cts matches Some(c) && c * 1_000_000 <= u64::MAX
}

/// Routes one order-book payload: exactly one Depth event when the symbol
/// resolves, the timestamp is present and in range, and every level
/// parses; otherwise the per-message error — `Numeric` for a malformed
/// level, else `AssetNotFound` for an unknown symbol, else `Decode` for a
/// missing or out-of-range timestamp — and nothing is emitted.
pub fn route_orderbook(
    symbol: &String,
    cts: Option<u64>,
    bids: &Vec<(String, String)>,
    asks: &Vec<(String, String)>,
    assets: &AssetMap,
    local_ts: i64,
) -> (r: Result<LiveEvent, HandleError>)
    requires
        assets.wf(),
    ensures
        r is Ok <==> has_symbol(assets@, symbol@) && ts_ok(cts) && levels_ok(raw_pairs_view(bids@))
            && levels_ok(raw_pairs_view(asks@)),
        match r {
            Ok(ev) => ev matches LiveEvent::Depth(d) && d.asset_no == asset_no_of(
                assets@,
                symbol@,
            ) && d.exch_ts == cts->Some_0 * 1_000_000 && d.local_ts == local_ts && levels_parse_of(
                d.bids@,
                raw_pairs_view(bids@),
            ) && levels_parse_of(d.asks@, raw_pairs_view(asks@)),
            Err(e) => (e == HandleError::Numeric <==> !(levels_ok(raw_pairs_view(bids@))
                && levels_ok(raw_pairs_view(asks@)))) && (e == HandleError::AssetNotFound
                <==> levels_ok(raw_pairs_view(bids@)) && levels_ok(raw_pairs_view(asks@))
                && !has_symbol(assets@, symbol@)) && (e == HandleError::Decode <==> levels_ok(
                raw_pairs_view(bids@),
            ) && levels_ok(raw_pairs_view(asks@)) && has_symbol(assets@, symbol@) && !ts_ok(cts)),
        },
{
    let parsed = match parse_depth(bids, asks) {
        Ok(ba) => ba,
        Err(e) => {
            return Err(e);
        },
    };
    proof {
        lemma_levels_ok(parsed.0@, raw_pairs_view(bids@));
        lemma_levels_ok(parsed.1@, raw_pairs_view(asks@));
    }
    let asset_no = match assets.lookup(symbol) {
        Some(no) => no,
        None => {
            return Err(HandleError::AssetNotFound);
        },
    };
    let c = match cts {
        Some(c) => c,
        None => {
            return Err(HandleError::Decode);
        },
    };
    let exch_ts = match ms_to_ns(c) {
        Some(ns) => ns,
        None => {
            return Err(HandleError::Decode);
        },
    };
    proof {
        let wi = choose|i: int|
            0 <= i < assets@.len() && (#[trigger] assets@[i]).symbol@ == symbol@
                && assets@[i].asset_no == asset_no;
        lemma_asset_no_of(assets@, symbol@, wi);
    }
    Ok(
        LiveEvent::Depth(
            Depth { asset_no, exch_ts, local_ts, bids: parsed.0, asks: parsed.1 },
        ),
    )
}

/// A level list that parsed element-for-element is made of well-formed
/// strings.
proof fn lemma_levels_ok(levels: Seq<(crate::decimal::Dec, crate::decimal::Dec)>, raw: Seq<(Seq<char>, Seq<char>)>)
    requires
        levels_parse_of(levels, raw),
    ensures
        levels_ok(raw),
{
    assert forall|i: int| 0 <= i < raw.len() implies level_str_ok((#[trigger] raw[i]).0)
        && level_str_ok(raw[i].1) by {
        assert(levels[i].0.is_parse_of(raw[i].0));
        assert(levels[i].1.is_parse_of(raw[i].1));
    }
}

/// The exact outcome of one public-trade element.
pub open spec fn spec_trade_item(
    item: TradeItemModel,
    assets: Seq<crate::assets::Asset>,
    local_ts: i64,
) -> Result<LiveEvent, HandleError> {
    if !has_symbol(assets, item.symbol) {
        Err(HandleError::AssetNotFound)
    } else if !ts_ok(item.ts) {
        Err(HandleError::Decode)
    } else if !(level_str_ok(item.price) && level_str_ok(item.size)) {
        Err(HandleError::Numeric)
    } else {
        Ok(
            LiveEvent::Trade(
                Trade {
                    asset_no: asset_no_of(assets, item.symbol),
                    exch_ts: (item.ts->Some_0 * 1_000_000) as u64,
                    local_ts,
                    side: if item.side == "Sell"@ {
                        Side::Sell
                    } else {
                        Side::Buy
                    },
                    price: spec_dec_of(item.price),
                    qty: spec_dec_of(item.size),
                },
            ),
        )
    }
}

/// The exact outcome of a whole public-trade payload: one event per clean
/// element, one diagnostic per failing element, siblings unaffected.
pub open spec fn spec_route_trades(
    items: Seq<TradeItemModel>,
    assets: Seq<crate::assets::Asset>,
    local_ts: i64,
) -> (Seq<LiveEvent>, Seq<HandleError>)
    decreases items.len(),
{
    if items.len() == 0 {
        (Seq::empty(), Seq::empty())
    } else {
        let pre = spec_route_trades(items.drop_last(), assets, local_ts);
        match spec_trade_item(items.last(), assets, local_ts) {
            Ok(ev) => (pre.0.push(ev), pre.1),
            Err(e) => (pre.0, pre.1.push(e)),
        }
    }
}

/// Every event a public-trade payload yields is a Trade event.
proof fn lemma_route_trades_kinds(
    items: Seq<TradeItemModel>,
    assets: Seq<crate::assets::Asset>,
    local_ts: i64,
)
    ensures
        forall|k: int|
            0 <= k < spec_route_trades(items, assets, local_ts).0.len() ==> (
            #[trigger] spec_route_trades(items, assets, local_ts).0[k]) matches LiveEvent::Trade(_),
    decreases items.len(),
{
    if items.len() > 0 {
        lemma_route_trades_kinds(items.drop_last(), assets, local_ts);
    }
}

/// Routes a public-trade payload. An element whose symbol is unknown or
/// whose fields are malformed yields a diagnostic and no event; the other
/// elements still produce their events.
pub fn route_trades(items: Vec<TradeItemRaw>, assets: &AssetMap, local_ts: i64) -> (r: (
    Vec<LiveEvent>,
    Vec<HandleError>,
))
    requires
        assets.wf(),
    ensures
        (r.0@, r.1@) == spec_route_trades(
            items@.map_values(|it: TradeItemRaw| trade_item_view(it)),
            assets@,
            local_ts,
        ),
{
    let ghost ms = items@.map_values(|it: TradeItemRaw| trade_item_view(it));
    let mut events: Vec<LiveEvent> = Vec::new();
    let mut diags: Vec<HandleError> = Vec::new();
    let mut i: usize = 0;
    proof {
        assert(ms.take(0) =~= Seq::<TradeItemModel>::empty());
    }
    while i < items.len()
        invariant
            i <= items@.len() == ms.len(),
            ms == items@.map_values(|it: TradeItemRaw| trade_item_view(it)),
            assets.wf(),
            (events@, diags@) == spec_route_trades(ms.take(i as int), assets@, local_ts),
        decreases items@.len() - i,
    {
        proof {
            assert(ms.take(i + 1).drop_last() =~= ms.take(i as int));
            assert(ms.take(i + 1).last() == ms[i as int]);
            assert(ms[i as int] == trade_item_view(items@[i as int]));
        }
        let item = &items[i];
        match assets.lookup(&item.symbol) {
            None => {
                diags.push(HandleError::AssetNotFound);
            },
            Some(asset_no) => {
                proof {
                    let wi = choose|k: int|
                        0 <= k < assets@.len() && (#[trigger] assets@[k]).symbol@ == item.symbol@
                            && assets@[k].asset_no == asset_no;
                    lemma_asset_no_of(assets@, item.symbol@, wi);
                }
                let c = match item.ts {
                    Some(c) => c,
                    None => {
                        diags.push(HandleError::Decode);
                        i = i + 1;
                        continue;
                    },
                };
                let exch_ts = match ms_to_ns(c) {
                    Some(ns) => ns,
                    None => {
                        diags.push(HandleError::Decode);
                        i = i + 1;
                        continue;
                    },
                };
                let price = match parse_decimal(item.price.as_str()) {
                    Some(d) => d,
                    None => {
                        diags.push(HandleError::Numeric);
                        i = i + 1;
                        continue;
                    },
                };
                let qty = match parse_decimal(item.size.as_str()) {
                    Some(d) => d,
                    None => {
                        diags.push(HandleError::Numeric);
                        i = i + 1;
                        continue;
                    },
                };
                let side = if str_eq(item.side.as_str(), "Sell") {
                    Side::Sell
                } else {
                    Side::Buy
                };
                events.push(
                    LiveEvent::Trade(Trade { asset_no, exch_ts, local_ts, side, price, qty }),
                );
            },
        }
        i = i + 1;
    }
    proof {
        assert(ms.take(ms.len() as int) =~= ms);
    }
    (events, diags)
}

/// The exact outcome of one position element: the replace-on-update
/// snapshot as plain values.
pub open spec fn spec_pos_item(item: PositionItemModel, assets: Seq<crate::assets::Asset>) -> Result<
    (u64, Seq<char>, crate::decimal::Dec),
    HandleError,
> {
    if !has_symbol(assets, item.symbol) {
        Err(HandleError::AssetNotFound)
    } else if !level_str_ok(item.value) {
        Err(HandleError::Numeric)
    } else {
        Ok((asset_no_of(assets, item.symbol), item.symbol, spec_dec_of(item.value)))
    }
}

pub open spec fn spec_route_positions(
    items: Seq<PositionItemModel>,
    assets: Seq<crate::assets::Asset>,
) -> (Seq<(u64, Seq<char>, crate::decimal::Dec)>, Seq<HandleError>)
    decreases items.len(),
{
    if items.len() == 0 {
        (Seq::empty(), Seq::empty())
    } else {
        let pre = spec_route_positions(items.drop_last(), assets);
        match spec_pos_item(items.last(), assets) {
            Ok(p) => (pre.0.push(p), pre.1),
            Err(e) => (pre.0, pre.1.push(e)),
        }
    }
}

/// The events of a routed position payload match the spec outcome,
/// element for element.
pub open spec fn positions_match(
    events: Seq<LiveEvent>,
    diags: Seq<HandleError>,
    spec: (Seq<(u64, Seq<char>, crate::decimal::Dec)>, Seq<HandleError>),
) -> bool {
    &&& diags == spec.1
    &&& events.len() == spec.0.len()
    &&& forall|k: int|
        0 <= k < events.len() ==> ((#[trigger] events[k]) matches LiveEvent::Position(p)
            && p.asset_no == spec.0[k].0 && p.symbol@ == spec.0[k].1 && p.qty == spec.0[k].2)
}

/// Routes a position payload: one Position event per resolvable element,
/// one diagnostic per failing element.
pub fn route_positions(items: Vec<PositionItemRaw>, assets: &AssetMap) -> (r: (
    Vec<LiveEvent>,
    Vec<HandleError>,
))
    requires
        assets.wf(),
    ensures
        positions_match(
            r.0@,
            r.1@,
            spec_route_positions(
                items@.map_values(|it: PositionItemRaw| pos_item_view(it)),
                assets@,
            ),
        ),
{
    let ghost ms = items@.map_values(|it: PositionItemRaw| pos_item_view(it));
    let mut events: Vec<LiveEvent> = Vec::new();
    let mut diags: Vec<HandleError> = Vec::new();
    let mut i: usize = 0;
    let n = items.len();
    proof {
        assert(ms.take(0) =~= Seq::<PositionItemModel>::empty());
    }
    while i < n
        invariant
            i <= n == items@.len(),
            ms == items@.map_values(|it: PositionItemRaw| pos_item_view(it)),
            ms.len() == n,
            assets.wf(),
            positions_match(events@, diags@, spec_route_positions(ms.take(i as int), assets@)),
        decreases n - i,
    {
        proof {
            assert(ms.take(i + 1).drop_last() =~= ms.take(i as int));
            assert(ms.take(i + 1).last() == ms[i as int]);
            assert(ms[i as int] == pos_item_view(items@[i as int]));
        }
        match assets.lookup(&items[i].symbol) {
            None => {
                diags.push(HandleError::AssetNotFound);
            },
            Some(asset_no) => {
                proof {
                    let wi = choose|k: int|
                        0 <= k < assets@.len() && (#[trigger] assets@[k]).symbol@
                            == items@[i as int].symbol@ && assets@[k].asset_no == asset_no;
                    lemma_asset_no_of(assets@, items@[i as int].symbol@, wi);
                }
                match parse_decimal(items[i].value.as_str()) {
                    None => {
                        diags.push(HandleError::Numeric);
                    },
                    Some(qty) => {
                        let symbol = items[i].symbol.clone();
                        events.push(LiveEvent::Position(Position { asset_no, symbol, qty }));
                    },
                }
            },
        }
        i = i + 1;
    }
    proof {
        assert(ms.take(n as int) =~= ms);
    }
    (events, diags)
}

/// The venue's order-state word, mapped to the ledger's state machine.
pub open spec fn spec_status_of(s: Seq<char>) -> Option<OrdStatus> {
    if s == "New"@ {
        Some(OrdStatus::New)
    } else if s == "PartiallyFilled"@ {
        Some(OrdStatus::PartiallyFilled)
    } else if s == "Filled"@ {
        Some(OrdStatus::Filled)
    } else if s == "Cancelled"@ {
        Some(OrdStatus::Canceled)
    } else if s == "PartiallyFilledCanceled"@ {
        Some(OrdStatus::Canceled)
    } else if s == "Rejected"@ {
        Some(OrdStatus::SubmitRejected)
    } else {
        Option::None
    }
}

pub fn status_of(s: &str) -> (r: Option<OrdStatus>)
    ensures
        r == spec_status_of(s@),
{
    if str_eq(s, "New") {
        Some(OrdStatus::New)
    } else if str_eq(s, "PartiallyFilled") {
        Some(OrdStatus::PartiallyFilled)
    } else if str_eq(s, "Filled") {
        Some(OrdStatus::Filled)
    } else if str_eq(s, "Cancelled") {
        Some(OrdStatus::Canceled)
    } else if str_eq(s, "PartiallyFilledCanceled") {
        Some(OrdStatus::Canceled)
    } else if str_eq(s, "Rejected") {
        Some(OrdStatus::SubmitRejected)
    } else {
        None
    }
}

/// The action the private session owes to an acknowledgement: a
/// successful auth triggers exactly one subscription request, a failed or
/// unreadable one terminates, anything else continues.
pub open spec fn private_ack_action(op: Seq<char>, success: Option<bool>, a: SessionAction) -> bool {
    &&& (op == "auth"@ && success == Some(true) ==> (a matches SessionAction::SendText(f) && f@
        == spec_op_frame("3"@, "subscribe"@, seq!["position"@, "execution.fast"@])))
    &&& (op == "auth"@ && success != Some(true) ==> a is Terminate)
    &&& (op != "auth"@ ==> a is Continue)
}

/// Routes the private session's auth acknowledgement.
pub fn route_private_ack(op: &String, success: Option<bool>) -> (r: SessionAction)
    ensures
        private_ack_action(op@, success, r),
{
    if !str_eq(op.as_str(), "auth") {
        return SessionAction::Continue;
    }
    let ok = match success {
        Some(b) => b,
        None => false,
    };
    if !ok {
        return SessionAction::Terminate;
    }
    let mut args: Vec<String> = Vec::new();
    args.push(String::from_str("position"));
    args.push(String::from_str("execution.fast"));
    let frame = op_frame("3", "subscribe", &args);
    proof {
        assert(views_of(args@) =~= seq!["position"@, "execution.fast"@]);
    }
    SessionAction::SendText(frame)
}

/// Handles one public-session text frame: decode, then route by topic.
/// The outcome is pinned per decoded frame: acknowledgements and unknown
/// topics yield nothing, an order-book payload yields exactly one Depth
/// event or its per-message error, a trade payload yields the per-item
/// events and diagnostics.
pub fn handle_public_stream(text: &str, assets: &AssetMap, local_ts: i64) -> (r: Result<
    (Vec<LiveEvent>, Vec<HandleError>),
    HandleError,
>)
    requires
        assets.wf(),
    ensures
        match json_doc(text@) {
            None => r == Result::<(Vec<LiveEvent>, Vec<HandleError>), HandleError>::Err(
                HandleError::Decode,
            ),
            Some(d) => match spec_decode_public(d) {
                Err(e) => (r matches Err(e2) && e2 == e),
                Ok(mm) => match mm {
                    PubModel::Ack { .. } => (r matches Ok(out) && out.0@.len() == 0 && out.1@.len()
                        == 0),
                    PubModel::Unknown => (r matches Ok(out) && out.0@.len() == 0 && out.1@.len()
                        == 0),
                    PubModel::OrderBook { symbol, cts, bids, asks } => {
                        &&& (r is Ok <==> has_symbol(assets@, symbol) && ts_ok(cts) && levels_ok(
                            bids,
                        ) && levels_ok(asks))
                        &&& (r matches Ok(out) ==> out.1@.len() == 0 && out.0@.len() == 1 && (
                        out.0@[0] matches LiveEvent::Depth(dp) && dp.asset_no == asset_no_of(
                            assets@,
                            symbol,
                        ) && dp.exch_ts == cts->Some_0 * 1_000_000 && dp.local_ts == local_ts
                            && levels_parse_of(dp.bids@, bids) && levels_parse_of(dp.asks@, asks)))
                        &&& (r matches Err(e) ==> (e == HandleError::Numeric <==> !(levels_ok(bids)
                            && levels_ok(asks))) && (e == HandleError::AssetNotFound <==> levels_ok(
                            bids,
                        ) && levels_ok(asks) && !has_symbol(assets@, symbol)))
                    },
                    PubModel::Trades { items } => (r matches Ok(out) && (out.0@, out.1@)
                        == spec_route_trades(items, assets@, local_ts)),
                },
            },
        },
{
    let msg = match decode_public(text) {
        Ok(m) => m,
        Err(e) => {
            return Err(e);
        },
    };
    match msg {
        PublicMsg::Ack { .. } => Ok((Vec::new(), Vec::new())),
        PublicMsg::UnknownTopic { .. } => Ok((Vec::new(), Vec::new())),
        PublicMsg::OrderBook { symbol, cts, bids, asks } => {
            let ev = match route_orderbook(&symbol, cts, &bids, &asks, assets, local_ts) {
                Ok(ev) => ev,
                Err(e) => {
                    return Err(e);
                },
            };
            let mut events: Vec<LiveEvent> = Vec::new();
            events.push(ev);
            Ok((events, Vec::new()))
        },
        PublicMsg::Trades { items } => Ok(route_trades(items, assets, local_ts)),
    }
}

/// Handles one private-session text frame. The outcome is pinned per
/// decoded frame: an auth acknowledgement emits nothing, leaves the
/// ledger untouched and decides subscription or termination; positions
/// become Position events without touching the ledger; order and
/// execution batches reconcile element by element — one OrderUpdate event
/// per successful reconciliation, one diagnostic per failing element.
pub fn handle_private_stream(
    text: &str,
    assets: &AssetMap,
    ledger: &mut OrderLedger,
    local_ts: i64,
) -> (r: Result<(Vec<LiveEvent>, Vec<HandleError>, SessionAction), HandleError>)
    requires
        assets.wf(),
        old(ledger).wf(),
    ensures
        final(ledger).wf(),
        terminal_frozen(old(ledger)@, final(ledger)@),
        r is Err ==> final(ledger)@ == old(ledger)@,
        match json_doc(text@) {
            None => final(ledger)@ == old(ledger)@ && r == Result::<
                (Vec<LiveEvent>, Vec<HandleError>, SessionAction),
                HandleError,
            >::Err(HandleError::Decode),
            Some(d) => match spec_decode_private(d) {
                Err(e) => final(ledger)@ == old(ledger)@ && (r matches Err(e2) && e2 == e),
                Ok(mm) => match mm {
                    PrivModel::Ack { op, success } => final(ledger)@ == old(ledger)@ && (r
                        matches Ok(out) && out.0@.len() == 0 && out.1@.len() == 0
                        && private_ack_action(op, success, out.2)),
                    PrivModel::Unknown => final(ledger)@ == old(ledger)@ && r == Result::<
                        (Vec<LiveEvent>, Vec<HandleError>, SessionAction),
                        HandleError,
                    >::Err(HandleError::Decode),
                    PrivModel::Positions { items } => final(ledger)@ == old(ledger)@ && (r
                        matches Ok(out) && out.2 is Continue && positions_match(
                        out.0@,
                        out.1@,
                        spec_route_positions(items, assets@),
                    )),
                    PrivModel::Executions { items } => (r matches Ok(out) && out.2 is Continue
                        && out.0@.len() + out.1@.len() == items.len() && (forall|k: int|
                        0 <= k < out.0@.len() ==> (#[trigger] out.0@[k]) matches LiveEvent::Order(
                            _,
                        ))),
                    PrivModel::Orders { items } => (r matches Ok(out) && out.2 is Continue
                        && out.0@.len() + out.1@.len() == items.len() && (forall|k: int|
                        0 <= k < out.0@.len() ==> (#[trigger] out.0@[k]) matches LiveEvent::Order(
                            _,
                        ))),
                },
            },
        },
{
    let msg = match decode_private(text) {
        Ok(m) => m,
        Err(e) => {
            return Err(e);
        },
    };
    match msg {
        PrivateMsg::Ack { op, success } => {
            let action = route_private_ack(&op, success);
            Ok((Vec::new(), Vec::new(), action))
        },
        PrivateMsg::UnknownTopic { .. } => Err(HandleError::Decode),
        PrivateMsg::Positions { items } => {
            let (events, diags) = route_positions(items, assets);
            Ok((events, diags, SessionAction::Continue))
        },
        PrivateMsg::Executions { items } => {
            let mut events: Vec<LiveEvent> = Vec::new();
            let mut diags: Vec<HandleError> = Vec::new();
            let mut i: usize = 0;
            let n = items.len();
            while i < n
                invariant
                    i <= n == items@.len(),
                    ledger.wf(),
                    terminal_frozen(old(ledger)@, ledger@),
                    events@.len() + diags@.len() == i,
                    forall|k: int|
                        0 <= k < events@.len() ==> (#[trigger] events@[k])
                            matches LiveEvent::Order(_),
                decreases n - i,
            {
                let ghost mid = ledger@;
                let item = &items[i];
                match parse_decimal(item.exec_qty.as_str()) {
                    None => {
                        diags.push(HandleError::Numeric);
                    },
                    Some(exec_qty) => {
                        let push = ExecPush {
                            order_id: item.order_id.clone(),
                            order_link_id: item.order_link_id.clone(),
                            exec_qty,
                        };
                        match ledger.update_execution(&push) {
                            Ok((asset_no, order)) => {
                                events.push(LiveEvent::Order(OrderResponse { asset_no, order }));
                            },
                            Err(e) => {
                                diags.push(e);
                            },
                        }
                        proof {
                            lemma_frozen_trans(old(ledger)@, mid, ledger@);
                        }
                    },
                }
                i = i + 1;
            }
            Ok((events, diags, SessionAction::Continue))
        },
        PrivateMsg::Orders { items } => {
            let mut events: Vec<LiveEvent> = Vec::new();
            let mut diags: Vec<HandleError> = Vec::new();
            let mut i: usize = 0;
            let n = items.len();
            while i < n
                invariant
                    i <= n == items@.len(),
                    ledger.wf(),
                    terminal_frozen(old(ledger)@, ledger@),
                    events@.len() + diags@.len() == i,
                    forall|k: int|
                        0 <= k < events@.len() ==> (#[trigger] events@[k])
                            matches LiveEvent::Order(_),
                decreases n - i,
            {
                let ghost mid = ledger@;
                let item = &items[i];
                match status_of(item.status.as_str()) {
                    None => {
                        diags.push(HandleError::Decode);
                    },
                    Some(status) => {
                        let push = OrderPush {
                            order_id: item.order_id.clone(),
                            order_link_id: item.order_link_id.clone(),
                            status,
                        };
                        match ledger.update_order(&push) {
                            Ok((asset_no, order)) => {
                                events.push(LiveEvent::Order(OrderResponse { asset_no, order }));
                            },
                            Err(e) => {
                                diags.push(e);
                            },
                        }
                        proof {
                            lemma_frozen_trans(old(ledger)@, mid, ledger@);
                        }
                    },
                }
                i = i + 1;
            }
            Ok((events, diags, SessionAction::Continue))
        },
    }
}

/// An entry admits a venue submit rejection.
pub open spec fn admits_submit_fail(o: Order) -> bool {
    o.status == OrdStatus::New || o.status == OrdStatus::Submitted
}

/// An entry admits a venue cancel rejection.
pub open spec fn admits_cancel_fail(o: Order) -> bool {
    o.cancel_pending && !o.status.spec_is_terminal()
}

/// Outcome owed to a rejected order-create acknowledgement: success iff
/// the ledger holds the request id in an admitting state, the entry then
/// transitioned to `submit_fail_result` and re-emitted, followed by the
/// venue error; on failure the ledger is exactly unchanged.
pub open spec fn create_reject_post(
    id: Seq<char>,
    code: i64,
    msg: Seq<char>,
    pre: Seq<Order>,
    post: Seq<Order>,
    r: Result<(Vec<LiveEvent>, SessionAction), HandleError>,
) -> bool {
    &&& (r is Ok <==> exists|i: int|
        0 <= i < pre.len() && (#[trigger] pre[i]).client_req_id@ == id && admits_submit_fail(
            pre[i],
        ))
    &&& match r {
        Ok(out) => out.1 is Continue && out.0@.len() == 2 && (exists|i: int|
            0 <= i < pre.len() && (#[trigger] pre[i]).client_req_id@ == id && admits_submit_fail(
                pre[i],
            ) && updated_at(pre, post, i, submit_fail_result(pre[i])) && (out.0@[0]
                matches LiveEvent::Order(resp) && resp.asset_no == pre[i].asset_no && ord_eq(
                resp.order,
                submit_fail_result(pre[i]),
            ))) && (out.0@[1] matches LiveEvent::Error(ev) && ev.kind == ErrorKind::OrderError
            && ev.venue_code == code && ev.venue_msg@ == msg),
        Err(e) => post == pre && (e == HandleError::OrderNotFound <==> !has_client_id(pre, id)) && (
        e == HandleError::OrderNotFound || e == HandleError::StateInvalid),
    }
}

/// Outcome owed to a rejected order-cancel acknowledgement: success iff
/// the ledger holds the request id cancel-pending and live, the entry
/// then restored to its pre-cancel state (not destroyed) and re-emitted,
/// followed by the venue error; on failure the ledger is exactly
/// unchanged.
pub open spec fn cancel_reject_post(
    id: Seq<char>,
    code: i64,
    msg: Seq<char>,
    pre: Seq<Order>,
    post: Seq<Order>,
    r: Result<(Vec<LiveEvent>, SessionAction), HandleError>,
) -> bool {
    &&& (r is Ok <==> exists|i: int|
        0 <= i < pre.len() && (#[trigger] pre[i]).client_req_id@ == id && admits_cancel_fail(
            pre[i],
        ))
    &&& match r {
        Ok(out) => out.1 is Continue && out.0@.len() == 2 && (exists|i: int|
            0 <= i < pre.len() && (#[trigger] pre[i]).client_req_id@ == id && admits_cancel_fail(
                pre[i],
            ) && updated_at(pre, post, i, cancel_fail_result(pre[i])) && (out.0@[0]
                matches LiveEvent::Order(resp) && resp.asset_no == pre[i].asset_no && ord_eq(
                resp.order,
                cancel_fail_result(pre[i]),
            ))) && (out.0@[1] matches LiveEvent::Error(ev) && ev.kind == ErrorKind::OrderError
            && ev.venue_code == code && ev.venue_msg@ == msg),
        Err(e) => post == pre && (e == HandleError::OrderNotFound <==> !has_client_id(pre, id)) && (
        e == HandleError::OrderNotFound || e == HandleError::StateInvalid),
    }
}

/// The whole outcome owed to one order-entry acknowledgement, per the
/// session contract: auth failure is fatal and emits exactly the critical
/// error; zero result codes touch nothing — execution truth arrives later
/// on the private session; a non-zero create/cancel code requires the
/// request id and reconciles through the ledger; anything else is a no-op.
pub open spec fn trade_ack_post(
    op: Seq<char>,
    req_id: Option<Seq<char>>,
    code: i64,
    msg: Seq<char>,
    pre: Seq<Order>,
    post: Seq<Order>,
    r: Result<(Vec<LiveEvent>, SessionAction), HandleError>,
) -> bool {
    &&& (op == "auth"@ && code != 0 ==> post == pre && (r matches Ok(out) && out.1 is Terminate
        && out.0@.len() == 1 && (out.0@[0] matches LiveEvent::Error(ev) && ev.kind
        == ErrorKind::CriticalConnectionError && ev.venue_code == code && ev.venue_msg@ == msg)))
    &&& (op == "auth"@ && code == 0 ==> post == pre && (r matches Ok(out) && out.1 is Continue
        && out.0@.len() == 0))
    &&& ((op == "order.create"@ || op == "order.cancel"@) && code == 0 ==> post == pre && (r
        matches Ok(out) && out.1 is Continue && out.0@.len() == 0))
    &&& ((op == "order.create"@ || op == "order.cancel"@) && code != 0 && req_id is None ==> post
        == pre && r == Result::<(Vec<LiveEvent>, SessionAction), HandleError>::Err(
        HandleError::ReqIdNotExist,
    ))
    &&& (op == "order.create"@ && code != 0 ==> (req_id matches Some(id)
        ==> create_reject_post(id, code, msg, pre, post, r)))
    &&& (op == "order.cancel"@ && code != 0 ==> (req_id matches Some(id)
        ==> cancel_reject_post(id, code, msg, pre, post, r)))
    &&& (op != "auth"@ && op != "order.create"@ && op != "order.cancel"@ ==> post == pre && (r
        matches Ok(out) && out.1 is Continue && out.0@.len() == 0))
}

/// Routes one order-entry acknowledgement; the whole outcome is pinned by
/// `trade_ack_post`.
pub fn route_trade_ack(ack: TradeAck, ledger: &mut OrderLedger) -> (r: Result<
    (Vec<LiveEvent>, SessionAction),
    HandleError,
>)
    requires
        old(ledger).wf(),
    ensures
        final(ledger).wf(),
        terminal_frozen(old(ledger)@, final(ledger)@),
        r is Err ==> final(ledger)@ == old(ledger)@,
        trade_ack_post(
            ack.op@,
            opt_str_view(ack.req_id),
            ack.ret_code,
            ack.ret_msg@,
            old(ledger)@,
            final(ledger)@,
            r,
        ),
{
    proof {
        reveal_strlit("auth");
        reveal_strlit("order.create");
        reveal_strlit("order.cancel");
        assert("auth"@.len() == 4);
        assert("order.create"@.len() == 12);
        assert("order.cancel"@.len() == 12);
        assert("auth"@ != "order.create"@);
        assert("auth"@ != "order.cancel"@);
        assert("order.create"@[7] == 'r');
        assert("order.cancel"@[7] == 'a');
        assert("order.create"@ != "order.cancel"@);
    }
    if str_eq(ack.op.as_str(), "auth") {
        if ack.ret_code != 0 {
            let mut events: Vec<LiveEvent> = Vec::new();
            events.push(
                LiveEvent::Error(
                    ErrorEvent {
                        kind: ErrorKind::CriticalConnectionError,
                        venue_code: ack.ret_code,
                        venue_msg: ack.ret_msg,
                    },
                ),
            );
            return Ok((events, SessionAction::Terminate));
        }
        return Ok((Vec::new(), SessionAction::Continue));
    }
    let is_create = str_eq(ack.op.as_str(), "order.create");
    let is_cancel = str_eq(ack.op.as_str(), "order.cancel");
    if !is_create && !is_cancel {
        return Ok((Vec::new(), SessionAction::Continue));
    }
    if ack.ret_code == 0 {
        return Ok((Vec::new(), SessionAction::Continue));
    }
    let req_id = match ack.req_id {
        Some(id) => id,
        None => {
            return Err(HandleError::ReqIdNotExist);
        },
    };
    let (asset_no, order) = if is_create {
        match ledger.update_submit_fail(&req_id) {
            Ok(res) => res,
            Err(e) => {
                proof {
                    lemma_no_admitting_submit(old(ledger)@, req_id@, e);
                }
                return Err(e);
            },
        }
    } else {
        match ledger.update_cancel_fail(&req_id) {
            Ok(res) => res,
            Err(e) => {
                proof {
                    lemma_no_admitting_cancel(old(ledger)@, req_id@, e);
                }
                return Err(e);
            },
        }
    };
    let mut events: Vec<LiveEvent> = Vec::new();
    events.push(LiveEvent::Order(OrderResponse { asset_no, order }));
    events.push(
        LiveEvent::Error(
            ErrorEvent {
                kind: ErrorKind::OrderError,
                venue_code: ack.ret_code,
                venue_msg: ack.ret_msg,
            },
        ),
    );
    Ok((events, SessionAction::Continue))
}

/// With unique client ids, a submit-fail error rules out any admitting
/// entry under the same request id.
proof fn lemma_no_admitting_submit(pre: Seq<Order>, id: Seq<char>, e: HandleError)
    requires
        forall|i: int, j: int|
            0 <= i < j < pre.len() ==> (#[trigger] pre[i]).client_req_id@ != (
            #[trigger] pre[j]).client_req_id@,
        e == HandleError::OrderNotFound ==> !has_client_id(pre, id),
        e == HandleError::StateInvalid ==> exists|j: int|
            0 <= j < pre.len() && (#[trigger] pre[j]).client_req_id@ == id && !(pre[j].status
                == OrdStatus::New || pre[j].status == OrdStatus::Submitted),
        e == HandleError::OrderNotFound || e == HandleError::StateInvalid,
    ensures
        !exists|i: int|
            0 <= i < pre.len() && (#[trigger] pre[i]).client_req_id@ == id && admits_submit_fail(
                pre[i],
            ),
{
    if exists|i: int|
        0 <= i < pre.len() && (#[trigger] pre[i]).client_req_id@ == id && admits_submit_fail(
            pre[i],
        ) {
        let i = choose|i: int|
            0 <= i < pre.len() && (#[trigger] pre[i]).client_req_id@ == id && admits_submit_fail(
                pre[i],
            );
        if e == HandleError::StateInvalid {
            let j = choose|j: int|
                0 <= j < pre.len() && (#[trigger] pre[j]).client_req_id@ == id && !(pre[j].status
                    == OrdStatus::New || pre[j].status == OrdStatus::Submitted);
            if i < j {
                assert(pre[i].client_req_id@ != pre[j].client_req_id@);
            } else if j < i {
                assert(pre[j].client_req_id@ != pre[i].client_req_id@);
            }
        }
    }
}

/// With unique client ids, a cancel-fail error rules out any
/// cancel-pending live entry under the same request id.
proof fn lemma_no_admitting_cancel(pre: Seq<Order>, id: Seq<char>, e: HandleError)
    requires
        forall|i: int, j: int|
            0 <= i < j < pre.len() ==> (#[trigger] pre[i]).client_req_id@ != (
            #[trigger] pre[j]).client_req_id@,
        e == HandleError::OrderNotFound ==> !has_client_id(pre, id),
        e == HandleError::StateInvalid ==> exists|j: int|
            0 <= j < pre.len() && (#[trigger] pre[j]).client_req_id@ == id && !(
            pre[j].cancel_pending && !pre[j].status.spec_is_terminal()),
        e == HandleError::OrderNotFound || e == HandleError::StateInvalid,
    ensures
        !exists|i: int|
            0 <= i < pre.len() && (#[trigger] pre[i]).client_req_id@ == id && admits_cancel_fail(
                pre[i],
            ),
{
    if exists|i: int|
        0 <= i < pre.len() && (#[trigger] pre[i]).client_req_id@ == id && admits_cancel_fail(
            pre[i],
        ) {
        let i = choose|i: int|
            0 <= i < pre.len() && (#[trigger] pre[i]).client_req_id@ == id && admits_cancel_fail(
                pre[i],
            );
        if e == HandleError::StateInvalid {
            let j = choose|j: int|
                0 <= j < pre.len() && (#[trigger] pre[j]).client_req_id@ == id && !(
                pre[j].cancel_pending && !pre[j].status.spec_is_terminal());
            if i < j {
                assert(pre[i].client_req_id@ != pre[j].client_req_id@);
            } else if j < i {
                assert(pre[j].client_req_id@ != pre[i].client_req_id@);
            }
        }
    }
}

/// Handles one order-entry session text frame: decode, then route; the
/// whole outcome is pinned per decoded acknowledgement by
/// `trade_ack_post`.
pub fn handle_trade_stream(text: &str, ledger: &mut OrderLedger) -> (r: Result<
    (Vec<LiveEvent>, SessionAction),
    HandleError,
>)
    requires
        old(ledger).wf(),
    ensures
        final(ledger).wf(),
        terminal_frozen(old(ledger)@, final(ledger)@),
        r is Err ==> final(ledger)@ == old(ledger)@,
        match json_doc(text@) {
            None => final(ledger)@ == old(ledger)@ && r == Result::<
                (Vec<LiveEvent>, SessionAction),
                HandleError,
            >::Err(HandleError::Decode),
            Some(d) => match spec_decode_trade(d) {
                Err(e) => final(ledger)@ == old(ledger)@ && (r matches Err(e2) && e2 == e),
                Ok(am) => trade_ack_post(
                    am.op,
                    am.req_id,
                    am.ret_code,
                    am.ret_msg,
                    old(ledger)@,
                    final(ledger)@,
                    r,
                ),
            },
        },
{
    let ack = match decode_trade(text) {
        Ok(a) => a,
        Err(e) => {
            return Err(e);
        },
    };
    route_trade_ack(ack, ledger)
}

} // verus!
