//! Connectivity core for a crypto-exchange venue's streaming protocol:
//! a wire-message model, a decimal normalizer, an order ledger, and the
//! routing logic of the public, private and order-entry sessions.

mod assets;
mod clock;
mod decimal;
mod frames;
mod handlers;
mod ledger;
mod types;
mod wire;

pub use clock::local_timestamp;
pub use handlers::handle_public_stream;
pub use handlers::handle_private_stream;
pub use handlers::handle_trade_stream;
pub use handlers::route_orderbook;
pub use handlers::route_positions;
pub use handlers::route_private_ack;
pub use handlers::route_trade_ack;
pub use handlers::route_trades;
pub use handlers::status_of;
pub use wire::decode_private;
pub use wire::decode_public;
pub use wire::decode_trade;
pub use wire::json_doc;
pub use wire::str_eq;
pub use wire::str_starts_with;
pub use wire::ExecItemRaw;
pub use wire::OrderItemRaw;
pub use wire::PositionItemRaw;
pub use wire::PrivateMsg;
pub use wire::PublicMsg;
pub use wire::TradeAck;
pub use wire::TradeItemRaw;
pub use wire::JsonRep;
pub use wire::PubModel;
pub use wire::PrivModel;
pub use wire::TradeAckModel;
pub use wire::TradeItemModel;
pub use wire::PositionItemModel;
pub use wire::ExecItemModel;
pub use wire::OrderItemModel;

pub use assets::Asset;
pub use assets::AssetMap;
pub use frames::auth_expires;
pub use frames::auth_payload;
pub use frames::auth_expires_now;
pub use frames::auth_frame;
pub use frames::build_topic_args;
pub use frames::op_frame;
pub use frames::ping_frame;
pub use frames::trade_auth_frame;
pub use frames::trade_frame;
pub use frames::trade_frame_now;
pub use frames::ts_str;

pub use ledger::ExecPush;
pub use ledger::OrderLedger;
pub use ledger::OrderPush;

pub use decimal::Dec;
pub use decimal::ms_to_ns;
pub use decimal::parse_decimal;
pub use decimal::format_dec;
pub use decimal::parse_px_qty_tup;
pub use decimal::parse_depth;
pub use types::BybitOrder;
pub use types::BybitOrderReq;
pub use types::Depth;
pub use types::ErrorEvent;
pub use types::ErrorKind;
pub use types::HandleError;
pub use types::LiveEvent;
pub use types::Order;
pub use types::OrderResponse;
pub use types::OrdStatus;
pub use types::Position;
pub use types::SessionAction;
pub use types::Side;
pub use types::Trade;
