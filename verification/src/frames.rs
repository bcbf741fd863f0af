//! Outbound wire frames, built and escaped by the library itself so that
//! every byte of a control or order-entry envelope is pinned by its spec.

use vstd::prelude::*;
use vstd::string::StrSliceExecFns;
use vstd::string::StringExecFns;
use crate::assets::AssetMap;
use crate::decimal::Dec;
use crate::decimal::digit_char;
use crate::decimal::format_dec;
use crate::decimal::spec_format_dec;
use crate::types::BybitOrder;

verus! {

/// JSON escape of one character: quote and backslash are escaped, control
/// characters take the `\u00XX` form, everything else stands as itself.
pub open spec fn esc_char(c: char) -> Seq<char> {
    if c == '"' {
        seq!['\\', '"']
    } else if c == '\\' {
        seq!['\\', '\\']
    } else if (c as u32) < 32 {
        seq!['\\', 'u', '0', '0', hex_char((c as u32 / 16) as nat), hex_char((c as u32 % 16) as nat)]
    } else {
        seq![c]
    }
}

/// The hexadecimal digit character for `d < 16`.
pub open spec fn hex_char(d: nat) -> char {
    if d < 10 {
        digit_char(d)
    } else if d == 10 {
        'a'
    } else if d == 11 {
        'b'
    } else if d == 12 {
        'c'
    } else if d == 13 {
        'd'
    } else if d == 14 {
        'e'
    } else {
        'f'
    }
}

pub open spec fn json_escape(s: Seq<char>) -> Seq<char>
    decreases s.len(),
{
    if s.len() == 0 {
        Seq::empty()
    } else {
        esc_char(s[0]) + json_escape(s.drop_first())
    }
}

proof fn lemma_json_escape_push(s: Seq<char>, c: char)
    ensures
        json_escape(s.push(c)) == json_escape(s) + esc_char(c),
    decreases s.len(),
{
    if s.len() == 0 {
        let p = s.push(c);
        assert(p[0] == c);
        assert(p.drop_first() =~= Seq::<char>::empty());
        assert(json_escape(Seq::<char>::empty()) == Seq::<char>::empty());
        assert(json_escape(p) == esc_char(c) + json_escape(p.drop_first()));
        assert(esc_char(c) + Seq::<char>::empty() =~= esc_char(c));
        assert(json_escape(s) + esc_char(c) =~= esc_char(c));
    } else {
        assert(s.push(c).drop_first() =~= s.drop_first().push(c));
        lemma_json_escape_push(s.drop_first(), c);
        assert(s.push(c)[0] == s[0]);
        assert(esc_char(s[0]) + (json_escape(s.drop_first()) + esc_char(c)) =~= (esc_char(s[0])
            + json_escape(s.drop_first())) + esc_char(c));
    }
}

fn hex_str(d: u32) -> (r: &'static str)
    requires
        d < 16,
    ensures
        r@ =~= seq![hex_char(d as nat)],
{
    proof {
        reveal_strlit("0");
        reveal_strlit("1");
        reveal_strlit("2");
        reveal_strlit("3");
        reveal_strlit("4");
        reveal_strlit("5");
        reveal_strlit("6");
        reveal_strlit("7");
        reveal_strlit("8");
        reveal_strlit("9");
        reveal_strlit("a");
        reveal_strlit("b");
        reveal_strlit("c");
        reveal_strlit("d");
        reveal_strlit("e");
        reveal_strlit("f");
    }
    match d {
        0 => "0",
        1 => "1",
        2 => "2",
        3 => "3",
        4 => "4",
        5 => "5",
        6 => "6",
        7 => "7",
        8 => "8",
        9 => "9",
        10 => "a",
        11 => "b",
        12 => "c",
        13 => "d",
        14 => "e",
        _ => "f",
    }
}

/// Appends the JSON escape of `s` to `out`.
fn push_escaped(s: &str, out: &mut String)
    ensures
        final(out)@ == old(out)@ + json_escape(s@),
{
    let n = s.unicode_len();
    let mut i: usize = 0;
    proof {
        assert(s@.take(0) =~= Seq::<char>::empty());
        assert(old(out)@ + json_escape(s@.take(0)) =~= old(out)@);
    }
    while i < n
        invariant
            i <= n == s@.len(),
            out@ == old(out)@ + json_escape(s@.take(i as int)),
        decreases n - i,
    {
        let c = s.get_char(i);
        let u = c as u32;
        proof {
            assert(s@.take(i + 1) =~= s@.take(i as int).push(s@[i as int]));
            lemma_json_escape_push(s@.take(i as int), s@[i as int]);
        }
        if u == 34 {
            proof {
                reveal_strlit("\\\"");
            }
            out.append("\\\"");
            proof {
                assert(out@ =~= old(out)@ + json_escape(s@.take(i + 1)));
            }
        } else if u == 92 {
            proof {
                reveal_strlit("\\\\");
            }
            out.append("\\\\");
            proof {
                assert(out@ =~= old(out)@ + json_escape(s@.take(i + 1)));
            }
        } else if u < 32 {
            proof {
                reveal_strlit("\\u00");
            }
            out.append("\\u00");
            out.append(hex_str(u / 16));
            out.append(hex_str(u % 16));
            proof {
                assert(out@ =~= old(out)@ + json_escape(s@.take(i + 1)));
            }
        } else {
            out.append(s.substring_char(i, i + 1));
            proof {
                assert(s@.subrange(i as int, i + 1) =~= seq![s@[i as int]]);
                assert(out@ =~= old(out)@ + json_escape(s@.take(i + 1)));
            }
        }
        i = i + 1;
    }
    proof {
        assert(s@.take(n as int) =~= s@);
    }
}

/// A JSON string literal: quote, escaped content, quote.
pub open spec fn spec_str_json(s: Seq<char>) -> Seq<char> {
    "\""@ + json_escape(s) + "\""@
}

fn push_str_json(s: &str, out: &mut String)
    ensures
        final(out)@ == old(out)@ + spec_str_json(s@),
{
    out.append("\"");
    push_escaped(s, out);
    out.append("\"");
    proof {
        assert(out@ =~= old(out)@ + spec_str_json(s@));
    }
}

/// A comma-separated list of JSON strings.
pub open spec fn spec_arg_list(args: Seq<Seq<char>>) -> Seq<char>
    decreases args.len(),
{
    if args.len() == 0 {
        Seq::empty()
    } else if args.len() == 1 {
        spec_str_json(args[0])
    } else {
        spec_str_json(args[0]) + ","@ + spec_arg_list(args.drop_first())
    }
}

proof fn lemma_arg_list_push(args: Seq<Seq<char>>, x: Seq<char>)
    requires
        args.len() >= 1,
    ensures
        spec_arg_list(args.push(x)) == spec_arg_list(args) + ","@ + spec_str_json(x),
    decreases args.len(),
{
    if args.len() == 1 {
        let p = args.push(x);
        assert(p[0] == args[0]);
        assert(p.drop_first() =~= seq![x]);
        assert(spec_arg_list(seq![x]) == spec_str_json(x));
        assert(spec_str_json(args[0]) + ","@ + spec_arg_list(p.drop_first()) =~= spec_arg_list(args)
            + ","@ + spec_str_json(x));
    } else {
        lemma_arg_list_push(args.drop_first(), x);
        let p = args.push(x);
        assert(p[0] == args[0]);
        assert(p.drop_first() =~= args.drop_first().push(x));
        assert(spec_str_json(args[0]) + ","@ + (spec_arg_list(args.drop_first()) + ","@
            + spec_str_json(x)) =~= (spec_str_json(args[0]) + ","@ + spec_arg_list(
            args.drop_first(),
        )) + ","@ + spec_str_json(x));
    }
}

pub open spec fn views_of(args: Seq<String>) -> Seq<Seq<char>> {
    args.map_values(|s: String| s@)
}

fn push_arg_list(args: &Vec<String>, out: &mut String)
    ensures
        final(out)@ == old(out)@ + spec_arg_list(views_of(args@)),
{
    let mut i: usize = 0;
    proof {
        assert(views_of(args@).take(0) =~= Seq::<Seq<char>>::empty());
    }
    while i < args.len()
        invariant
            i <= args@.len(),
            out@ == old(out)@ + spec_arg_list(views_of(args@).take(i as int)),
        decreases args@.len() - i,
    {
        proof {
            assert(views_of(args@).take(i + 1) =~= views_of(args@).take(i as int).push(args@[i as int]@));
        }
        if i > 0 {
            out.append(",");
            push_str_json(args[i].as_str(), out);
            proof {
                lemma_arg_list_push(views_of(args@).take(i as int), args@[i as int]@);
                assert(out@ =~= old(out)@ + spec_arg_list(views_of(args@).take(i + 1)));
            }
        } else {
            push_str_json(args[i].as_str(), out);
            proof {
                assert(spec_arg_list(views_of(args@).take(1)) == spec_str_json(args@[0]@));
                assert(out@ =~= old(out)@ + spec_arg_list(views_of(args@).take(i + 1)));
            }
        }
        i = i + 1;
    }
    proof {
        assert(views_of(args@).take(args@.len() as int) =~= views_of(args@));
    }
}

/// The control envelope `{req_id, op, args[]}` of every session.
pub open spec fn spec_op_frame(req_id: Seq<char>, op: Seq<char>, args: Seq<Seq<char>>) -> Seq<
    char,
> {
    "{\"req_id\":"@ + spec_str_json(req_id) + ",\"op\":"@ + spec_str_json(op) + ",\"args\":["@
        + spec_arg_list(args) + "]}"@
}

/// Builds a control frame, exactly as its spec lays it out.
pub fn op_frame(req_id: &str, op: &str, args: &Vec<String>) -> (r: String)
    ensures
        r@ == spec_op_frame(req_id@, op@, views_of(args@)),
{
    let mut out = String::new();
    out.append("{\"req_id\":");
    push_str_json(req_id, &mut out);
    out.append(",\"op\":");
    push_str_json(op, &mut out);
    out.append(",\"args\":[");
    push_arg_list(args, &mut out);
    out.append("]}");
    proof {
        assert(out@ =~= spec_op_frame(req_id@, op@, views_of(args@)));
    }
    out
}

/// The keepalive frame every session sends on its timer tick.
pub fn ping_frame() -> (r: String)
    ensures
        r@ == spec_op_frame("ping"@, "ping"@, Seq::empty()),
{
    let args: Vec<String> = Vec::new();
    let r = op_frame("ping", "ping", &args);
    proof {
        assert(views_of(args@) =~= Seq::<Seq<char>>::empty());
    }
    r
}

/// One `{topic}.{symbol}` subscription argument.
pub open spec fn spec_topic_arg(topic: Seq<char>, symbol: Seq<char>) -> Seq<char> {
    topic + "."@ + symbol
}

/// The subscription arguments: every tracked symbol under every topic,
/// topic-major, in registration order.
pub fn build_topic_args(topics: &Vec<String>, assets: &AssetMap) -> (r: Vec<String>)
    ensures
        r@.len() == topics@.len() * assets@.len(),
        forall|i: int, j: int|
            0 <= i < topics@.len() && 0 <= j < assets@.len() ==> r@[i * assets@.len() + j]@
                == spec_topic_arg(topics@[i]@, assets@[j].symbol@),
{
    let m = assets.len();
    let mut out: Vec<String> = Vec::new();
    let mut i: usize = 0;
    while i < topics.len()
        invariant
            i <= topics@.len(),
            m == assets@.len(),
            out@.len() == i * m,
            forall|a: int, b: int|
                0 <= a < i && 0 <= b < m ==> out@[a * m + b]@ == spec_topic_arg(
                    topics@[a]@,
                    assets@[b].symbol@,
                ),
        decreases topics@.len() - i,
    {
        let mut j: usize = 0;
        while j < m
            invariant
                i < topics@.len(),
                j <= m == assets@.len(),
                out@.len() == i * m + j,
                forall|a: int, b: int|
                    0 <= a < i && 0 <= b < m ==> out@[a * m + b]@ == spec_topic_arg(
                        topics@[a]@,
                        assets@[b].symbol@,
                    ),
                forall|b: int|
                    0 <= b < j ==> out@[i * m + b]@ == spec_topic_arg(
                        topics@[i as int]@,
                        assets@[b].symbol@,
                    ),
            decreases m - j,
        {
            let mut arg = String::new();
            arg.append(topics[i].as_str());
            arg.append(".");
            arg.append(assets.symbol_at(j).as_str());
            proof {
                assert(arg@ =~= spec_topic_arg(topics@[i as int]@, assets@[j as int].symbol@));
            }
            let ghost pre_out = out@;
            out.push(arg);
            proof {
                assert forall|a: int, b: int| 0 <= a < i && 0 <= b < m implies out@[a * m + b]@
                    == spec_topic_arg(topics@[a]@, assets@[b].symbol@) by {
                    assert(a * m + b < i * m && 0 <= a * m + b) by (nonlinear_arith)
                        requires
                            0 <= a < i,
                            0 <= b < m,
                    ;
                    assert(out@[a * m + b] == pre_out[a * m + b]);
                }
                assert forall|b: int| 0 <= b < j + 1 implies out@[i * m + b]@ == spec_topic_arg(
                    topics@[i as int]@,
                    assets@[b].symbol@,
                ) by {
                    if b < j {
                        assert(out@[i * m + b] == pre_out[i * m + b]);
                    } else {
                        assert(out@[i * m + b] == arg);
                    }
                }
            }
            j = j + 1;
        }
        proof {
            assert(i * m + m == (i + 1) * m) by (nonlinear_arith);
            assert forall|a: int, b: int| 0 <= a < i + 1 && 0 <= b < m implies out@[a * m + b]@
                == spec_topic_arg(topics@[a]@, assets@[b].symbol@) by {
                if a == i {
                    assert(out@[i * m + b]@ == spec_topic_arg(topics@[i as int]@, assets@[b].symbol@));
                }
            }
        }
        i = i + 1;
    }
    proof {
        assert(out@.len() == topics@.len() * m);
    }
    out
}

/// The order-entry envelope's order payload.
pub open spec fn spec_order_json(o: BybitOrder) -> Seq<char> {
    "{\"category\":"@ + spec_str_json(o.category@) + ",\"symbol\":"@ + spec_str_json(o.symbol@)
        + ",\"side\":"@ + spec_str_json(o.side@) + ",\"orderType\":"@ + spec_str_json(o.order_type@)
        + ",\"qty\":"@ + spec_str_json(o.qty@) + ",\"price\":"@ + spec_str_json(o.price@)
        + ",\"timeInForce\":"@ + spec_str_json(o.time_in_force@) + ",\"orderLinkId\":"@
        + spec_str_json(o.order_link_id@) + "}"@
}

/// The order-entry envelope: per-request header of timestamp and receive
/// window, the operation, and the order payload as its single argument.
pub open spec fn spec_trade_frame(ts: Seq<char>, op: Seq<char>, o: BybitOrder) -> Seq<char> {
    "{\"req_id\":"@ + spec_str_json(o.order_link_id@) + ",\"header\":{\"X-BAPI-TIMESTAMP\":"@
        + spec_str_json(ts) + ",\"X-BAPI-RECV-WINDOW\":\"5000\"},\"op\":"@ + spec_str_json(op)
        + ",\"args\":["@ + spec_order_json(o) + "]}"@
}

fn push_order_json(o: &BybitOrder, out: &mut String)
    ensures
        final(out)@ == old(out)@ + spec_order_json(*o),
{
    out.append("{\"category\":");
    push_str_json(o.category.as_str(), out);
    out.append(",\"symbol\":");
    push_str_json(o.symbol.as_str(), out);
    out.append(",\"side\":");
    push_str_json(o.side.as_str(), out);
    out.append(",\"orderType\":");
    push_str_json(o.order_type.as_str(), out);
    out.append(",\"qty\":");
    push_str_json(o.qty.as_str(), out);
    out.append(",\"price\":");
    push_str_json(o.price.as_str(), out);
    out.append(",\"timeInForce\":");
    push_str_json(o.time_in_force.as_str(), out);
    out.append(",\"orderLinkId\":");
    push_str_json(o.order_link_id.as_str(), out);
    out.append("}");
    proof {
        assert(out@ =~= old(out)@ + spec_order_json(*o));
    }
}

/// The decimal text of a millisecond timestamp.
pub open spec fn spec_ts_str(ms: i64) -> Seq<char> {
    if ms < 0 {
        spec_format_dec(Dec { neg: true, mant: (-(ms as int)) as u64, scale: 0 })
    } else {
        spec_format_dec(Dec { neg: false, mant: ms as u64, scale: 0 })
    }
}

/// Renders a millisecond timestamp as decimal text.
pub fn ts_str(ms: i64) -> (r: String)
    ensures
        r@ == spec_ts_str(ms),
{
    if ms >= 0 {
        format_dec(&Dec { neg: false, mant: ms as u64, scale: 0 })
    } else if ms == i64::MIN {
        format_dec(&Dec { neg: true, mant: 9223372036854775808u64, scale: 0 })
    } else {
        format_dec(&Dec { neg: true, mant: (-ms) as u64, scale: 0 })
    }
}

/// Builds one order-entry frame: the caller's request id correlates the
/// asynchronous acknowledgement, the header carries the request timestamp
/// and the fixed 5000 ms receive window.
pub fn trade_frame(op: &str, order: &BybitOrder, now_ms: i64) -> (r: String)
    ensures
        r@ == spec_trade_frame(spec_ts_str(now_ms), op@, *order),
{
    let mut out = String::new();
    out.append("{\"req_id\":");
    push_str_json(order.order_link_id.as_str(), &mut out);
    out.append(",\"header\":{\"X-BAPI-TIMESTAMP\":");
    let ts = ts_str(now_ms);
    push_str_json(ts.as_str(), &mut out);
    out.append(",\"X-BAPI-RECV-WINDOW\":\"5000\"},\"op\":");
    push_str_json(op, &mut out);
    out.append(",\"args\":[");
    push_order_json(order, &mut out);
    out.append("]}");
    proof {
        assert(out@ =~= spec_trade_frame(spec_ts_str(now_ms), op@, *order));
    }
    out
}

/// The authentication envelope of the private and order-entry sessions:
/// `{req_id:"auth", op:"auth", args:[api_key, expires, signature]}`; on
/// the order-entry session the envelope additionally carries an empty
/// header map.
pub open spec fn spec_auth_frame(api_key: Seq<char>, expires: i64, signature: Seq<char>) -> Seq<
    char,
> {
    spec_op_frame("auth"@, "auth"@, seq![api_key, spec_ts_str(expires), signature])
}

pub open spec fn spec_trade_auth_frame(api_key: Seq<char>, expires: i64, signature: Seq<char>) -> Seq<
    char,
> {
    "{\"req_id\":\"auth\",\"header\":{},\"op\":\"auth\",\"args\":["@ + spec_arg_list(
        seq![api_key, spec_ts_str(expires), signature],
    ) + "]}"@
}

fn auth_args(api_key: &str, expires: i64, signature: &str) -> (r: Vec<String>)
    ensures
        views_of(r@) =~= seq![api_key@, spec_ts_str(expires), signature@],
{
    let mut args: Vec<String> = Vec::new();
    args.push(String::from_str(api_key));
    args.push(ts_str(expires));
    args.push(String::from_str(signature));
    args
}

/// Builds the signed auth request of the private session.
pub fn auth_frame(api_key: &str, expires: i64, signature: &str) -> (r: String)
    ensures
        r@ == spec_auth_frame(api_key@, expires, signature@),
{
    let args = auth_args(api_key, expires, signature);
    op_frame("auth", "auth", &args)
}

/// Builds the signed auth request of the order-entry session.
pub fn trade_auth_frame(api_key: &str, expires: i64, signature: &str) -> (r: String)
    ensures
        r@ == spec_trade_auth_frame(api_key@, expires, signature@),
{
    let args = auth_args(api_key, expires, signature);
    let mut out = String::new();
    out.append("{\"req_id\":\"auth\",\"header\":{},\"op\":\"auth\",\"args\":[");
    push_arg_list(&args, &mut out);
    out.append("]}");
    proof {
        assert(out@ =~= spec_trade_auth_frame(api_key@, expires, signature@));
    }
    out
}

/// The auth payload expiry: the given time advanced by the 5-second
/// window, saturating at the machine bound.
pub fn auth_expires(now_ms: i64) -> (r: i64)
    ensures
        now_ms + 5000 <= i64::MAX ==> r == now_ms + 5000,
        now_ms + 5000 > i64::MAX ==> r == i64::MAX,
{
    if now_ms <= i64::MAX - 5000 {
        now_ms + 5000
    } else {
        i64::MAX
    }
}

/// The text the external HMAC primitive signs for authentication:
/// the fixed request line followed by the expiry timestamp.
pub open spec fn spec_auth_payload(expires: i64) -> Seq<char> {
    "GET/realtime"@ + spec_ts_str(expires)
}

/// Builds the signed auth payload, exactly as its spec lays it out.
pub fn auth_payload(expires: i64) -> (r: String)
    ensures
        r@ == spec_auth_payload(expires),
{
    let mut out = String::new();
    out.append("GET/realtime");
    let ts = ts_str(expires);
    out.append(ts.as_str());
    proof {
        assert(out@ =~= spec_auth_payload(expires));
    }
    out
}

/// The auth payload expiry read off the clock: the current time advanced
/// by the 5-second window.
pub fn auth_expires_now() -> (r: i64)
    ensures
        r > i64::MIN,
{
    auth_expires(crate::clock::now_millis())
}

/// Builds one order-entry frame stamped with the clock now.
pub fn trade_frame_now(op: &str, order: &BybitOrder) -> (r: String)
    ensures
        exists|ms: i64| r@ == spec_trade_frame(spec_ts_str(ms), op@, *order),
{
    let now = crate::clock::now_millis();
    let r = trade_frame(op, order, now);
    proof {
        assert(r@ == spec_trade_frame(spec_ts_str(now), op@, *order));
    }
    r
}

} // verus!
