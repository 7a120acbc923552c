//! The fields of an order request, as the exchange reads them.
use vstd::prelude::*;

use crate::dydx::{Markets, OrderType, Position, Side, TradeData};

verus! {

/// How long an order stays open, in seconds after it is made.
pub const ORDER_LIFETIME_SECONDS: i64 = 63;

impl Side {
    /// The side as the exchange names it.
    pub open spec fn spec_name(self) -> Seq<char> {
        match self {
            Side::BUY => "BUY"@,
            Side::SELL => "SELL"@,
        }
    }

    /// The side as the exchange names it.
    pub fn name(&self) -> (s: String)
        ensures
            s@ == self.spec_name(),
    {
        match *self {
            Side::BUY => String::from_str("BUY"),
            Side::SELL => String::from_str("SELL"),
        }
    }
}

impl OrderType {
    /// The order type as the exchange names it.
    pub open spec fn spec_name(self) -> Seq<char> {
        match self {
            OrderType::MARKET => "MARKET"@,
            OrderType::LIMIT => "LIMIT"@,
            OrderType::STOP_LIMIT => "STOP_LIMIT"@,
            OrderType::TRAILING_STOP => "TRAILING_STOP"@,
            OrderType::TAKE_PROFIT => "TAKE_PROFIT"@,
        }
    }

    /// The order type as the exchange names it.
    pub fn name(&self) -> (s: String)
        ensures
            s@ == self.spec_name(),
    {
        match *self {
            OrderType::MARKET => String::from_str("MARKET"),
            OrderType::LIMIT => String::from_str("LIMIT"),
            OrderType::STOP_LIMIT => String::from_str("STOP_LIMIT"),
            OrderType::TRAILING_STOP => String::from_str("TRAILING_STOP"),
            OrderType::TAKE_PROFIT => String::from_str("TAKE_PROFIT"),
        }
    }
}

/// A flag written as `true` or `false`.
pub open spec fn flag_text(b: bool) -> Seq<char> {
    if b {
        "true"@
    } else {
        "false"@
    }
}

/// A flag written as `true` or `false`.
pub fn flag_string(b: bool) -> (s: String)
    ensures
        s@ == flag_text(b),
{
    if b {
        String::from_str("true")
    } else {
        String::from_str("false")
    }
}

/// A field of the request: its key and its value.
pub open spec fn entry(key: &str, value: Seq<char>) -> (Seq<char>, Seq<char>) {
    (key@, value)
}

/// The trailing percent, trigger price, time in force (fill or kill, for market
/// orders) and reduce-only flag, each only where it is given.
pub open spec fn optional_fields(order_type: OrderType, trade_data: TradeData) -> Seq<(Seq<char>, Seq<char>)> {
    let a = match trade_data.trailing_percent {
        Some(tp) => seq![entry("trailingPercent", tp@)],
        None => seq![],
    };
    let b = match trade_data.trigger_price {
        Some(trig) => seq![entry("triggerPrice", trig@)],
        None => seq![],
    };
    let c = if order_type == OrderType::MARKET {
        seq![entry("timeInForce", "FOK"@)]
    } else {
        seq![]
    };
    let d = match trade_data.reduce_only {
        Some(red) => seq![entry("reduceOnly", flag_text(red))],
        None => seq![],
    };
    a + b + c + d
}

/// The fields of an order request: market, side, type, post-only flag, size,
/// price, fee limit, expiration, client id, then the optional fields, and last the
/// order's signature.
pub open spec fn order_request_spec(
    market: Markets,
    position: Position,
    order_type: OrderType,
    fee: Seq<char>,
    client_id: Seq<char>,
    post_only: bool,
    trade_data: TradeData,
    expiration: Seq<char>,
    signature: Seq<char>,
) -> Seq<(Seq<char>, Seq<char>)> {
    seq![
        entry("market", market.spec_name()),
        entry("side", position.spec_side().spec_name()),
        entry("type", order_type.spec_name()),
        entry("postOnly", flag_text(post_only)),
        entry("size", position.spec_size()),
        entry("price", position.spec_open_price()),
        entry("limitFee", fee),
        entry("expiration", expiration),
        entry("clientId", client_id),
    ] + optional_fields(order_type, trade_data) + seq![entry("signature", signature)]
}

/// The fields as plain values.
pub open spec fn fields_view(fields: Seq<(String, String)>) -> Seq<(Seq<char>, Seq<char>)> {
    fields.map_values(|f: (String, String)| (f.0@, f.1@))
}

/// Adds one field.
fn push_field(fields: &mut Vec<(String, String)>, key: &str, value: String)
    ensures
        fields_view(final(fields)@) == fields_view(old(fields)@).push((key@, value@)),
{
    let ghost before = fields@;
    fields.push((String::from_str(key), value));
    proof {
        assert(fields_view(fields@) =~= fields_view(before).push((key@, value@)));
    }
}

/// The fields of an order request; see `order_request_spec`. The expiration is
/// given as the request writes it.
pub fn order_request_fields(
    market: Markets,
    position: &Position,
    order_type: OrderType,
    fee: String,
    client_id: String,
    post_only: bool,
    trade_data: TradeData,
    expiration: String,
    signature: String,
) -> (r: Vec<(String, String)>)
    ensures
        fields_view(r@) == order_request_spec(
            market,
            *position,
            order_type,
            fee@,
            client_id@,
            post_only,
            trade_data,
            expiration@,
            signature@,
        ),
{
    let ghost data = trade_data;
    let mut fields: Vec<(String, String)> = Vec::new();
    push_field(&mut fields, "market", market.to_string());
    push_field(&mut fields, "side", position.side().name());
    push_field(&mut fields, "type", order_type.name());
    push_field(&mut fields, "postOnly", flag_string(post_only));
    push_field(&mut fields, "size", position.size());
    push_field(&mut fields, "price", position.price());
    push_field(&mut fields, "limitFee", fee);
    push_field(&mut fields, "expiration", expiration);
    push_field(&mut fields, "clientId", client_id);
    let ghost base = fields_view(fields@);
    if let Some(tp) = trade_data.trailing_percent {
        push_field(&mut fields, "trailingPercent", tp);
    }
    let ghost with_a = fields_view(fields@);
    if let Some(trig) = trade_data.trigger_price {
        push_field(&mut fields, "triggerPrice", trig);
    }
    let ghost with_b = fields_view(fields@);
    if order_type == OrderType::MARKET {
        push_field(&mut fields, "timeInForce", String::from_str("FOK"));
    }
    let ghost with_c = fields_view(fields@);
    if let Some(red) = trade_data.reduce_only {
        push_field(&mut fields, "reduceOnly", flag_string(red));
    }
    let ghost with_d = fields_view(fields@);
    push_field(&mut fields, "signature", signature);
    proof {
        let opt = optional_fields(order_type, data);
        assert(with_d =~= base + opt);
        assert(fields_view(fields@) =~= order_request_spec(
            market,
            *position,
            order_type,
            fee@,
            client_id@,
            post_only,
            data,
            expiration@,
            signature@,
        ));
    }
    fields
}

/// Whether some field of a request has the key `key`.
pub open spec fn has_key(fields: Seq<(Seq<char>, Seq<char>)>, key: Seq<char>) -> bool {
    exists|i: int| 0 <= i < fields.len() && #[trigger] fields[i].0 == key
}

/// A request asks for fill-or-kill exactly for a market order: a limit, stop or
/// take-profit order rests on the book without a `timeInForce` field, and a market
/// order carries `timeInForce` with the value `FOK`.
pub proof fn lemma_time_in_force_only_for_market(
    market: Markets,
    position: Position,
    order_type: OrderType,
    fee: Seq<char>,
    client_id: Seq<char>,
    post_only: bool,
    trade_data: TradeData,
    expiration: Seq<char>,
    signature: Seq<char>,
)
    ensures
        ({
            let fields = order_request_spec(
                market,
                position,
                order_type,
                fee,
                client_id,
                post_only,
                trade_data,
                expiration,
                signature,
            );
            &&& has_key(fields, "timeInForce"@) <==> order_type == OrderType::MARKET
            &&& forall|i: int|
                0 <= i < fields.len() && #[trigger] fields[i].0 == "timeInForce"@ ==> fields[i].1
                    == "FOK"@
        }),
{
    reveal_strlit("timeInForce");
    reveal_strlit("market");
    reveal_strlit("side");
    reveal_strlit("type");
    reveal_strlit("postOnly");
    reveal_strlit("size");
    reveal_strlit("price");
    reveal_strlit("limitFee");
    reveal_strlit("expiration");
    reveal_strlit("clientId");
    reveal_strlit("trailingPercent");
    reveal_strlit("triggerPrice");
    reveal_strlit("reduceOnly");
    reveal_strlit("signature");
    let fields = order_request_spec(
        market,
        position,
        order_type,
        fee,
        client_id,
        post_only,
        trade_data,
        expiration,
        signature,
    );
    let tif = "timeInForce"@;
    assert(tif.len() == 11);
    // Every other key has another length.
    assert forall|i: int| 0 <= i < fields.len() && #[trigger] fields[i].0 == tif implies fields[i]
        == entry("timeInForce", "FOK"@) && order_type == OrderType::MARKET by {
        let a = match trade_data.trailing_percent {
            Some(tp) => seq![entry("trailingPercent", tp@)],
            None => seq![],
        };
        let b = match trade_data.trigger_price {
            Some(trig) => seq![entry("triggerPrice", trig@)],
            None => seq![],
        };
        let c = if order_type == OrderType::MARKET {
            seq![entry("timeInForce", "FOK"@)]
        } else {
            seq![]
        };
        let d = match trade_data.reduce_only {
            Some(red) => seq![entry("reduceOnly", flag_text(red))],
            None => seq![],
        };
        assert(optional_fields(order_type, trade_data) == a + b + c + d);
        let n = 9 + a.len() + b.len();
        if i < 9 {
        } else if i < 9 + a.len() {
            assert(fields[i] == a[i - 9]);
        } else if i < n {
            assert(fields[i] == b[i - 9 - a.len()]);
        } else if i < n + c.len() {
            assert(fields[i] == c[i - n]);
        } else if i < n + c.len() + d.len() {
            assert(fields[i] == d[i - n - c.len()]);
        } else {
            assert(i == fields.len() - 1);
        }
    }
    if order_type == OrderType::MARKET {
        let k = 9 + (if trade_data.trailing_percent is Some { 1int } else { 0 }) + (
        if trade_data.trigger_price is Some {
            1int
        } else {
            0
        });
        assert(fields[k].0 == tif);
    }
}

} // verus!
