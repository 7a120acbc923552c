//! The trades in a message of the exchange's trade feed
//! (`{"contents": {"trades": [{"price": ..., "createdAt": ...}, ...]}}`).
use chrono::DateTime;
use vstd::prelude::*;

verus! {

/// The length of the array at `json[outer][inner]` in a JSON text, if the text is
/// JSON and that place holds an array.
pub uninterp spec fn json_array_len_at(json: Seq<char>, outer: Seq<char>, inner: Seq<char>) -> Option<nat>;

/// Reads the length of the array `json[outer][inner]`, through
/// `serde_json::from_str::<serde_json::Value>`, `Value`'s indexing (which gives
/// `Null` where a key is missing) and `Value::as_array`.
#[verifier::external_body]
fn json_array_len(json: &str, outer: &str, inner: &str) -> (r: Option<usize>)
    ensures
        match r {
            Some(n) => json_array_len_at(json@, outer@, inner@) == Some(n as nat),
            None => json_array_len_at(json@, outer@, inner@) is None,
        },
{
    match serde_json::from_str::<serde_json::Value>(json) {
        Ok(value) => value[outer][inner].as_array().map(|a| a.len()),
        Err(_) => None,
    }
}

/// The string at `json[outer][inner][index][field]` in a JSON text, if the text is
/// JSON and that place holds a string.
pub uninterp spec fn json_string_in_array(
    json: Seq<char>,
    outer: Seq<char>,
    inner: Seq<char>,
    index: nat,
    field: Seq<char>,
) -> Option<Seq<char>>;

/// Reads `json[outer][inner][index][field]` as a string, through
/// `serde_json::from_str::<serde_json::Value>`, `Value`'s indexing and
/// `Value::as_str`.
#[verifier::external_body]
fn json_str_in_array(json: &str, outer: &str, inner: &str, index: usize, field: &str) -> (r: Option<
    String,
>)
    ensures
        match r {
            Some(v) => json_string_in_array(json@, outer@, inner@, index as nat, field@) == Some(v@),
            None => json_string_in_array(json@, outer@, inner@, index as nat, field@) is None,
        },
{
    match serde_json::from_str::<serde_json::Value>(json) {
        Ok(value) => value[outer][inner][index][field].as_str().map(|v| v.to_string()),
        Err(_) => None,
    }
}

/// The seconds since the Unix epoch of an RFC 3339 time, if the text is one.
pub uninterp spec fn rfc3339_seconds(text: Seq<char>) -> Option<i64>;

/// Reads an RFC 3339 time as seconds since the Unix epoch, through
/// `DateTime::parse_from_rfc3339` and `DateTime::timestamp`.
#[verifier::external_body]
fn parse_rfc3339_seconds(text: &str) -> (r: Option<i64>)
    ensures
        r == rfc3339_seconds(text@),
{
    DateTime::parse_from_rfc3339(text).ok().map(|t| t.timestamp())
}

/// The `index`-th trade of a message: its price as written, and its time in
/// seconds (the signed seconds taken as `u64`); `None` where it lacks either or
/// its time is no RFC 3339 time.
pub open spec fn trade_at(message: Seq<char>, index: nat) -> Option<(Seq<char>, u64)> {
    let price = json_string_in_array(message, "contents"@, "trades"@, index, "price"@);
    let created = json_string_in_array(message, "contents"@, "trades"@, index, "createdAt"@);
    if price is None || created is None {
        None
    } else {
        match rfc3339_seconds(created->0) {
            Some(t) => Some((price->0, t as u64)),
            None => None,
        }
    }
}

/// The trades among the first `n` of a message that were made after `now`, in
/// order; `None` where one of the first `n` trades cannot be read.
pub open spec fn trades_after_spec(message: Seq<char>, now: u64, n: nat) -> Option<Seq<(Seq<char>, u64)>>
    decreases n,
{
    if n == 0 {
        Some(seq![])
    } else {
        match trades_after_spec(message, now, (n - 1) as nat) {
            None => None,
            Some(kept) => match trade_at(message, (n - 1) as nat) {
                None => None,
                Some(trade) => Some(
                    if trade.1 > now {
                        kept.push(trade)
                    } else {
                        kept
                    },
                ),
            },
        }
    }
}

/// Once a trade cannot be read, no longer prefix of the message can be.
proof fn lemma_unreadable_stays(message: Seq<char>, now: u64, i: nat, n: nat)
    requires
        i <= n,
        trades_after_spec(message, now, i) is None,
    ensures
        trades_after_spec(message, now, n) is None,
    decreases n - i,
{
    if i < n {
        lemma_unreadable_stays(message, now, i + 1, n);
        assert(trades_after_spec(message, now, i + 1) is None);
    }
}

/// The trades of a message made after `now`: none where the message is no JSON
/// or holds no array of trades.
pub open spec fn message_trades_after(message: Seq<char>, now: u64) -> Option<Seq<(Seq<char>, u64)>> {
    match json_array_len_at(message, "contents"@, "trades"@) {
        None => Some(seq![]),
        Some(n) => trades_after_spec(message, now, n),
    }
}

/// The trades as plain values.
pub open spec fn trades_view(trades: Seq<(String, u64)>) -> Seq<(Seq<char>, u64)> {
    trades.map_values(|t: (String, u64)| (t.0@, t.1))
}

/// The trades of a feed message made after `now`, each as its price text and its
/// time in seconds; `None` where a trade lacks its price or time.
pub fn trades_after(message: &str, now: u64) -> (r: Option<Vec<(String, u64)>>)
    ensures
        match message_trades_after(message@, now) {
            Some(kept) => r matches Some(v) && trades_view(v@) == kept,
            None => r is None,
        },
{
    let n = match json_array_len(message, "contents", "trades") {
        Some(n) => n,
        None => {
            return Some(Vec::new());
        },
    };
    let mut kept: Vec<(String, u64)> = Vec::new();
    let mut i: usize = 0;
    while i < n
        invariant
            i <= n,
            json_array_len_at(message@, "contents"@, "trades"@) == Some(n as nat),
            trades_after_spec(message@, now, i as nat) == Some(trades_view(kept@)),
        decreases n - i,
    {
        let price = match json_str_in_array(message, "contents", "trades", i, "price") {
            Some(p) => p,
            None => {
                proof {
                    lemma_unreadable_stays(message@, now, (i + 1) as nat, n as nat);
                }
                return None;
            },
        };
        let created = match json_str_in_array(message, "contents", "trades", i, "createdAt") {
            Some(c) => c,
            None => {
                proof {
                    lemma_unreadable_stays(message@, now, (i + 1) as nat, n as nat);
                }
                return None;
            },
        };
        let seconds = match parse_rfc3339_seconds(created.as_str()) {
            Some(t) => t,
            None => {
                proof {
                    lemma_unreadable_stays(message@, now, (i + 1) as nat, n as nat);
                }
                return None;
            },
        };
        let time = #[verifier::truncate] (seconds as u64);
        let ghost before = kept@;
        if time > now {
            kept.push((price, time));
            proof {
                assert(trades_view(kept@) =~= trades_view(before).push((price@, time)));
            }
        }
        i = i + 1;
    }
    Some(kept)
}

} // verus!
