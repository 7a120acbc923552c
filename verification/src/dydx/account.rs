//! The authentication of requests to the exchange and the account's STARK key.
use base64::{engine::general_purpose, Engine as _};
use chrono::Utc;
use vstd::prelude::*;
use vstd::utf8::encode_utf8;

use crate::dydx::amounts::{parse_u64, parse_u64_spec};
use crate::dydx::crypto::{concat_bytes, hmac_sha256, hmac_sha256_tag};
use crate::dydx::InternalAccount;
use crate::uint::{hex_body, hex_value, valid_hex_u512, Uint512};

verus! {

/// The bytes that URL-safe base64 without padding decodes from a text, if it is such
/// base64.
pub uninterp spec fn base64_url_decode(text: Seq<char>) -> Option<Seq<u8>>;

/// The URL-safe base64 text, without padding, of some bytes.
pub uninterp spec fn base64_url_encode(bytes: Seq<u8>) -> Seq<char>;

/// Decodes URL-safe base64 without padding, through `Engine::decode` of
/// `general_purpose::URL_SAFE_NO_PAD`; `None` where that reports an error.
#[verifier::external_body]
fn decode_base64_url(text: &str) -> (r: Option<Vec<u8>>)
    ensures
        match r {
            Some(bytes) => base64_url_decode(text@) == Some(bytes@),
            None => base64_url_decode(text@) is None,
        },
{
    general_purpose::URL_SAFE_NO_PAD.decode(text).ok()
}

/// Encodes as URL-safe base64 without padding, through `Engine::encode` of
/// `general_purpose::URL_SAFE_NO_PAD`: four characters for each three bytes, and
/// two or three for one or two bytes left over (`encoded_len` without padding).
#[verifier::external_body]
fn encode_base64_url(bytes: &[u8]) -> (r: String)
    ensures
        r@ == base64_url_encode(bytes@),
        r@.len() == (4 * bytes@.len() + 2) / 3,
{
    general_purpose::URL_SAFE_NO_PAD.encode(bytes)
}

/// The string at `json[key][index][field]` in a JSON text, if the text is JSON and
/// that place holds a string.
pub uninterp spec fn json_string_at(json: Seq<char>, key: Seq<char>, index: nat, field: Seq<char>) -> Option<Seq<char>>;

/// Reads `json[key][index][field]` as a string, through
/// `serde_json::from_str::<serde_json::Value>`, `Value`'s indexing (which gives
/// `Null` where a key or an index is missing) and `Value::as_str`.
#[verifier::external_body]
fn json_str_at(json: &str, key: &str, index: usize, field: &str) -> (r: Option<String>)
    ensures
        match r {
            Some(v) => json_string_at(json@, key@, index as nat, field@) == Some(v@),
            None => json_string_at(json@, key@, index as nat, field@) is None,
        },
{
    match serde_json::from_str::<serde_json::Value>(json) {
        Ok(value) => value[key][index][field].as_str().map(|v| v.to_string()),
        Err(_) => None,
    }
}

/// The position id in a response listing the accounts (`{"accounts": [...]}`):
/// the first account's `positionId`, read as an unsigned 64-bit integer; `None`
/// where the response has no such string or it is no such integer.
pub fn position_id_from_accounts(response: &str) -> (r: Option<u64>)
    ensures
        match json_string_at(response@, "accounts"@, 0, "positionId"@) {
            Some(text) => r == parse_u64_spec(text),
            None => r is None,
        },
{
    match json_str_at(response, "accounts", 0, "positionId") {
        Some(text) => parse_u64(text.as_str()),
        None => None,
    }
}

/// The equity in a response listing the accounts (`{"accounts": [...]}`): the
/// first account's `equity`, as the decimal text the exchange writes; `None` where
/// the response has no such string.
pub fn equity_text_from_accounts(response: &str) -> (r: Option<String>)
    ensures
        match json_string_at(response@, "accounts"@, 0, "equity"@) {
            Some(text) => r matches Some(s) && s@ == text,
            None => r is None,
        },
{
    json_str_at(response, "accounts", 0, "equity")
}

/// The current time, through `chrono::Utc::now`, written with `Debug` (the RFC 3339
/// form with nanoseconds); nothing is stated of it, as it depends on the clock.
#[verifier::external_body]
fn current_timestamp() -> (r: String) {
    format!("{:?}", Utc::now())
}

/// The text that is signed for a request: timestamp, method and path, then the body.
pub open spec fn signed_bytes(
    timestamp: Seq<char>,
    method: Seq<char>,
    request_path: Seq<char>,
    data: Option<Seq<char>>,
) -> Seq<u8> {
    let request = encode_utf8(timestamp + method + request_path);
    match data {
        Some(d) => request + encode_utf8(d),
        None => request,
    }
}

/// The signature header: the base64 text of the tag, with one `=` of padding put
/// back when the text has 43 characters (the length for a 32-byte tag).
pub open spec fn signature_text(tag: Seq<u8>) -> Seq<char> {
    let text = base64_url_encode(tag);
    if text.len() == 43 {
        text + seq!['=']
    } else {
        text
    }
}

/// The signature header of a request under an API secret: the URL-safe base64
/// text of the 32-byte HMAC-SHA256 tag (43 characters), followed by `=`.
pub open spec fn request_signature(
    secret: Seq<char>,
    timestamp: Seq<char>,
    method: Seq<char>,
    request_path: Seq<char>,
    data: Option<Seq<char>>,
) -> Seq<char> {
    base64_url_encode(
        hmac_sha256(
            base64_url_decode(secret)->0,
            signed_bytes(timestamp, method, request_path, data),
        ),
    ) + seq!['=']
}

impl InternalAccount {
    /// The signature headers of a request made at `timestamp` (as the request
    /// will carry it): the HMAC-SHA256 tag of the request under the decoded API
    /// secret, and the timestamp.
    pub fn signature_at(
        &self,
        timestamp: String,
        request_path: String,
        method: String,
        data: Option<String>,
    ) -> (r: (String, String))
        requires
            base64_url_decode(self.spec_api_secret()) is Some,
        ensures
            r.0@ == signature_text(
                hmac_sha256(
                    base64_url_decode(self.spec_api_secret())->0,
                    signed_bytes(
                        timestamp@,
                        method@,
                        request_path@,
                        match data {
                            Some(d) => Some(d@),
                            None => None,
                        },
                    ),
                ),
            ),
            r.1@ == timestamp@,
            r.0@.len() == 44 && r.0@[43] == '=',
            r.0@ == request_signature(
                self.spec_api_secret(),
                timestamp@,
                method@,
                request_path@,
                match data {
                    Some(d) => Some(d@),
                    None => None,
                },
            ),
    {
        let mut request = timestamp.clone();
        request.append(method.as_str());
        request.append(request_path.as_str());
        let secret = self.api_secret();
        let key = match decode_base64_url(secret.as_str()) {
            Some(key) => key,
            None => Vec::new(),
        };
        let message = match &data {
            Some(d) => concat_bytes(request.as_str().as_bytes(), d.as_str().as_bytes()),
            None => vstd::slice::slice_to_vec(request.as_str().as_bytes()),
        };
        let ghost data_view = match data {
            Some(d) => Some(d@),
            None => None::<Seq<char>>,
        };
        assert(request@ == timestamp@ + method@ + request_path@);
        assert(key@ == base64_url_decode(self.spec_api_secret())->0);
        assert(message@ == signed_bytes(timestamp@, method@, request_path@, data_view));
        let tag = hmac_sha256_tag(key.as_slice(), message.as_slice());
        let mut encoded_signature = encode_base64_url(tag.as_slice());
        let ghost text = encoded_signature@;
        if encoded_signature.as_str().unicode_len() == 43 {
            encoded_signature.append("=");
            proof {
                reveal_strlit("=");
                assert("="@ =~= seq!['=']);
            }
        }
        assert(encoded_signature@ == signature_text(tag@));
        (encoded_signature, timestamp)
    }

    /// The signature headers, when the API secret is URL-safe base64; `None` when it
    /// is not, where decoding it fails.
    pub fn try_signature_at(
        &self,
        timestamp: String,
        request_path: String,
        method: String,
        data: Option<String>,
    ) -> (r: Option<(String, String)>)
        ensures
            r is None <==> base64_url_decode(self.spec_api_secret()) is None,
            r matches Some(v) ==> v.0@ == signature_text(
                hmac_sha256(
                    base64_url_decode(self.spec_api_secret())->0,
                    signed_bytes(
                        timestamp@,
                        method@,
                        request_path@,
                        match data {
                            Some(d) => Some(d@),
                            None => None,
                        },
                    ),
                ),
            ) && v.1@ == timestamp@,
            r matches Some(v) ==> v.0@.len() == 44 && v.0@[43] == '=',
            r matches Some(v) ==> v.0@ == request_signature(
                self.spec_api_secret(),
                timestamp@,
                method@,
                request_path@,
                match data {
                    Some(d) => Some(d@),
                    None => None,
                },
            ),
    {
        let secret = self.api_secret();
        match decode_base64_url(secret.as_str()) {
            Some(_) => Some(self.signature_at(timestamp, request_path, method, data)),
            None => None,
        }
    }

    /// The signature headers of a request made now: the tag covers the current
    /// time, which is handed back as the second header.
    pub fn signature_for(&self, request_path: String, method: String, data: Option<String>) -> (r: (
        String,
        String,
    ))
        requires
            base64_url_decode(self.spec_api_secret()) is Some,
        ensures
            r.0@ == signature_text(
                hmac_sha256(
                    base64_url_decode(self.spec_api_secret())->0,
                    signed_bytes(
                        r.1@,
                        method@,
                        request_path@,
                        match data {
                            Some(d) => Some(d@),
                            None => None,
                        },
                    ),
                ),
            ),
            r.0@.len() == 44 && r.0@[43] == '=',
            r.0@ == request_signature(
                self.spec_api_secret(),
                r.1@,
                method@,
                request_path@,
                match data {
                    Some(d) => Some(d@),
                    None => None,
                },
            ),
    {
        self.signature_at(current_timestamp(), request_path, method, data)
    }

    /// The signature headers of a request made now, when the API secret is URL-safe
    /// base64; `None` when it is not, where decoding it fails.
    pub fn try_signature_for(&self, request_path: String, method: String, data: Option<String>) -> (r:
        Option<(String, String)>)
        ensures
            r is None <==> base64_url_decode(self.spec_api_secret()) is None,
            r matches Some(v) ==> v.0@ == signature_text(
                hmac_sha256(
                    base64_url_decode(self.spec_api_secret())->0,
                    signed_bytes(
                        v.1@,
                        method@,
                        request_path@,
                        match data {
                            Some(d) => Some(d@),
                            None => None,
                        },
                    ),
                ),
            ),
            r matches Some(v) ==> v.0@.len() == 44 && v.0@[43] == '=',
            r matches Some(v) ==> v.0@ == request_signature(
                self.spec_api_secret(),
                v.1@,
                method@,
                request_path@,
                match data {
                    Some(d) => Some(d@),
                    None => None,
                },
            ),
    {
        let secret = self.api_secret();
        match decode_base64_url(secret.as_str()) {
            Some(_) => Some(self.signature_for(request_path, method, data)),
            None => None,
        }
    }

    /// The STARK private key, written in hexadecimal.
    pub fn stark_private_key(&self) -> (r: Uint512)
        requires
            valid_hex_u512(self.spec_stark_private_key()),
        ensures
            r@ == hex_value(hex_body(self.spec_stark_private_key())),
    {
        let key = self.stark_private_key_text();
        match Uint512::try_from_hex_str(key.as_str()) {
            Some(v) => v,
            None => Uint512::zero(),
        }
    }

    /// Whether the STARK private key is a hexadecimal number that fits 512 bits.
    pub fn has_valid_stark_private_key(&self) -> (r: bool)
        ensures
            r == valid_hex_u512(self.spec_stark_private_key()),
    {
        let key = self.stark_private_key_text();
        is_valid_hex_u512(key.as_str())
    }
}

/// The number that a text writes in hexadecimal (an optional `0x`, then at most 128
/// hexadecimal digits), as `U512` reads it; `None` for any other text.
pub fn parse_hex_u512(text: &str) -> (r: Option<Uint512>)
    ensures
        r is Some <==> valid_hex_u512(text@),
        r matches Some(v) ==> v@ == hex_value(hex_body(text@)),
{
    Uint512::try_from_hex_str(text)
}

/// Whether a text is an optional `0x` followed by at most 128 hexadecimal digits:
/// whether `U512` reads it as a hexadecimal number.
pub fn is_valid_hex_u512(text: &str) -> (r: bool)
    ensures
        r == valid_hex_u512(text@),
{
    Uint512::try_from_hex_str(text).is_some()
}

} // verus!
