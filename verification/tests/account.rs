use base64::{engine::general_purpose, Engine as _};
use hmac::{Hmac, Mac};

use fox::dydx::account::{equity_text_from_accounts, is_valid_hex_u512, parse_hex_u512, position_id_from_accounts};
use fox::dydx::{InternalAccount, Position, Side, TradeData};

fn account(secret: &str, key: &str) -> InternalAccount {
    InternalAccount::new_uninitialized(
        "api-key".to_string(),
        "pass".to_string(),
        secret.to_string(),
        key.to_string(),
        "0xabc".to_string(),
    )
}

fn expected_signature(secret: &str, message: &str) -> String {
    let key = general_purpose::URL_SAFE_NO_PAD.decode(secret).unwrap();
    let mut mac = Hmac::<sha2::Sha256>::new_from_slice(&key).unwrap();
    mac.update(message.as_bytes());
    let mut text = general_purpose::URL_SAFE_NO_PAD.encode(mac.finalize().into_bytes());
    if text.len() == 43 {
        text.push('=');
    }
    text
}

#[test]
fn credentials_are_kept() {
    let mut acc = account("c2VjcmV0", "1f");
    assert_eq!(acc.api_key(), "api-key");
    assert_eq!(acc.api_passphrase(), "pass");
    assert_eq!(acc.api_secret(), "c2VjcmV0");
    assert_eq!(acc.ethereum_address(), "0xabc");
    assert_eq!(acc.position_id(), 0);
    acc.set_position_id(184552);
    assert_eq!(acc.position_id(), 184552);
    assert_eq!(acc.api_key(), "api-key");
}

#[test]
fn signature_of_a_get_request() {
    let acc = account("c2VjcmV0LWtleS1mb3ItdGVzdHM", "1f");
    let (sig, ts) = acc.signature_at(
        "2023-11-14T22:13:20.000000000Z".to_string(),
        "/v3/accounts".to_string(),
        "GET".to_string(),
        None,
    );
    assert_eq!(ts, "2023-11-14T22:13:20.000000000Z");
    let expected = expected_signature(
        "c2VjcmV0LWtleS1mb3ItdGVzdHM",
        "2023-11-14T22:13:20.000000000ZGET/v3/accounts",
    );
    assert_eq!(sig, expected);
    assert_eq!(sig.len(), 44);
    assert!(sig.ends_with('='));
}

#[test]
fn signature_covers_the_body() {
    let acc = account("c2VjcmV0LWtleS1mb3ItdGVzdHM", "1f");
    let (sig, _) = acc.signature_at(
        "t".to_string(),
        "/v3/orders".to_string(),
        "POST".to_string(),
        Some("{\"a\":\"b\"}".to_string()),
    );
    assert_eq!(sig, expected_signature("c2VjcmV0LWtleS1mb3ItdGVzdHM", "tPOST/v3/orders{\"a\":\"b\"}"));
    let (without, _) = acc.signature_at("t".to_string(), "/v3/orders".to_string(), "POST".to_string(), None);
    assert_ne!(sig, without);
}

#[test]
fn signature_now_matches_its_timestamp() {
    let acc = account("c2VjcmV0LWtleS1mb3ItdGVzdHM", "1f");
    let (sig, ts) = acc.signature_for("/v3/positions".to_string(), "GET".to_string(), None);
    let message = format!("{}GET/v3/positions", ts);
    assert_eq!(sig, expected_signature("c2VjcmV0LWtleS1mb3ItdGVzdHM", &message));
}

#[test]
fn secret_that_is_not_base64() {
    let acc = account("not base64!", "1f");
    assert!(acc
        .try_signature_at("t".to_string(), "/".to_string(), "GET".to_string(), None)
        .is_none());
    let good = account("c2VjcmV0", "1f");
    assert!(good
        .try_signature_at("t".to_string(), "/".to_string(), "GET".to_string(), None)
        .is_some());
}

#[test]
fn stark_private_key_is_hexadecimal() {
    let acc = account("c2VjcmV0", "0x1F");
    assert!(acc.has_valid_stark_private_key());
    assert_eq!(acc.stark_private_key().to_limbs()[0], 31);
    let acc = account("c2VjcmV0", "abcdef0123456789abcdef");
    let limbs = acc.stark_private_key().to_limbs();
    assert_eq!(limbs[0], 0x0123456789abcdef);
    assert_eq!(limbs[1], 0xabcdef);
    assert!(!account("c2VjcmV0", "12g4").has_valid_stark_private_key());
}

#[test]
fn hexadecimal_texts() {
    assert!(is_valid_hex_u512("0x00ff"));
    assert!(is_valid_hex_u512(""));
    assert!(is_valid_hex_u512(&"f".repeat(128)));
    assert!(!is_valid_hex_u512(&"f".repeat(129)));
    assert!(!is_valid_hex_u512("0xz"));
}

#[test]
fn positions_and_trade_data() {
    let p = Position::new("1500".to_string(), "0.01".to_string(), Side::BUY);
    assert_eq!(p.price(), "1500");
    assert_eq!(p.size(), "0.01");
    assert_eq!(p.side(), Side::BUY);
    let t = TradeData::new(Some("0.1".to_string()), None, Some(false));
    assert_eq!(t.trailing_percent, Some("0.1".to_string()));
    assert_eq!(t.trigger_price, None);
    assert_eq!(t.reduce_only, Some(false));
}

#[test]
fn position_id_in_an_accounts_response() {
    assert_eq!(
        position_id_from_accounts("{\"accounts\":[{\"positionId\":\"184552\",\"equity\":\"10.5\"}]}"),
        Some(184552)
    );
    assert_eq!(position_id_from_accounts("{\"accounts\":[{\"positionId\":184552}]}"), None);
    assert_eq!(position_id_from_accounts("{\"accounts\":[]}"), None);
    assert_eq!(position_id_from_accounts("not json"), None);
    assert_eq!(position_id_from_accounts("{\"accounts\":[{\"positionId\":\"x1\"}]}"), None);
}

#[test]
fn equity_in_an_accounts_response() {
    assert_eq!(
        equity_text_from_accounts("{\"accounts\":[{\"positionId\":\"1\",\"equity\":\"1234.5678\"}]}"),
        Some("1234.5678".to_string())
    );
    assert_eq!(equity_text_from_accounts("{\"accounts\":[{\"equity\":12}]}"), None);
    assert_eq!(equity_text_from_accounts("[]"), None);
}

#[test]
fn hexadecimal_numbers() {
    assert_eq!(parse_hex_u512("0x1F").unwrap().to_limbs()[0], 31);
    assert_eq!(parse_hex_u512("ff").unwrap().to_limbs()[0], 255);
    assert_eq!(parse_hex_u512("").unwrap().to_limbs()[0], 0);
    assert!(parse_hex_u512("0x0x1").is_none());
    assert!(parse_hex_u512("12g").is_none());
}

#[test]
fn signature_header_is_the_encoded_tag_and_padding() {
    let acc = account("c2VjcmV0LWtleS1mb3ItdGVzdHM", "1f");
    let (sig, _) = acc.signature_at("t".to_string(), "/".to_string(), "GET".to_string(), None);
    let key = general_purpose::URL_SAFE_NO_PAD.decode("c2VjcmV0LWtleS1mb3ItdGVzdHM").unwrap();
    let mut mac = Hmac::<sha2::Sha256>::new_from_slice(&key).unwrap();
    mac.update(b"tGET/");
    let encoded = general_purpose::URL_SAFE_NO_PAD.encode(mac.finalize().into_bytes());
    assert_eq!(encoded.len(), 43);
    assert_eq!(sig, encoded + "=");
}
