use fox::dydx::constants::StarkConstants;
use fox::dydx::requests::{flag_string, order_request_fields};
use fox::dydx::{Exposure, Markets, OrderType, Position, Side, TradeData};
use fox::uint::Uint512;

#[test]
fn vector_lists_every_market_once() {
    let all = Markets::vector();
    assert_eq!(all.len(), 37);
    for i in 0..all.len() {
        for j in 0..all.len() {
            if i != j {
                assert_ne!(all[i], all[j]);
            }
        }
    }
    assert_eq!(all[0], Markets::BTC);
    assert_eq!(all[1], Markets::ETH);
    assert_eq!(all[22], Markets::INCH);
    assert_eq!(all[36], Markets::XLM);
}

#[test]
fn index_is_position_in_vector() {
    let all = Markets::vector();
    for (i, m) in all.iter().enumerate() {
        assert_eq!(m.index(), i);
    }
}

#[test]
fn market_names() {
    assert_eq!(Markets::ETH.to_string(), "ETH-USD");
    assert_eq!(Markets::BTC.to_string(), "BTC-USD");
    assert_eq!(Markets::INCH.to_string(), "1INCH-USD");
    assert_eq!(Markets::XLM.to_string(), "XLM-USD");
}

#[test]
fn feed_messages() {
    assert_eq!(
        Markets::ETH.trade_feed_message(),
        "{ \"type\": \"subscribe\", \"channel\": \"v3_trades\", \"id\": \"ETH-USD\" }\n"
    );
    assert_eq!(
        Markets::INCH.orderbook_feed_message(),
        "{ \"type\": \"subscribe\", \"channel\": \"v3_orderbook\", \"id\": \"1INCH-USD\", \"includeOffsets\": true }\n"
    );
}

#[test]
fn market_decimals() {
    assert_eq!(Markets::BTC.decimals(), 10);
    assert_eq!(Markets::ETH.decimals(), 9);
    assert_eq!(Markets::DOGE.decimals(), 5);
    assert_eq!(Markets::TRX.decimals(), 4);
    assert_eq!(Markets::YFI.decimals(), 10);
}

#[test]
fn other_side_twice_is_the_same_side() {
    assert_eq!(Side::BUY.other(), Side::SELL);
    assert_eq!(Side::SELL.other(), Side::BUY);
    assert_eq!(Side::BUY.other().other(), Side::BUY);
    assert_eq!(Side::SELL.other().other(), Side::SELL);
}

#[test]
fn names_for_requests() {
    assert_eq!(Side::BUY.name(), "BUY");
    assert_eq!(Side::SELL.name(), "SELL");
    assert_eq!(OrderType::TRAILING_STOP.name(), "TRAILING_STOP");
    assert_eq!(OrderType::MARKET.name(), "MARKET");
    assert_eq!(flag_string(true), "true");
    assert_eq!(flag_string(false), "false");
    let _ = Exposure::Low;
}

fn constants() -> StarkConstants {
    let mut points = Vec::new();
    for i in 0u64..506 {
        points.push((Uint512::from_u64(i * i + 7), Uint512::from_u64(3 * i + 11)));
    }
    let mut ids = Vec::new();
    for i in 0u64..37 {
        ids.push(Uint512::from_u64(1000 + i));
    }
    StarkConstants {
        constant_points: points,
        asset_ids: ids,
        usd_asset_id_mainnet: Uint512::from_u64(77),
        usd_asset_id_testnet: Uint512::from_u64(88),
        expiration_buffer_hours: 168,
    }
}

#[test]
fn asset_ids_follow_the_vector() {
    let c = constants();
    assert!(c.check());
    assert_eq!(Markets::BTC.id(&c).to_limbs()[0], 1000);
    assert_eq!(Markets::ETH.id(&c).to_limbs()[0], 1001);
    assert_eq!(Markets::XLM.id(&c).to_limbs()[0], 1036);
    let all = Markets::vector();
    for a in all.iter() {
        for b in all.iter() {
            if a != b {
                assert_ne!(a.id(&c).to_limbs(), b.id(&c).to_limbs());
            }
        }
    }
    assert_eq!(c.usd_asset_id(false).to_limbs()[0], 77);
    assert_eq!(c.usd_asset_id(true).to_limbs()[0], 88);
}

#[test]
fn constants_are_checked() {
    let mut c = constants();
    c.asset_ids.pop();
    assert!(!c.check());
    let mut c = constants();
    // two markets may not share an asset id
    c.asset_ids[36] = Uint512::from_u64(1000);
    assert!(!c.check());
    let mut c = constants();
    c.constant_points.truncate(505);
    assert!(!c.check());
    let mut c = constants();
    // the field prime itself is not a residue
    let p = fox::dydx::ec_math::ECMath::field_prime_value();
    c.constant_points[300] = (p, Uint512::from_u64(1));
    assert!(!c.check());
}

fn field(fields: &[(String, String)], key: &str) -> Option<String> {
    fields.iter().find(|f| f.0 == key).map(|f| f.1.clone())
}

#[test]
fn market_order_request_fields() {
    let position = Position::new("1500.5".to_string(), "0.01".to_string(), Side::BUY);
    let fields = order_request_fields(
        Markets::ETH,
        &position,
        OrderType::MARKET,
        "0.02".to_string(),
        "42".to_string(),
        false,
        TradeData::new(None, None, Some(false)),
        "2023-11-14T22:13:20Z".to_string(),
        "abcd".to_string(),
    );
    let keys: Vec<&str> = fields.iter().map(|f| f.0.as_str()).collect();
    assert_eq!(
        keys,
        vec![
            "market", "side", "type", "postOnly", "size", "price", "limitFee", "expiration",
            "clientId", "timeInForce", "reduceOnly", "signature"
        ]
    );
    assert_eq!(field(&fields, "market").unwrap(), "ETH-USD");
    assert_eq!(field(&fields, "side").unwrap(), "BUY");
    assert_eq!(field(&fields, "type").unwrap(), "MARKET");
    assert_eq!(field(&fields, "postOnly").unwrap(), "false");
    assert_eq!(field(&fields, "size").unwrap(), "0.01");
    assert_eq!(field(&fields, "price").unwrap(), "1500.5");
    assert_eq!(field(&fields, "limitFee").unwrap(), "0.02");
    assert_eq!(field(&fields, "clientId").unwrap(), "42");
    assert_eq!(field(&fields, "timeInForce").unwrap(), "FOK");
    assert_eq!(field(&fields, "reduceOnly").unwrap(), "false");
    assert_eq!(field(&fields, "signature").unwrap(), "abcd");
}

#[test]
fn limit_order_request_fields() {
    let position = Position::new("30.5".to_string(), "2".to_string(), Side::SELL);
    let fields = order_request_fields(
        Markets::INCH,
        &position,
        OrderType::TRAILING_STOP,
        "0.01".to_string(),
        "7".to_string(),
        true,
        TradeData::new(Some("0.1".to_string()), Some("31".to_string()), None),
        "exp".to_string(),
        "sig".to_string(),
    );
    let keys: Vec<&str> = fields.iter().map(|f| f.0.as_str()).collect();
    assert_eq!(
        keys,
        vec![
            "market", "side", "type", "postOnly", "size", "price", "limitFee", "expiration",
            "clientId", "trailingPercent", "triggerPrice", "signature"
        ]
    );
    assert_eq!(field(&fields, "market").unwrap(), "1INCH-USD");
    assert_eq!(field(&fields, "side").unwrap(), "SELL");
    assert_eq!(field(&fields, "postOnly").unwrap(), "true");
    assert_eq!(field(&fields, "trailingPercent").unwrap(), "0.1");
    assert_eq!(field(&fields, "triggerPrice").unwrap(), "31");
}
