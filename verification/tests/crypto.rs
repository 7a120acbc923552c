use primitive_types::U512;

use fox::dydx::constants::StarkConstants;
use fox::dydx::crypto::{
    convert_nonce, crop_data, encode_signature, order_fields, order_hash, order_hash_from_fields,
    pedersen_hash, try_pedersen_hash,
};
use fox::dydx::ec_math::ECMath;
use fox::dydx::signing::{ec_order_value, generate_k, sign, sign_internal};
use fox::dydx::{Markets, Position, Side};
use fox::uint::Uint512;

fn value(x: &Uint512) -> U512 {
    U512(x.to_limbs())
}

fn dec(s: &str) -> U512 {
    U512::from_dec_str(s).unwrap()
}

fn big(s: &str) -> Uint512 {
    Uint512::from_limbs(dec(s).0)
}

fn small(v: u64) -> Uint512 {
    Uint512::from_u64(v)
}

fn table() -> Vec<(Uint512, Uint512)> {
    let mut points = Vec::new();
    for i in 0u64..506 {
        points.push((small(i * i + 7), small(3 * i + 11)));
    }
    points
}

fn constants() -> StarkConstants {
    let mut ids = Vec::new();
    for i in 0u64..37 {
        ids.push(small(1000 + i));
    }
    StarkConstants {
        constant_points: table(),
        asset_ids: ids,
        usd_asset_id_mainnet: small(77),
        usd_asset_id_testnet: small(88),
        expiration_buffer_hours: 168,
    }
}

#[test]
fn cropping() {
    assert_eq!(value(&crop_data(small(0xff), 4)), dec("15"));
    assert_eq!(value(&crop_data(small(5), 8)), dec("5"));
    assert_eq!(value(&crop_data(small(0x1ff), 12)), dec("31"));
    assert_eq!(value(&crop_data(small(0), 4)), dec("0"));
}

#[test]
fn nonces() {
    assert_eq!(convert_nonce("123".to_string()), 4154620643);
    assert_eq!(convert_nonce("42".to_string()), 456818761);
}

#[test]
fn packed_order_fields() {
    let (p1, p2) = order_fields(small(1), small(2), 3, 4, 5, 6).unwrap();
    assert_eq!(value(&p1), dec("1461501637330902918362141157744811694855905345540"));
    assert_eq!(
        value(&p2),
        dec("10601082388670305978457594717498691631490793241808005264779468872180563968")
    );
}

#[test]
fn packed_order_fields_that_overflow() {
    let max = Uint512::max_value();
    assert!(order_fields(small(1), max, 0, 0, 0, 0).is_none());
    // the shift drops the high bits of the sell amount
    let high = Uint512::from_limbs([0, 0, 0, 0, 0, 0, 0, 1]);
    let (p1, _) = order_fields(high, small(0), 0, 0, 0, 0).unwrap();
    assert_eq!(value(&p1), dec("0"));
}

#[test]
fn pedersen_hashes() {
    let t = table();
    assert_eq!(
        value(&pedersen_hash((small(1), small(2)), &t)),
        dec("953072194368258242156810328581321311782017463419809065813422660451667519220")
    );
    assert_eq!(
        value(&pedersen_hash((small(0x1234567890abcdef), small(0xfedcba0987654321)), &t)),
        dec("2115873913678729782195438988361274046682466173358529377495572923366483580143")
    );
    assert_eq!(value(&pedersen_hash((small(0), small(0)), &t)), dec("7"));
}

#[test]
fn pedersen_hash_of_an_element_beyond_the_field() {
    let t = table();
    assert!(try_pedersen_hash((ECMath::field_prime_value(), small(1)), &t).is_none());
    assert!(try_pedersen_hash((small(1), ECMath::field_prime_value()), &t).is_none());
    // the same x coordinate twice: shift point (7, 11) plus a copy of itself
    let mut t = table();
    t[2] = (small(7), small(11));
    assert!(try_pedersen_hash((small(1), small(0)), &t).is_none());
}

#[test]
fn hash_chain_of_fields() {
    let t = table();
    let h = order_hash_from_fields(
        small(10),
        small(20),
        small(30),
        big("1461501637330902918362141157744811694855905345540"),
        big("10601082388670305978457594717498691631490793241808005264779468872180563968"),
        &t,
    )
    .unwrap();
    assert_eq!(value(&h), dec("1409686517624457955226787954141691460854279224625146317691503549755067518700"));
}

#[test]
fn order_hash_of_a_buy() {
    let c = constants();
    let position = Position::new("1500.5".to_string(), "0.01".to_string(), Side::BUY);
    let h = order_hash("42".to_string(), &position, Markets::ETH, 301, 1700000000, 12345, false, 0, &c).unwrap();
    assert_eq!(value(&h), dec("2568191072799594901823708415969175075414406525223907377186547503890008238503"));
}

#[test]
fn order_hash_of_a_sell() {
    let c = constants();
    let position = Position::new("25.25".to_string(), "2".to_string(), Side::SELL);
    let h = order_hash("7".to_string(), &position, Markets::SOL, 51, 1700000001, 99, true, 0, &c).unwrap();
    assert_eq!(value(&h), dec("268710318574910987749149957383737732248620469576616248567504551564977263445"));
}

#[test]
fn order_hash_of_invalid_amounts() {
    let c = constants();
    let position = Position::new("15x".to_string(), "0.01".to_string(), Side::BUY);
    assert!(order_hash("1".to_string(), &position, Markets::ETH, 1, 1, 1, false, 0, &c).is_none());
    // ETH has 9 decimals
    let position = Position::new("1500".to_string(), "0.0000000001".to_string(), Side::BUY);
    assert!(order_hash("1".to_string(), &position, Markets::ETH, 1, 1, 1, false, 0, &c).is_none());
}

#[test]
fn deterministic_k() {
    let k = generate_k(small(12345), small(67890)).unwrap();
    assert_eq!(value(&k), dec("1948727809932544722714841846884620756524216651271461277310283789698933706479"));
}

#[test]
fn signatures() {
    let t = table();
    let (r, s) = sign_internal(small(67890), small(12345), &t).unwrap();
    assert_eq!(value(&r), dec("3109874661937772250212989174803606924659148871447193691597721355353071004124"));
    assert_eq!(value(&s), dec("1862470221742448169486964850318509463397835011357714908804947297627010325943"));
    assert_eq!(
        sign(small(67890), small(12345), &t).unwrap(),
        "06e0206e3d4080fdbe0522c5d041e3e3293ca1d96c7a7bd60b4daa63a7b3a9dc041e1eec05040454976aa7b25a1ee8922ca2e79187d8bc64b1305fe8e2155db7"
    );
}

#[test]
fn signature_encoding() {
    let text = encode_signature(small(0xab), small(1));
    assert_eq!(text.len(), 128);
    assert_eq!(&text[..64], &format!("{:0>64}", "ab"));
    assert_eq!(&text[64..], &format!("{:0>64}", "1"));
    assert_eq!(encode_signature(small(0), small(0)), "0".repeat(128));
}

#[test]
fn curve_order() {
    assert_eq!(
        value(&ec_order_value()),
        U512::from_str_radix("0800000000000010ffffffffffffffffb781126dcae7b2321e66a241adc64d2f", 16).unwrap()
    );
}

#[test]
fn signature_answers_the_ecdsa_equation() {
    let t = table();
    let (r, s) = sign_internal(small(67890), small(12345), &t).unwrap();
    let k = generate_k(small(12345), small(67890)).unwrap();
    let n = value(&ec_order_value());
    assert!(value(&k) > U512::zero() && value(&k) < n);
    let lhs = (value(&s) * value(&k)) % n;
    let rhs = (U512::from(67890u64) + value(&r) * U512::from(12345u64)) % n;
    assert_eq!(lhs, rhs);
}

#[test]
fn hashes_are_field_elements() {
    let t = table();
    let p = value(&ECMath::field_prime_value());
    let h = pedersen_hash((small(1), small(2)), &t);
    assert!(value(&h) < p);
    // so a hash can be hashed again
    assert!(try_pedersen_hash((h, h), &t).is_some());
}
