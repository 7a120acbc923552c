use primitive_types::U512;

use fox::dydx::ec_math::ECMath;
use fox::uint::Uint512;

fn value(x: &Uint512) -> U512 {
    U512(x.to_limbs())
}

fn dec(s: &str) -> U512 {
    U512::from_dec_str(s).unwrap()
}

fn big(s: &str) -> Uint512 {
    Uint512::from_limbs(dec(s).0)
}

fn small(v: u64) -> Uint512 {
    Uint512::from_u64(v)
}

fn prime() -> Uint512 {
    ECMath::field_prime_value()
}

#[test]
fn field_prime() {
    let p = U512::from(2u64).pow(U512::from(251u64)) + U512::from(17u64) * U512::from(2u64).pow(U512::from(192u64)) + U512::from(1u64);
    assert_eq!(value(&prime()), p);
}

#[test]
fn modular_inverses() {
    assert_eq!(value(&ECMath::modinv(small(3), small(7))), dec("5"));
    assert_eq!(value(&ECMath::modinv(small(1), small(7))), dec("1"));
    assert_eq!(value(&ECMath::modinv(small(0), small(7))), dec("1"));
    assert_eq!(
        value(&ECMath::modinv(small(123456789), prime())),
        dec("748039188915194100592695800186501199849336153775024453408915910144897576001")
    );
}

#[test]
fn modular_inverse_that_does_not_exist() {
    assert!(ECMath::try_modinv(small(6), small(9)).is_none());
    assert!(ECMath::try_modinv(prime(), prime()).is_none());
    assert_eq!(value(&ECMath::try_modinv(small(5), small(1)).unwrap()), dec("0"));
    assert_eq!(value(&ECMath::try_modinv(small(4), small(9)).unwrap()), dec("7"));
}

#[test]
fn modular_subtraction() {
    assert_eq!(value(&ECMath::mod_sub(small(5), small(3), small(7))), dec("2"));
    assert_eq!(value(&ECMath::mod_sub(small(3), small(5), small(7))), dec("5"));
    // equal operands borrow the whole modulus
    assert_eq!(value(&ECMath::mod_sub(small(4), small(4), small(7))), dec("7"));
}

#[test]
fn point_addition() {
    let r = ECMath::ec_add((small(1), small(2)), (small(3), small(5)));
    assert_eq!(value(&r.0), dec("2713877091499598410272992087321302579217330411498697524979819042101904015359"));
    assert_eq!(value(&r.1), dec("3166189940082864811985157435208186342420218813415147112476455549118888017923"));
    // the same x coordinate has no chord
    assert!(ECMath::try_ec_add((small(1), small(2)), (small(1), small(5))).is_none());
}

#[test]
fn point_doubling() {
    let r = ECMath::ec_double((small(5), small(7)), small(1));
    assert_eq!(value(&r.0), dec("369234978435319511601767630928068378124806858707305785711540005728150206191"));
    assert_eq!(value(&r.1), dec("3164871243731310099443722550812014669641201646062621020384628620527001767099"));
    let d = ECMath::ec_double((small(1), small(2)), small(1));
    assert_eq!(value(&d.1), dec("0"));
    // a point with y = 0 has no tangent
    assert!(ECMath::try_ec_double(d, small(1)).is_none());
}

#[test]
fn scalar_multiplication() {
    let r = ECMath::ec_mult(small(10), (small(5), small(7)), small(1));
    assert_eq!(value(&r.0), dec("397255488218391193127862098578341542345805345709940241470339804066350086932"));
    assert_eq!(value(&r.1), dec("275003129384956427241490737156009992747728015739617548987031804680121907549"));
    let r = ECMath::ec_mult(small(5), (small(5), small(7)), small(1));
    assert_eq!(value(&r.0), dec("2462651242190161464377720365606178115988595059619040841068314188825804659152"));
    let one = ECMath::ec_mult(small(1), (small(5), small(7)), small(1));
    assert_eq!(value(&one.0), dec("5"));
    let r = ECMath::try_ec_mult(small(3), (small(1), small(2)), small(1)).unwrap();
    assert_eq!(value(&r.0), dec("1"));
    assert_eq!(value(&r.1), dec("3618502788666131213697322783095070105623107215331596699973092056135872020479"));
    // doubling twice meets y = 0
    assert!(ECMath::try_ec_mult(small(4), (small(1), small(2)), small(1)).is_none());
    assert!(ECMath::try_ec_mult(small(0), (small(5), small(7)), small(1)).is_none());
    let _ = big("1");
}

#[test]
fn modular_inverse_beyond_256_bits() {
    // 2 modulo 2^300 + 1: every product of the algorithm fits 512 bits
    let m = U512::from(2u64).pow(U512::from(300u64)) + U512::from(1u64);
    let inv = ECMath::try_modinv(small(2), Uint512::from_limbs(m.0)).unwrap();
    assert_eq!(value(&inv), dec("1018517988167243043134222844204689080525734196832968125318070224677190649881668353091698689"));
    assert_eq!(value(&ECMath::modinv(small(2), Uint512::from_limbs(m.0))), value(&inv));
    // 2 modulo 2^512 - 1: the last step would form 2 * 2^511, which does not fit
    assert!(ECMath::try_modinv(small(2), Uint512::max_value()).is_none());
}
