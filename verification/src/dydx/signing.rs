//! STARK signatures of order hashes: the deterministic nonce of RFC 6979 and ECDSA
//! over the STARK curve.
use vstd::arithmetic::power2::{lemma2_to64, lemma_pow2_adds, pow2};
use vstd::prelude::*;

use crate::arith::{gcd, lemma_mod_inverse_unique, mod_inverse};
use crate::dydx::crypto::{
    concat_bytes, constant_points_valid, crop_data, crop_spec, encode_signature, hmac_sha256,
    hmac_sha256_tag, pad_hex64, points_view,
};
use crate::dydx::ec_math::{
    ec_mult_defined, ec_mult_spec, field_prime, modulus_bound, on_field, point_view, ECMath,
};
use crate::uint::{be_bytes, be_value, bit_length, lower_hex, uint512_bound, Uint512};

verus! {

/// The order of the STARK curve's generator.
pub open spec fn ec_order() -> nat {
    0x800_0000_0000_0010_ffff_ffff_ffff_ffff_b781_126d_cae7_b232_1e66_a241_adc6_4d2fnat
}

/// 2^251: the bound on the hash and on the parts of a signature.
pub open spec fn max_to_sign() -> nat {
    0x800_0000_0000_0000_0000_0000_0000_0000_0000_0000_0000_0000_0000_0000_0000_0000nat
}

/// The bit length of the curve order, to which hashes and candidates are cropped.
pub open spec fn order_len() -> nat {
    252
}

/// The message hash is taken times 16 when its bit length is at least 248 and
/// leaves 1 to 4 bits in its last byte.
pub open spec fn message_shifted(hash: nat) -> bool {
    let b = bit_length(hash);
    1 <= b % 8 <= 4 && b >= 248
}

pub open spec fn message_value(hash: nat) -> nat {
    if message_shifted(hash) {
        hash * 16
    } else {
        hash
    }
}

pub open spec fn filled(byte: u8, len: nat) -> Seq<u8> {
    Seq::new(len, |i: int| byte)
}

/// The low 32 of the 64 big-endian bytes of a number.
pub open spec fn low_32_bytes(n: nat) -> Seq<u8> {
    be_bytes(n, 64).skip(32)
}

/// The key and value of RFC 6979's generator after seeding it with the private
/// key and the cropped message hash.
pub open spec fn rfc6979_start(privkey: nat, hash: nat) -> (Seq<u8>, Seq<u8>) {
    let x = low_32_bytes(privkey);
    let h = low_32_bytes(crop_spec(message_value(hash), order_len()));
    let k1 = hmac_sha256(filled(0, 32), filled(1, 32) + seq![0u8] + x + h);
    let v1 = hmac_sha256(k1, filled(1, 32));
    let k2 = hmac_sha256(k1, v1 + seq![1u8] + x + h);
    let v2 = hmac_sha256(k2, v1);
    (k2, v2)
}

/// The generator after a rejected candidate: `t = HMAC_K(V)`, `K = HMAC_K(t || 0)`,
/// `V = HMAC_K(t)`.
pub open spec fn rfc6979_next(state: (Seq<u8>, Seq<u8>)) -> (Seq<u8>, Seq<u8>) {
    let t = hmac_sha256(state.0, state.1);
    let k = hmac_sha256(state.0, t + seq![0u8]);
    (k, hmac_sha256(k, t))
}

pub open spec fn rfc6979_state(start: (Seq<u8>, Seq<u8>), n: nat) -> (Seq<u8>, Seq<u8>)
    decreases n,
{
    if n == 0 {
        start
    } else {
        rfc6979_next(rfc6979_state(start, (n - 1) as nat))
    }
}

/// The candidate that a state offers: `HMAC_K(V)`, cropped to the order's bit length.
pub open spec fn rfc6979_candidate(state: (Seq<u8>, Seq<u8>)) -> nat {
    crop_spec(be_value(hmac_sha256(state.0, state.1)), order_len())
}

pub open spec fn valid_k(k: nat) -> bool {
    k != 0 && k < ec_order()
}

/// Round `n` offers the first valid candidate (counting fewer than 2^64 rounds).
pub open spec fn first_valid_round(start: (Seq<u8>, Seq<u8>), n: nat) -> bool {
    &&& n < u64::MAX
    &&& valid_k(rfc6979_candidate(rfc6979_state(start, n)))
    &&& forall|j: nat| j < n ==> !valid_k(#[trigger] rfc6979_candidate(rfc6979_state(start, j)))
}

/// The deterministic nonce: the first valid candidate, if one comes within 2^64 - 1 rounds.
pub open spec fn generate_k_result(privkey: nat, hash: nat) -> Option<nat> {
    let start = rfc6979_start(privkey, hash);
    if exists|n: nat| first_valid_round(start, n) {
        Some(
            rfc6979_candidate(rfc6979_state(start, choose|n: nat| first_valid_round(start, n))),
        )
    } else {
        None
    }
}

proof fn lemma_first_round_unique(start: (Seq<u8>, Seq<u8>), a: nat, b: nat)
    requires
        first_valid_round(start, a),
        first_valid_round(start, b),
    ensures
        a == b,
{
    if a < b {
        assert(!valid_k(rfc6979_candidate(rfc6979_state(start, a))));
    }
    if b < a {
        assert(!valid_k(rfc6979_candidate(rfc6979_state(start, b))));
    }
}

/// RFC 6979's generator (section 3.2, steps d to g, with HMAC-SHA256) seeded with
/// the 32-byte private key `x` and the 32-byte message `h`.
pub open spec fn rfc6979_seeded(x: Seq<u8>, h: Seq<u8>) -> (Seq<u8>, Seq<u8>) {
    let k1 = hmac_sha256(filled(0, 32), filled(1, 32) + seq![0u8] + x + h);
    let v1 = hmac_sha256(k1, filled(1, 32));
    let k2 = hmac_sha256(k1, v1 + seq![1u8] + x + h);
    (k2, hmac_sha256(k2, v1))
}

/// The last `k` of the `len` big-endian bytes of a number are its `k` big-endian
/// bytes.
proof fn lemma_be_bytes_tail(n: nat, len: nat, k: nat)
    requires
        k <= len,
    ensures
        be_bytes(n, len).skip(len - k) == be_bytes(n, k),
    decreases k,
{
    lemma_be_bytes_len(n, len);
    if k == 0 {
        assert(be_bytes(n, len).skip(len as int) =~= be_bytes(n, 0));
    } else {
        lemma_be_bytes_tail(n / 256, (len - 1) as nat, (k - 1) as nat);
        lemma_be_bytes_len(n / 256, (len - 1) as nat);
        let front = be_bytes(n / 256, (len - 1) as nat);
        assert(be_bytes(n, len) == front.push((n % 256) as u8));
        assert(front.push((n % 256) as u8).skip(len - k) =~= front.skip((len - 1) - (k - 1)).push(
            (n % 256) as u8,
        ));
    }
}

/// Doubling a positive number adds one bit.
proof fn lemma_bit_length_double(n: nat)
    requires
        n > 0,
    ensures
        bit_length(2 * n) == bit_length(n) + 1,
{
    assert((2 * n) / 2 == n);
}

/// A number is below 2 to the power of its bit length.
proof fn lemma_below_bit_length(n: nat)
    ensures
        n < pow2(bit_length(n)),
    decreases n,
{
    if n == 0 {
        lemma2_to64();
    } else {
        lemma_below_bit_length(n / 2);
        vstd::arithmetic::power2::lemma_pow2_unfold(bit_length(n));
    }
}

/// A hash below 2^251 survives the scaling by 16 and the cropping to the order's
/// 252 bits unchanged.
pub proof fn lemma_message_is_hash(hash: nat)
    requires
        hash < max_to_sign(),
    ensures
        crop_spec(message_value(hash), order_len()) == hash,
{
    lemma2_to64();
    lemma_pow2_adds(64, 64);
    lemma_pow2_adds(128, 64);
    lemma_pow2_adds(192, 59);
    lemma_pow2_adds(32, 27);
    assert(pow2(59) == 0x800_0000_0000_0000nat) by (nonlinear_arith)
        requires
            pow2(59) == pow2(32) * pow2(27),
            pow2(32) == 0x1_0000_0000nat,
            pow2(27) == 0x800_0000nat,
    ;
    assert(max_to_sign() == pow2(251)) by (nonlinear_arith)
        requires
            pow2(64) == 0x1_0000_0000_0000_0000nat,
            pow2(128) == pow2(64) * pow2(64),
            pow2(192) == pow2(128) * pow2(64),
            pow2(251) == pow2(192) * pow2(59),
            pow2(59) == 0x800_0000_0000_0000nat,
    ;
    crate::dydx::crypto::lemma_bit_length_bound(hash, 251);
    let b = bit_length(hash);
    if message_shifted(hash) {
        assert(hash > 0);
        lemma_bit_length_double(hash);
        lemma_bit_length_double(2 * hash);
        lemma_bit_length_double(4 * hash);
        lemma_bit_length_double(8 * hash);
        assert(bit_length(16 * hash) == b + 4);
        assert(message_value(hash) == 16 * hash);
        assert(crate::dydx::crypto::byte_bits(b + 4) == 256);
        assert(pow2(4) == 16);
        assert((16 * hash) / 16 == hash);
    } else {
        assert(b <= 248);
        assert(crate::dydx::crypto::byte_bits(b) <= 248);
    }
}

/// The generator is seeded with the private key and the order hash themselves:
/// for every hash below 2^251 its seed holds the 32 big-endian bytes of the key
/// and of the hash.
pub proof fn lemma_seed_holds_hash(privkey: nat, hash: nat)
    requires
        hash < max_to_sign(),
    ensures
        rfc6979_start(privkey, hash) == rfc6979_seeded(be_bytes(privkey, 32), be_bytes(hash, 32)),
{
    lemma_message_is_hash(hash);
    lemma_be_bytes_tail(privkey, 64, 32);
    lemma_be_bytes_tail(hash, 64, 32);
}

/// Every candidate of the generator is cropped to the order's 252 bits.
pub proof fn lemma_candidate_below_order_bits(state: (Seq<u8>, Seq<u8>))
    ensures
        rfc6979_candidate(state) < pow2(252),
{
    let d = be_value(hmac_sha256(state.0, state.1));
    let bl = bit_length(d);
    let b = crate::dydx::crypto::byte_bits(bl);
    lemma_below_bit_length(d);
    assert(b >= bl);
    if b > bl {
        vstd::arithmetic::power2::lemma_pow2_strictly_increases(bl, b);
    }
    if b > 252 {
        lemma_pow2_adds((b - 252) as nat, 252);
        vstd::arithmetic::power2::lemma_pow2_pos((b - 252) as nat);
        vstd::arithmetic::div_mod::lemma_multiply_divide_lt(
            d as int,
            pow2((b - 252) as nat) as int,
            pow2(252) as int,
        );
    } else if b < 252 {
        vstd::arithmetic::power2::lemma_pow2_strictly_increases(b, 252);
    }
}

/// `len` copies of one byte.
fn filled_bytes(byte: u8, len: usize) -> (r: Vec<u8>)
    ensures
        r@ == filled(byte, len as nat),
{
    let mut r: Vec<u8> = Vec::new();
    while r.len() < len
        invariant
            r.len() <= len,
            r@ == filled(byte, r.len() as nat),
        decreases len - r.len(),
    {
        r.push(byte);
        assert(r@ =~= filled(byte, r.len() as nat));
    }
    r
}

/// The order of the curve.
pub fn ec_order_value() -> (n: Uint512)
    ensures
        n@ == ec_order(),
{
    Uint512 {
        l0: 0x1e66_a241_adc6_4d2f,
        l1: 0xb781_126d_cae7_b232,
        l2: 0xffff_ffff_ffff_ffff,
        l3: 0x0800_0000_0000_0010,
        l4: 0,
        l5: 0,
        l6: 0,
        l7: 0,
    }
}

proof fn lemma_be_bytes_len(n: nat, len: nat)
    ensures
        be_bytes(n, len).len() == len,
    decreases len,
{
    if len > 0 {
        lemma_be_bytes_len(n / 256, (len - 1) as nat);
    }
}

/// The low 32 big-endian bytes of a number.
fn low_bytes(n: &Uint512) -> (r: Vec<u8>)
    ensures
        r@ == low_32_bytes(n@),
{
    let bytes = n.to_big_endian();
    proof {
        lemma_be_bytes_len(n@, 64);
    }
    vstd::slice::slice_to_vec(vstd::slice::slice_subrange(bytes.as_slice(), 32, 64))
}

/// The ephemeral scalar `k` of RFC 6979 for signing `hash` with `privkey`, with
/// HMAC-SHA256 and the curve order; `None` if no valid candidate comes in
/// 2^64 - 1 rounds.
pub fn generate_k(privkey: Uint512, hash: Uint512) -> (r: Option<Uint512>)
    requires
        message_shifted(hash@) ==> hash@ * 16 < uint512_bound(),
    ensures
        match r {
            Some(k) => generate_k_result(privkey@, hash@) == Some(k@),
            None => generate_k_result(privkey@, hash@) is None,
        },
        r matches Some(k) ==> 0 < k@ < ec_order(),
{
    let mut message_hash = hash;
    let hash_bits = hash.bits();
    if hash_bits % 8 >= 1 && hash_bits % 8 <= 4 && hash_bits >= 248 {
        message_hash = message_hash.times(&Uint512::from_u64(16));
    }
    let privkey_bytes = low_bytes(&privkey);
    let message_hmac = crop_data(message_hash, 252);
    let message_bytes = low_bytes(&message_hmac);

    let seed = filled_bytes(0, 32);
    let mut buffer = filled_bytes(1, 32);
    buffer.push(0);
    let key_material = concat_bytes(privkey_bytes.as_slice(), message_bytes.as_slice());
    let k = hmac_sha256_tag(seed.as_slice(), concat_bytes(buffer.as_slice(), key_material.as_slice()).as_slice());
    let ones = filled_bytes(1, 32);
    let v = hmac_sha256_tag(k.as_slice(), ones.as_slice());
    let mut v_2 = vstd::slice::slice_to_vec(v.as_slice());
    v_2.push(1);
    let k = hmac_sha256_tag(k.as_slice(), concat_bytes(v_2.as_slice(), key_material.as_slice()).as_slice());
    let v = hmac_sha256_tag(k.as_slice(), v.as_slice());
    let ghost start = rfc6979_start(privkey@, hash@);
    proof {
        let x = low_32_bytes(privkey@);
        let h = low_32_bytes(crop_spec(message_value(hash@), order_len()));
        assert(message_hash@ == message_value(hash@));
        assert(buffer@ =~= filled(1, 32) + seq![0u8]);
        assert(key_material@ == x + h);
        assert(filled(1, 32) + seq![0u8] + x + h =~= buffer@ + key_material@);
        let k1 = hmac_sha256(filled(0, 32), filled(1, 32) + seq![0u8] + x + h);
        let v1 = hmac_sha256(k1, filled(1, 32));
        assert(v1 + seq![1u8] + x + h =~= v_2@ + key_material@);
        assert((k@, v@) == start);
    }

    let order = ec_order_value();
    let zero = Uint512::zero();
    let mut k = k;
    let mut v = v;
    let mut round: u64 = 0;
    while round < u64::MAX
        invariant
            start == rfc6979_start(privkey@, hash@),
            (k@, v@) == rfc6979_state(start, round as nat),
            forall|j: nat| j < round ==> !valid_k(#[trigger] rfc6979_candidate(rfc6979_state(start, j))),
            order@ == ec_order(),
            zero@ == 0,
        decreases u64::MAX - round,
    {
        let ghost v_in = v@;
        let mut t: Vec<u8> = Vec::new();
        while t.len() < 32
            invariant
                t@.len() == 0 ==> v@ == v_in,
                t@.len() != 0 ==> t@.len() == 32 && t@ == hmac_sha256(k@, v_in) && v@ == t@,
            decreases 32 - t@.len(),
        {
            let v_1 = hmac_sha256_tag(k.as_slice(), v.as_slice());
            let mut copy = vstd::slice::slice_to_vec(v_1.as_slice());
            t.append(&mut copy);
            v = v_1;
        }
        let secret = crop_data(Uint512::from_big_endian(t.as_slice()), 252);
        assert(secret@ == rfc6979_candidate(rfc6979_state(start, round as nat)));
        if !secret.is_equal(&zero) && order.is_greater(&secret) {
            proof {
                assert(first_valid_round(start, round as nat));
                lemma_first_round_unique(start, round as nat, choose|n: nat| first_valid_round(start, n));
            }
            return Some(secret);
        }
        let mut v_temp = vstd::slice::slice_to_vec(v.as_slice());
        v_temp.push(0);
        k = hmac_sha256_tag(k.as_slice(), v_temp.as_slice());
        v = hmac_sha256_tag(k.as_slice(), v.as_slice());
        proof {
            assert(v_temp@ =~= hmac_sha256(rfc6979_state(start, round as nat).0, rfc6979_state(start, round as nat).1) + seq![0u8]);
            assert((k@, v@) == rfc6979_state(start, (round + 1) as nat));
            assert forall|j: nat| j < round + 1 implies !valid_k(#[trigger] rfc6979_candidate(rfc6979_state(start, j))) by {
                if j == round as nat {
                }
            }
        }
        round = round + 1;
    }
    proof {
        if exists|n: nat| first_valid_round(start, n) {
            let n = choose|n: nat| first_valid_round(start, n);
            assert(!valid_k(rfc6979_candidate(rfc6979_state(start, n))));
        }
    }
    None
}

/// The signature `(r, s)` of `hash` under `privkey`, with `k` from RFC 6979 and the
/// generator from the table of constant points: `r` is the x coordinate of
/// `k * G`, `w = k / (hash + r * privkey)` modulo the order, and `s = 1 / w`.
/// `None` where no signature comes out: where `k` is not found, where a step of
/// the scalar multiplication or an inverse is not defined, where the 512-bit
/// arithmetic would overflow, or where `r` or `w` is zero or above 2^251.
pub open spec fn sign_result(hash: nat, privkey: nat, table: Seq<(nat, nat)>) -> Option<(nat, nat)> {
    match generate_k_result(privkey, hash) {
        None => None,
        Some(k) => {
            let g = table[1];
            let n = ec_order();
            if !ec_mult_defined(k, g, 1) {
                None
            } else {
                let x = ec_mult_spec(k, g, 1).0;
                if x == 0 || x > max_to_sign() || hash + x * privkey >= uint512_bound() {
                    None
                } else {
                    let buffer = (hash + x * privkey) % n;
                    if buffer == 0 || gcd(buffer, n) != 1 {
                        None
                    } else {
                        let w = (k * mod_inverse(buffer, n)) % n;
                        if w == 0 || w > max_to_sign() || gcd(w, n) != 1 {
                            None
                        } else {
                            Some((x, mod_inverse(w, n)))
                        }
                    }
                }
            }
        },
    }
}

/// 2^251.
fn max_to_sign_value() -> (r: Uint512)
    ensures
        r@ == max_to_sign(),
{
    Uint512 { l0: 0, l1: 0, l2: 0, l3: 0x0800_0000_0000_0000, l4: 0, l5: 0, l6: 0, l7: 0 }
}

/// `v` is the inverse modulo the order that the modular inverse hands back.
proof fn lemma_inverse_found(b: nat, v: nat)
    requires
        1 <= b < ec_order(),
        b <= 1 ==> v == 1,
        b > 1 ==> v < ec_order() && (b * v) % ec_order() == 1nat % ec_order(),
    ensures
        v == mod_inverse(b, ec_order()),
        (b * v) % ec_order() == 1,
{
    let n = ec_order();
    vstd::arithmetic::div_mod::lemma_small_mod(1, n);
    if b == 1 {
        assert(b * v == 1);
    }
    lemma_mod_inverse_unique(b, v, n);
}

/// `s * k == b (mod n)` when `ib` inverts `b` and `s` inverts `k * ib`.
proof fn lemma_ecdsa_equation(b: nat, ib: nat, k: nat, s: nat, n: nat)
    requires
        n > 1,
        b < n,
        (b * ib) % n == 1,
        (((k * ib) % n) * s) % n == 1,
    ensures
        (s * k) % n == b,
{
    let (bi, ibi, ki, si, ni) = (b as int, ib as int, k as int, s as int, n as int);
    vstd::arithmetic::div_mod::lemma_mul_mod_noop_left(ki * ibi, si, ni);
    assert(((ki * ibi) * si) % ni == 1);
    let t = si * ki;
    vstd::arithmetic::div_mod::lemma_mul_mod_noop_right(t, bi * ibi, ni);
    assert((t * 1) % ni == (t * (bi * ibi)) % ni);
    assert(t * (bi * ibi) == bi * ((ki * ibi) * si)) by (nonlinear_arith)
        requires
            t == si * ki,
    ;
    vstd::arithmetic::div_mod::lemma_mul_mod_noop_right(bi, (ki * ibi) * si, ni);
    assert((bi * 1) % ni == bi) by {
        vstd::arithmetic::div_mod::lemma_small_mod(b, n);
    }
}

/// Signs an order hash: the internal computation of the signature `(r, s)`.
pub fn sign_internal(hash: Uint512, privkey: Uint512, constant_points: &[(Uint512, Uint512)]) -> (r:
    Option<(Uint512, Uint512)>)
    requires
        hash@ < max_to_sign(),
        constant_points_valid(points_view(constant_points@)),
    ensures
        match r {
            Some(v) => sign_result(hash@, privkey@, points_view(constant_points@)) == Some(
                (v.0@, v.1@),
            ),
            None => sign_result(hash@, privkey@, points_view(constant_points@)) is None,
        },
        r matches Some(v) ==> v.0@ <= max_to_sign() && v.1@ < ec_order(),
        r matches Some(v) ==> (v.1@ * generate_k_result(privkey@, hash@)->0) % ec_order() == (
        hash@ + v.0@ * privkey@) % ec_order(),
{
    let ghost table = points_view(constant_points@);
    proof {
        crate::uint::lemma_uint512_bound(hash);
        assert(hash@ * 16 < uint512_bound()) by (nonlinear_arith)
            requires
                hash@ < max_to_sign(),
        ;
    }
    let k = match generate_k(privkey, hash) {
        Some(k) => k,
        None => {
            return None;
        },
    };
    let generator = constant_points[1];
    proof {
        assert(table[1] == point_view(generator));
        assert(on_field(table[1]));
        assert(1 + field_prime() < uint512_bound());
    }
    let alpha = Uint512::one();
    let point = match ECMath::try_ec_mult(k, generator, alpha) {
        Some(point) => point,
        None => {
            return None;
        },
    };
    let x = point.0;
    let zero = Uint512::zero();
    let max_sign = max_to_sign_value();
    if x.is_equal(&zero) || x.is_greater(&max_sign) {
        return None;
    }
    let max = Uint512::max_value();
    let limit = max.quotient(&x);
    proof {
        crate::arith::lemma_product_fits(x@, privkey@, max@);
    }
    if privkey.is_greater(&limit) {
        return None;
    }
    let product = x.times(&privkey);
    let room = max.minus(&product);
    if hash.is_greater(&room) {
        return None;
    }
    let order = ec_order_value();
    let buffer = hash.plus(&product).remainder(&order);
    if buffer.is_equal(&zero) {
        return None;
    }
    proof {
        assert(order@ < modulus_bound());
    }
    let inverse = match ECMath::try_modinv(buffer, order) {
        Some(inverse) => inverse,
        None => {
            return None;
        },
    };
    proof {
        lemma_inverse_found(buffer@, inverse@);
        if buffer@ < 2 {
            crate::dydx::ec_math::lemma_gcd_one(order@);
        }
        assert(k@ * inverse@ < uint512_bound()) by (nonlinear_arith)
            requires
                k@ < ec_order(),
                inverse@ < ec_order(),
        ;
    }
    let w = k.times(&inverse).remainder(&order);
    if w.is_equal(&zero) || w.is_greater(&max_sign) {
        return None;
    }
    let s = match ECMath::try_modinv(w, order) {
        Some(s) => s,
        None => {
            return None;
        },
    };
    proof {
        lemma_inverse_found(w@, s@);
        if w@ < 2 {
            crate::dydx::ec_math::lemma_gcd_one(order@);
        }
        assert(w@ * s@ == s@ * w@) by (nonlinear_arith);
        lemma_ecdsa_equation(buffer@, inverse@, k@, s@, order@);
    }
    Some((x, s))
}

/// A number below `2^(4k)` has at most `k` hexadecimal digits.
proof fn lemma_hex_digits_len(n: nat, k: nat)
    requires
        n < pow2(4 * k),
    ensures
        crate::uint::hex_digits(n).len() <= k,
    decreases k,
{
    if n > 0 {
        if k == 0 {
            lemma2_to64();
        } else {
            lemma2_to64();
            lemma_pow2_adds((4 * (k - 1)) as nat, 4);
            assert(4 * (k - 1) + 4 == 4 * k);
            assert(n / 16 < pow2((4 * (k - 1)) as nat)) by (nonlinear_arith)
                requires
                    n < pow2((4 * (k - 1)) as nat) * 16,
            ;
            lemma_hex_digits_len(n / 16, (k - 1) as nat);
        }
    }
}

/// Parts of a signature, being below 2^252, have at most 64 hexadecimal digits.
proof fn lemma_lower_hex_len(n: nat)
    requires
        n < ec_order(),
    ensures
        lower_hex(n).len() <= 64,
{
    lemma2_to64();
    lemma_pow2_adds(64, 64);
    lemma_pow2_adds(128, 128);
    assert(pow2(256) == 0x1_0000_0000_0000_0000_0000_0000_0000_0000_0000_0000_0000_0000_0000_0000_0000_0000nat) by (nonlinear_arith)
        requires
            pow2(64) == 0x1_0000_0000_0000_0000nat,
            pow2(128) == pow2(64) * pow2(64),
            pow2(256) == pow2(128) * pow2(128),
    ;
    if n > 0 {
        lemma_hex_digits_len(n, 64);
    }
}

/// Signs an order hash with the STARK private key: the signature as 128 lower case
/// hexadecimal digits, `r` then `s`, each written with 64 digits.
pub fn sign(hash: Uint512, privkey: Uint512, constant_points: &[(Uint512, Uint512)]) -> (r: Option<
    String,
>)
    requires
        hash@ < max_to_sign(),
        constant_points_valid(points_view(constant_points@)),
    ensures
        match sign_result(hash@, privkey@, points_view(constant_points@)) {
            Some(v) => r matches Some(text) && text@ == pad_hex64(lower_hex(v.0)) + pad_hex64(
                lower_hex(v.1),
            ),
            None => r is None,
        },
        r matches Some(text) ==> text@.len() == 128,
{
    match sign_internal(hash, privkey, constant_points) {
        Some((r, s)) => {
            proof {
                lemma_lower_hex_len(r@);
                lemma_lower_hex_len(s@);
            }
            Some(encode_signature(r, s))
        },
        None => None,
    }
}

} // verus!
