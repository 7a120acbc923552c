//! Order hashes: nonces, the Pedersen hash over the STARK curve, and the packing of
//! an order's fields into field elements.
use hmac::{Hmac, Mac};
use sha2::{Digest, Sha256};
use vstd::arithmetic::power2::{lemma2_to64, lemma_pow2_adds, lemma_pow2_unfold, pow2};
use vstd::prelude::*;
use vstd::utf8::encode_utf8;

use crate::dydx::ec_math::{
    ec_add_defined, ec_add_spec, field_prime, on_field, point_view, ECMath,
};
use crate::dydx::amounts::{
    order_usd_amount, quantum_amount_valid, quantum_value, try_quantum_amount, usd_amount_result,
    zeros,
};
use crate::dydx::constants::StarkConstants;
use crate::dydx::{Markets, Position, Side};
use crate::uint::{be_value, bit_and, bit_length, lower_hex, uint512_bound, Uint512};

verus! {

/// The SHA-256 digest of some bytes.
pub uninterp spec fn sha256_digest(data: Seq<u8>) -> Seq<u8>;

/// The SHA-256 digest, through `<Sha256 as Digest>::digest`; a digest has 32 bytes.
#[verifier::external_body]
fn sha256(data: &[u8]) -> (r: Vec<u8>)
    ensures
        r@ == sha256_digest(data@),
        r@.len() == 32,
{
    Sha256::digest(data).to_vec()
}

/// The HMAC-SHA256 tag of some bytes under a key.
pub uninterp spec fn hmac_sha256(key: Seq<u8>, data: Seq<u8>) -> Seq<u8>;

/// The HMAC-SHA256 tag, through `Hmac::<Sha256>::new_from_slice`, `Mac::update` and
/// `Mac::finalize` (HMAC takes keys of any length); a tag has 32 bytes.
#[verifier::external_body]
pub(crate) fn hmac_sha256_tag(key: &[u8], data: &[u8]) -> (r: Vec<u8>)
    ensures
        r@ == hmac_sha256(key@, data@),
        r@.len() == 32,
{
    let mut mac = Hmac::<Sha256>::new_from_slice(key).unwrap();
    mac.update(data);
    mac.finalize().into_bytes().to_vec()
}

/// The bytes of `a` followed by those of `b`.
pub fn concat_bytes(a: &[u8], b: &[u8]) -> (r: Vec<u8>)
    ensures
        r@ == a@ + b@,
{
    let mut r = vstd::slice::slice_to_vec(a);
    let mut tail = vstd::slice::slice_to_vec(b);
    r.append(&mut tail);
    r
}

/// 2^32: the nonce of an order is a 32-bit field.
pub open spec fn nonce_bound() -> nat {
    0x1_0000_0000
}

/// The nonce of an order with the given client id: the SHA-256 digest of the id's
/// UTF-8 bytes, read as a big-endian number, modulo 2^32.
pub open spec fn nonce_spec(client_id: Seq<char>) -> nat {
    be_value(sha256_digest(encode_utf8(client_id))) % nonce_bound()
}

/// 2^512 is 2^64 to the eighth.
proof fn lemma_pow2_512()
    ensures
        pow2(512) == uint512_bound(),
{
    lemma2_to64();
    lemma_pow2_adds(64, 64);
    lemma_pow2_adds(128, 128);
    lemma_pow2_adds(256, 256);
    assert(pow2(128) == 0x1_0000_0000_0000_0000_0000_0000_0000_0000nat);
    assert(pow2(512) == uint512_bound()) by (nonlinear_arith)
        requires
            pow2(128) == 0x1_0000_0000_0000_0000_0000_0000_0000_0000nat,
            pow2(256) == pow2(128) * pow2(128),
            pow2(512) == pow2(256) * pow2(256),
    ;
}

/// A number below `2^k` has at most `k` bits.
pub proof fn lemma_bit_length_bound(n: nat, k: nat)
    requires
        n < pow2(k),
    ensures
        bit_length(n) <= k,
    decreases k,
{
    if n > 0 {
        if k == 0 {
            lemma2_to64();
        } else {
            lemma_pow2_unfold(k);
            lemma_bit_length_bound(n / 2, (k - 1) as nat);
        }
    }
}

/// A number of a `Uint512` has at most 512 bits.
proof fn lemma_bits_of_uint512(a: Uint512)
    ensures
        bit_length(a@) <= 512,
{
    crate::uint::lemma_uint512_bound(a);
    lemma_pow2_512();
    lemma_bit_length_bound(a@, 512);
}

/// `bit_length` rounded up to whole bytes.
pub open spec fn byte_bits(b: nat) -> nat {
    if b % 8 == 0 {
        b
    } else {
        (b + (8 - b % 8)) as nat
    }
}

/// The number cropped to its leading `len` bits, counted from a whole number of bytes.
pub open spec fn crop_spec(data: nat, len: nat) -> nat {
    let b = byte_bits(bit_length(data));
    if b > len {
        data / pow2((b - len) as nat)
    } else {
        data
    }
}

/// Keeps the leading `len` bits of `data`, where `data` is taken to fill whole bytes.
pub fn crop_data(data: Uint512, len: usize) -> (r: Uint512)
    ensures
        r@ == crop_spec(data@, len as nat),
{
    let mut data_bits = data.bits();
    proof {
        lemma_bits_of_uint512(data);
    }
    let ghost target = byte_bits(data_bits as nat);
    while data_bits % 8 != 0
        invariant
            bit_length(data@) <= data_bits <= target,
            target == byte_bits(bit_length(data@)),
            bit_length(data@) <= 512,
        decreases target - data_bits,
    {
        data_bits = data_bits + 1;
    }
    if data_bits > len {
        data.shr(data_bits - len)
    } else {
        data
    }
}

/// The nonce of an order: the SHA-256 digest of the client id, modulo 2^32.
pub fn convert_nonce(client_id: String) -> (r: u128)
    ensures
        r == nonce_spec(client_id@),
        r < nonce_bound(),
{
    let hash = sha256(client_id.as_str().as_bytes());
    let modulus = Uint512::from_u64(0x1_0000_0000);
    let reduced = Uint512::from_big_endian(hash.as_slice()).remainder(&modulus);
    proof {
        assert(reduced@ < 0x1_0000_0000);
        crate::uint::lemma_small_value(reduced);
    }
    reduced.l0 as u128
}

/// `a * 2^k + b` through a shift and an addition that neither drop nor overflow.
fn shift_add(a: &Uint512, k: usize, b: &Uint512) -> (r: Uint512)
    requires
        a@ * pow2(k as nat) + b@ < uint512_bound(),
    ensures
        r@ == a@ * pow2(k as nat) + b@,
{
    let shifted = a.shl(k);
    proof {
        vstd::arithmetic::div_mod::lemma_small_mod(a@ * pow2(k as nat), uint512_bound());
    }
    shifted.plus(b)
}

/// 2^96 and 2^160, the weights of the buy and sell amounts in the first field.
pub open spec fn order_part_1_spec(qa_sell: nat, qa_buy: nat, qa_fee: nat, nonce: nat) -> nat {
    qa_sell * 0x1_0000_0000_0000_0000_0000_0000_0000_0000_0000_0000 + qa_buy
        * 0x1_0000_0000_0000_0000_0000_0000 + qa_fee * 0x1_0000_0000 + nonce
}

/// The order type prefix (3, a limit order with fees), the position id three
/// times, and the expiration in hours, followed by 17 bits of padding.
pub open spec fn order_part_2_spec(position_id: nat, expiration_hours: nat) -> nat {
    ((3 * 0x1_0000_0000_0000_0000_0000_0000_0000_0000_0000_0000_0000_0000 + position_id * (
    0x1_0000_0000_0000_0000_0000_0000_0000_0000 + 0x1_0000_0000_0000_0000 + 1)) * 0x1_0000_0000
        + expiration_hours) * 0x2_0000
}

/// 2^256: the bound on the amounts of an order.
pub open spec fn amount_bound() -> nat {
    0x1_0000_0000_0000_0000_0000_0000_0000_0000_0000_0000_0000_0000_0000_0000_0000_0000nat
}

proof fn lemma_expand_part_1(s: int, b: int, f: int, n: int, w: int, t: int)
    by (nonlinear_arith)
    ensures
        ((s * w + b) * w + f) * t + n == s * (w * w * t) + b * (w * t) + f * t + n,
{
}

proof fn lemma_expand_part_2(q: int, e: int, w: int, t: int, p: int)
    by (nonlinear_arith)
    ensures
        ((((3 * w + q) * w + q) * w + q) * t + e) * p == ((3 * (w * w * w) + q * (w * w + w + 1))
            * t + e) * p,
{
}

/// `x < a` and `y < c` give `x * c + y < (a + 1) * c`.
proof fn lemma_shift_bound(x: int, a: int, c: int, y: int)
    by (nonlinear_arith)
    requires
        0 <= x < a,
        0 <= y < c,
    ensures
        x * c + y < (a + 1) * c,
{
}

proof fn lemma_part_1(s: nat, b: nat, f: nat, n: nat)
    requires
        s < amount_bound(),
        b < amount_bound(),
        f < 0x1_0000_0000_0000_0000nat,
        n < 0x1_0000_0000_0000_0000_0000_0000_0000_0000nat,
    ensures
        s * 0x1_0000_0000_0000_0000nat + b < uint512_bound(),
        (s * 0x1_0000_0000_0000_0000nat + b) * 0x1_0000_0000_0000_0000nat + f < uint512_bound(),
        ((s * 0x1_0000_0000_0000_0000nat + b) * 0x1_0000_0000_0000_0000nat + f) * 0x1_0000_0000nat
            + n < uint512_bound(),
        ((s * 0x1_0000_0000_0000_0000nat + b) * 0x1_0000_0000_0000_0000nat + f) * 0x1_0000_0000nat
            + n == order_part_1_spec(s, b, f, n),
{
    let w: int = 0x1_0000_0000_0000_0000;
    let t: int = 0x1_0000_0000;
    let p: int = 0x2_0000;
    let a: int = amount_bound() as int;
    lemma_expand_part_1(s as int, b as int, f as int, n as int, w, t);
    assert(w * w * t == 0x1_0000_0000_0000_0000_0000_0000_0000_0000_0000_0000) by (nonlinear_arith)
        requires
            w == 0x1_0000_0000_0000_0000int,
            t == 0x1_0000_0000int,
            p == 0x2_0000int,
            a == amount_bound(),
    ;
    assert(w * t == 0x1_0000_0000_0000_0000_0000_0000);
    // s * w + b < a * w (b < a <= w * ... is not below w, so bound by a * w + a)
    let v1 = s * w + b;
    assert(v1 < (a + 1) * w + a) by {
        lemma_shift_bound(s as int, a, w, 0);
    }
    let v2 = v1 * w + f;
    lemma_shift_bound(v1, (a + 1) * w + a, w, f as int);
    let v3 = v2 * t + n;
    assert(v3 < (((a + 1) * w + a + 1) * w + 1) * t + w * w);
    lemma_shift_bound(v2, ((a + 1) * w + a + 1) * w, t, 0);
    assert((((a + 1) * w + a + 1) * w + 1) * t + w * w < uint512_bound()) by (nonlinear_arith)
        requires
            w == 0x1_0000_0000_0000_0000int,
            t == 0x1_0000_0000int,
            p == 0x2_0000int,
            a == amount_bound(),
    ;
}

proof fn lemma_part_2(q: nat, e: nat)
    requires
        q < 0x1_0000_0000_0000_0000nat,
        e < 0x1_0000_0000_0000_0000_0000_0000_0000_0000nat,
    ensures
        3 * 0x1_0000_0000_0000_0000nat + q < uint512_bound(),
        (3 * 0x1_0000_0000_0000_0000nat + q) * 0x1_0000_0000_0000_0000nat + q < uint512_bound(),
        ((3 * 0x1_0000_0000_0000_0000nat + q) * 0x1_0000_0000_0000_0000nat + q)
            * 0x1_0000_0000_0000_0000nat + q < uint512_bound(),
        (((3 * 0x1_0000_0000_0000_0000nat + q) * 0x1_0000_0000_0000_0000nat + q)
            * 0x1_0000_0000_0000_0000nat + q) * 0x1_0000_0000nat + e < uint512_bound(),
        ((((3 * 0x1_0000_0000_0000_0000nat + q) * 0x1_0000_0000_0000_0000nat + q)
            * 0x1_0000_0000_0000_0000nat + q) * 0x1_0000_0000nat + e) * 0x2_0000nat
            < uint512_bound(),
        ((((3 * 0x1_0000_0000_0000_0000nat + q) * 0x1_0000_0000_0000_0000nat + q)
            * 0x1_0000_0000_0000_0000nat + q) * 0x1_0000_0000nat + e) * 0x2_0000nat
            == order_part_2_spec(q, e),
{
    let w: int = 0x1_0000_0000_0000_0000;
    let t: int = 0x1_0000_0000;
    let p: int = 0x2_0000;
    let a: int = amount_bound() as int;
    lemma_expand_part_2(q as int, e as int, w, t, p);
    assert(w * w * w == 0x1_0000_0000_0000_0000_0000_0000_0000_0000_0000_0000_0000_0000) by (nonlinear_arith)
        requires
            w == 0x1_0000_0000_0000_0000int,
            t == 0x1_0000_0000int,
            p == 0x2_0000int,
            a == amount_bound(),
    ;
    assert(w * w == 0x1_0000_0000_0000_0000_0000_0000_0000_0000) by (nonlinear_arith)
        requires
            w == 0x1_0000_0000_0000_0000int,
            t == 0x1_0000_0000int,
            p == 0x2_0000int,
            a == amount_bound(),
    ;
    let v1 = 3 * w + q;
    lemma_shift_bound(3, 4, w, q as int);
    let v2 = v1 * w + q;
    lemma_shift_bound(v1, 4 * w, w, q as int);
    let v3 = v2 * w + q;
    lemma_shift_bound(v2, (4 * w + 1) * w, w, q as int);
    let v4 = v3 * t + e;
    assert(v4 < (((4 * w + 1) * w + 1) * w + 1) * t + w * w) by {
        lemma_shift_bound(v3, ((4 * w + 1) * w + 1) * w, t, 0);
    }
    let v5 = v4 * p;
    assert(v5 < ((((4 * w + 1) * w + 1) * w + 1) * t + w * w) * p) by {
        lemma_shift_bound(v4, (((4 * w + 1) * w + 1) * w + 1) * t + w * w - 1, p, 0);
    }
    assert(((((4 * w + 1) * w + 1) * w + 1) * t + w * w) * p < uint512_bound()) by (nonlinear_arith)
        requires
            w == 0x1_0000_0000_0000_0000int,
            t == 0x1_0000_0000int,
            p == 0x2_0000int,
            a == amount_bound(),
    ;
}

/// `a << k` on 512 bits: the bits beyond 512 are dropped.
pub open spec fn shl512(a: nat, k: nat) -> nat {
    (a * pow2(k)) % uint512_bound()
}

/// The first field element as the 512-bit shifts and additions build it: the sell
/// amount, shifted by 64 bits, plus the buy amount, shifted by 64 bits, plus the
/// fee, shifted by 32 bits, plus the nonce; `None` where an addition overflows.
pub open spec fn packed_part_1(qa_sell: nat, qa_buy: nat, qa_fee: nat, nonce: nat) -> Option<nat> {
    let a1 = shl512(qa_sell, 64) + qa_buy;
    let a2 = shl512(a1, 64) + qa_fee;
    let a3 = shl512(a2, 32) + nonce;
    if a1 >= uint512_bound() || a2 >= uint512_bound() || a3 >= uint512_bound() {
        None
    } else {
        Some(a3)
    }
}

/// Amounts below 2^256 are packed without dropping bits or overflowing.
pub proof fn lemma_packed_part_1(qa_sell: nat, qa_buy: nat, qa_fee: nat, nonce: nat)
    requires
        qa_sell < amount_bound(),
        qa_buy < amount_bound(),
        qa_fee < 0x1_0000_0000_0000_0000nat,
        nonce < 0x1_0000_0000_0000_0000_0000_0000_0000_0000nat,
    ensures
        packed_part_1(qa_sell, qa_buy, qa_fee, nonce) == Some(
            order_part_1_spec(qa_sell, qa_buy, qa_fee, nonce),
        ),
{
    lemma2_to64();
    lemma_part_1(qa_sell, qa_buy, qa_fee, nonce);
    let w = 0x1_0000_0000_0000_0000nat;
    let a1 = qa_sell * w + qa_buy;
    let a2 = a1 * w + qa_fee;
    vstd::arithmetic::div_mod::lemma_small_mod(qa_sell * w, uint512_bound());
    vstd::arithmetic::div_mod::lemma_small_mod(a1 * w, uint512_bound());
    vstd::arithmetic::div_mod::lemma_small_mod(a2 * 0x1_0000_0000nat, uint512_bound());
}

/// `shl512(a, k) + b`, where it fits 512 bits.
fn shift_add_checked(a: &Uint512, k: usize, b: &Uint512) -> (r: Option<Uint512>)
    ensures
        r is None <==> shl512(a@, k as nat) + b@ >= uint512_bound(),
        r matches Some(v) ==> v@ == shl512(a@, k as nat) + b@,
{
    let shifted = a.shl(k);
    let room = Uint512::max_value().minus(&shifted);
    if b.is_greater(&room) {
        None
    } else {
        Some(shifted.plus(b))
    }
}

/// The first field element of an order: the sell, buy and fee amounts and the nonce.
fn order_part_1(qa_sell: &Uint512, qa_buy: &Uint512, qa_fee: u64, nonce: u128) -> (r: Option<Uint512>)
    ensures
        match packed_part_1(qa_sell@, qa_buy@, qa_fee as nat, nonce as nat) {
            Some(v) => r matches Some(p) && p@ == v,
            None => r is None,
        },
{
    let fee = Uint512::from_u64(qa_fee);
    let nonce_value = Uint512::from_u128(nonce);
    let part_1 = match shift_add_checked(qa_sell, 64, qa_buy) {
        Some(p) => p,
        None => {
            return None;
        },
    };
    let part_1 = match shift_add_checked(&part_1, 64, &fee) {
        Some(p) => p,
        None => {
            return None;
        },
    };
    shift_add_checked(&part_1, 32, &nonce_value)
}

/// The second field element of an order: prefix, position id and expiration.
fn order_part_2(position_id: u64, expiration_hours: u128) -> (r: Uint512)
    ensures
        r@ == order_part_2_spec(position_id as nat, expiration_hours as nat),
{
    proof {
        lemma2_to64();
        lemma_pow2_adds(1, 16);
        lemma_part_2(position_id as nat, expiration_hours as nat);
    }
    let position = Uint512::from_u64(position_id);
    let expiration = Uint512::from_u128(expiration_hours);
    let part_2 = Uint512::from_u64(3);
    let part_2 = shift_add(&part_2, 64, &position);
    let part_2 = shift_add(&part_2, 64, &position);
    let part_2 = shift_add(&part_2, 64, &position);
    let part_2 = shift_add(&part_2, 32, &expiration);
    shift_add(&part_2, 17, &Uint512::zero())
}

/// Packs the amounts and the nonce of an order, and its position id and expiration,
/// into the two field elements that the order hash covers; `None` where packing
/// the first overflows 512 bits.
pub fn order_fields(
    qa_sell: Uint512,
    qa_buy: Uint512,
    qa_fee: u64,
    nonce: u128,
    position_id: u64,
    expiration_hours: u128,
) -> (r: Option<(Uint512, Uint512)>)
    ensures
        match packed_part_1(qa_sell@, qa_buy@, qa_fee as nat, nonce as nat) {
            Some(v) => r matches Some(f) && f.0@ == v && f.1@ == order_part_2_spec(
                position_id as nat,
                expiration_hours as nat,
            ),
            None => r is None,
        },
        qa_sell@ < amount_bound() && qa_buy@ < amount_bound() ==> (r matches Some(f) && f.0@
            == order_part_1_spec(qa_sell@, qa_buy@, qa_fee as nat, nonce as nat)),
{
    proof {
        if qa_sell@ < amount_bound() && qa_buy@ < amount_bound() {
            lemma_packed_part_1(qa_sell@, qa_buy@, qa_fee as nat, nonce as nat);
        }
    }
    match order_part_1(&qa_sell, &qa_buy, qa_fee, nonce) {
        Some(part_1) => Some((part_1, order_part_2(position_id, expiration_hours))),
        None => None,
    }
}

/// How many points of the table each of the two hashed elements uses.
pub open spec fn hash_bits() -> nat {
    252
}

/// The affine coordinates of a table of points.
pub open spec fn points_view(pts: Seq<(Uint512, Uint512)>) -> Seq<(nat, nat)> {
    pts.map_values(|p: (Uint512, Uint512)| point_view(p))
}

/// `acc` plus the points of `pts` picked by the bits of `x`, lowest bit first.
pub open spec fn bits_sum(acc: (nat, nat), x: nat, pts: Seq<(nat, nat)>) -> (nat, nat)
    decreases pts.len(),
{
    if pts.len() == 0 {
        acc
    } else {
        let next = if x % 2 == 1 {
            ec_add_spec(acc, pts[0])
        } else {
            acc
        };
        bits_sum(next, x / 2, pts.drop_first())
    }
}

/// Every addition that `bits_sum` performs is defined.
pub open spec fn bits_sum_defined(acc: (nat, nat), x: nat, pts: Seq<(nat, nat)>) -> bool
    decreases pts.len(),
{
    if pts.len() == 0 {
        true
    } else {
        let next = if x % 2 == 1 {
            ec_add_spec(acc, pts[0])
        } else {
            acc
        };
        (x % 2 == 1 ==> ec_add_defined(acc, pts[0])) && bits_sum_defined(
            next,
            x / 2,
            pts.drop_first(),
        )
    }
}

/// The table of constant points: a shift point, the generator, then the points for
/// the bits of the first and of the second hashed element; all are field residues.
pub open spec fn constant_points_valid(table: Seq<(nat, nat)>) -> bool {
    table.len() >= 2 + 2 * hash_bits() && forall|i: int|
        0 <= i < table.len() ==> on_field(#[trigger] table[i])
}

/// The points for the bits of the first hashed element.
pub open spec fn first_points(table: Seq<(nat, nat)>) -> Seq<(nat, nat)> {
    table.subrange(2, 2 + hash_bits() as int)
}

/// The points for the bits of the second hashed element.
pub open spec fn second_points(table: Seq<(nat, nat)>) -> Seq<(nat, nat)> {
    table.subrange(2 + hash_bits() as int, 2 + 2 * hash_bits() as int)
}

/// The Pedersen hash of two field elements: the x coordinate of the shift point
/// plus the points that the bits of both elements pick.
pub open spec fn pedersen_spec(e: (nat, nat), table: Seq<(nat, nat)>) -> nat {
    let first = bits_sum(table[0], e.0, first_points(table));
    bits_sum(first, e.1, second_points(table)).0
}

/// The hash is defined: both elements are field residues and every addition of
/// points that it performs is defined.
pub open spec fn pedersen_defined(e: (nat, nat), table: Seq<(nat, nat)>) -> bool {
    &&& e.0 < field_prime()
    &&& e.1 < field_prime()
    &&& bits_sum_defined(table[0], e.0, first_points(table))
    &&& bits_sum_defined(bits_sum(table[0], e.0, first_points(table)), e.1, second_points(table))
}

/// The bit and the shift that pick the points.
proof fn lemma_low_bit(x: nat)
    ensures
        bit_and(x, 1) == x % 2,
        pow2(1) == 2,
{
    lemma2_to64();
    if x != 0 {
        assert(bit_and(x, 1) == bit_and(x / 2, 0) * 2 + (x % 2) * (1nat % 2));
    }
}

/// A sum of points stays on the field.
proof fn lemma_bits_sum_on_field(acc: (nat, nat), x: nat, pts: Seq<(nat, nat)>)
    requires
        on_field(acc),
        forall|i: int| 0 <= i < pts.len() ==> on_field(#[trigger] pts[i]),
        bits_sum_defined(acc, x, pts),
    ensures
        on_field(bits_sum(acc, x, pts)),
    decreases pts.len(),
{
    if pts.len() > 0 {
        let next = if x % 2 == 1 {
            ec_add_spec(acc, pts[0])
        } else {
            acc
        };
        if x % 2 == 1 {
            crate::dydx::ec_math::lemma_ec_add_on_field(acc, pts[0]);
        }
        assert forall|i: int| 0 <= i < pts.drop_first().len() implies on_field(
            #[trigger] pts.drop_first()[i],
        ) by {
            assert(pts.drop_first()[i] == pts[i + 1]);
        }
        lemma_bits_sum_on_field(next, x / 2, pts.drop_first());
    }
}

/// The Pedersen hash of two field elements is a field element, so that hashes can
/// be chained.
pub proof fn lemma_pedersen_on_field(e: (nat, nat), table: Seq<(nat, nat)>)
    requires
        constant_points_valid(table),
        pedersen_defined(e, table),
    ensures
        pedersen_spec(e, table) < field_prime(),
{
    assert forall|i: int| 0 <= i < first_points(table).len() implies on_field(
        #[trigger] first_points(table)[i],
    ) by {
        assert(first_points(table)[i] == table[i + 2]);
    }
    assert forall|i: int| 0 <= i < second_points(table).len() implies on_field(
        #[trigger] second_points(table)[i],
    ) by {
        assert(second_points(table)[i] == table[i + 2 + hash_bits()]);
    }
    assert(on_field(table[0]));
    lemma_bits_sum_on_field(table[0], e.0, first_points(table));
    lemma_bits_sum_on_field(bits_sum(table[0], e.0, first_points(table)), e.1, second_points(table));
}

/// One point of the sum: add the point when the low bit of `x` is set.
pub open spec fn bit_step(acc: (nat, nat), x: nat, pt: (nat, nat)) -> (nat, nat) {
    if x % 2 == 1 {
        ec_add_spec(acc, pt)
    } else {
        acc
    }
}

proof fn lemma_bits_step(acc: (nat, nat), x: nat, rest: Seq<(nat, nat)>)
    requires
        rest.len() > 0,
    ensures
        bits_sum(acc, x, rest) == bits_sum(bit_step(acc, x, rest[0]), x / 2, rest.drop_first()),
        bits_sum_defined(acc, x, rest) == ((x % 2 == 1 ==> ec_add_defined(acc, rest[0]))
            && bits_sum_defined(bit_step(acc, x, rest[0]), x / 2, rest.drop_first())),
{
}

proof fn lemma_div_pow2_step(x: nat, i: nat)
    ensures
        (x / pow2(i)) / 2 == x / pow2(i + 1),
{
    vstd::arithmetic::power2::lemma_pow2_pos(i);
    lemma_pow2_unfold(i + 1);
    vstd::arithmetic::div_mod::lemma_div_denominator(x as int, pow2(i) as int, 2);
    vstd::arithmetic::mul::lemma_mul_is_commutative(pow2(i) as int, 2);
}

/// Adds to `acc` the points `table[from..from + 252]` that the bits of `x` pick,
/// where every addition is defined; `None` exactly where one is not.
fn try_add_bit_points(
    acc: (Uint512, Uint512),
    x: Uint512,
    table: &[(Uint512, Uint512)],
    from: usize,
) -> (r: Option<((Uint512, Uint512), Uint512)>)
    requires
        from + hash_bits() <= table@.len(),
        on_field(point_view(acc)),
        forall|i: int| 0 <= i < table@.len() ==> on_field(#[trigger] point_view(table@[i])),
    ensures
        r is None <==> !bits_sum_defined(
            point_view(acc),
            x@,
            points_view(table@).subrange(from as int, from + hash_bits()),
        ),
        r matches Some(v) ==> point_view(v.0) == bits_sum(
            point_view(acc),
            x@,
            points_view(table@).subrange(from as int, from + hash_bits()),
        ) && on_field(point_view(v.0)) && v.1@ == x@ / pow2(hash_bits()),
{
    let ghost pts = points_view(table@).subrange(from as int, from + hash_bits());
    let ghost acc0 = point_view(acc);
    let ghost x0 = x@;
    proof {
        assert forall|j: int| 0 <= j < 252 implies #[trigger] pts[j] == point_view(
            table@[from + j],
        ) by {
            assert(points_view(table@)[from + j] == point_view(table@[from + j]));
        }
        assert(pts.skip(0) =~= pts);
        lemma2_to64();
    }
    let one = Uint512::one();
    let n = table.len();
    let mut sum = acc;
    let mut bits = x;
    let mut i: usize = 0;
    while i < 252
        invariant
            n == table@.len(),
            acc0 == point_view(acc),
            x0 == x@,
            pts == points_view(table@).subrange(from as int, from + hash_bits()),
            from + hash_bits() <= table@.len(),
            pts.len() == 252,
            forall|j: int| 0 <= j < 252 ==> #[trigger] pts[j] == point_view(table@[from + j]),
            forall|j: int| 0 <= j < table@.len() ==> on_field(#[trigger] point_view(table@[j])),
            i <= 252,
            one@ == 1,
            on_field(point_view(sum)),
            bits_sum(point_view(sum), bits@, pts.skip(i as int)) == bits_sum(acc0, x0, pts),
            bits_sum_defined(point_view(sum), bits@, pts.skip(i as int)) == bits_sum_defined(
                acc0,
                x0,
                pts,
            ),
            bits@ == x0 / pow2(i as nat),
        decreases 252 - i,
    {
        let ghost rest = pts.skip(i as int);
        let ghost before = point_view(sum);
        proof {
            assert(rest[0] == pts[i as int]);
            assert(rest.drop_first() =~= pts.skip(i + 1));
            lemma_bits_step(before, bits@, rest);
            lemma_low_bit(bits@);
        }
        let picked = table[from + i];
        if bits.bitand(&one).is_equal(&one) {
            sum = match ECMath::try_ec_add(sum, picked) {
                Some(sum) => sum,
                None => {
                    proof {
                        assert(point_view(picked) == rest[0]);
                        assert(bits@ % 2 == 1);
                        assert(!ec_add_defined(before, rest[0]));
                        assert(!bits_sum_defined(before, bits@, rest));
                        assert(!bits_sum_defined(acc0, x0, pts));
                    }
                    return None;
                },
            };
        }
        proof {
            assert(point_view(sum) == bit_step(before, bits@, rest[0]));
            lemma_div_pow2_step(x0, i as nat);
        }
        bits = bits.shr(1);
        i = i + 1;
    }
    proof {
        assert(pts.skip(252) =~= Seq::<(nat, nat)>::empty());
    }
    Some((sum, bits))
}

/// The Pedersen hash of two field elements over a table of constant points, where
/// every addition of points that it performs is defined.
pub fn pedersen_hash(element: (Uint512, Uint512), constant_points: &[(Uint512, Uint512)]) -> (r:
    Uint512)
    requires
        constant_points_valid(points_view(constant_points@)),
        pedersen_defined(point_view(element), points_view(constant_points@)),
    ensures
        r@ == pedersen_spec(point_view(element), points_view(constant_points@)),
        r@ < field_prime(),
{
    match try_pedersen_hash(element, constant_points) {
        Some(r) => r,
        None => Uint512::zero(),
    }
}

/// The Pedersen hash where it is defined: `None` exactly when an element is not a
/// field residue or an addition of points is not defined.
pub fn try_pedersen_hash(element: (Uint512, Uint512), constant_points: &[(Uint512, Uint512)]) -> (r:
    Option<Uint512>)
    requires
        constant_points_valid(points_view(constant_points@)),
    ensures
        r is None <==> !pedersen_defined(point_view(element), points_view(constant_points@)),
        r matches Some(h) ==> h@ == pedersen_spec(
            point_view(element),
            points_view(constant_points@),
        ) && h@ < field_prime(),
{
    let ghost table = points_view(constant_points@);
    let modulus = ECMath::field_prime_value();
    proof {
        assert forall|i: int| 0 <= i < constant_points@.len() implies on_field(
            #[trigger] point_view(constant_points@[i]),
        ) by {
            assert(table[i] == point_view(constant_points@[i]));
        }
        assert(table[0] == point_view(constant_points@[0]));
        assert(table.subrange(2, 2 + hash_bits() as int) =~= first_points(table));
    }
    let x0 = element.0;
    if !modulus.is_greater(&x0) {
        return None;
    }
    let (first, rest0) = match try_add_bit_points(constant_points[0], x0, constant_points, 2) {
        Some(v) => v,
        None => {
            return None;
        },
    };
    let x1 = element.1;
    if !modulus.is_greater(&x1) {
        return None;
    }
    let (last, rest1) = match try_add_bit_points(first, x1, constant_points, 2 + 252) {
        Some(v) => v,
        None => {
            return None;
        },
    };
    Some(last.0)
}

/// The hash of an order: the Pedersen hash chain over the asset ids, then over the
/// two packed fields.
pub open spec fn order_hash_spec(
    asset_id_sell: nat,
    asset_id_buy: nat,
    asset_id_fee: nat,
    part_1: nat,
    part_2: nat,
    table: Seq<(nat, nat)>,
) -> nat {
    let assets_hash = pedersen_spec(
        (pedersen_spec((asset_id_sell, asset_id_buy), table), asset_id_fee),
        table,
    );
    pedersen_spec((pedersen_spec((assets_hash, part_1), table), part_2), table)
}

/// Every Pedersen hash of the chain is defined.
pub open spec fn order_hash_defined(
    asset_id_sell: nat,
    asset_id_buy: nat,
    asset_id_fee: nat,
    part_1: nat,
    part_2: nat,
    table: Seq<(nat, nat)>,
) -> bool {
    let h1 = pedersen_spec((asset_id_sell, asset_id_buy), table);
    let assets_hash = pedersen_spec((h1, asset_id_fee), table);
    let h3 = pedersen_spec((assets_hash, part_1), table);
    &&& pedersen_defined((asset_id_sell, asset_id_buy), table)
    &&& pedersen_defined((h1, asset_id_fee), table)
    &&& pedersen_defined((assets_hash, part_1), table)
    &&& pedersen_defined((h3, part_2), table)
}

/// The hash of an order from its asset ids and packed fields; `None` exactly when a
/// Pedersen hash of the chain is not defined.
pub fn order_hash_from_fields(
    asset_id_sell: Uint512,
    asset_id_buy: Uint512,
    asset_id_fee: Uint512,
    part_1: Uint512,
    part_2: Uint512,
    constant_points: &[(Uint512, Uint512)],
) -> (r: Option<Uint512>)
    requires
        constant_points_valid(points_view(constant_points@)),
    ensures
        r is None <==> !order_hash_defined(
            asset_id_sell@,
            asset_id_buy@,
            asset_id_fee@,
            part_1@,
            part_2@,
            points_view(constant_points@),
        ),
        r matches Some(h) ==> h@ == order_hash_spec(
            asset_id_sell@,
            asset_id_buy@,
            asset_id_fee@,
            part_1@,
            part_2@,
            points_view(constant_points@),
        ) && h@ < field_prime(),
{
    let h1 = match try_pedersen_hash((asset_id_sell, asset_id_buy), constant_points) {
        Some(h) => h,
        None => {
            return None;
        },
    };
    let assets_hash = match try_pedersen_hash((h1, asset_id_fee), constant_points) {
        Some(h) => h,
        None => {
            return None;
        },
    };
    let h3 = match try_pedersen_hash((assets_hash, part_1), constant_points) {
        Some(h) => h,
        None => {
            return None;
        },
    };
    try_pedersen_hash((h3, part_2), constant_points)
}

/// Seconds rounded up to whole hours.
pub open spec fn ceil_hours(seconds: nat) -> nat {
    (seconds + 3599) / 3600
}

/// The expiration of an order's signature in hours: its expiration rounded up to
/// whole hours, plus the buffer, added as `u64` with wrapping.
pub open spec fn expiration_hours_spec(expiration_seconds: u64, buffer: u64) -> u64 {
    (ceil_hours(expiration_seconds as nat) as u64).wrapping_add(buffer)
}

/// The hash of an order, from its client id, position and market, its fee in
/// quantum USD, its expiration and the account's position id.
///
/// The USD amount is price times size with 6 decimals (`fallback` where floating
/// point computes it), the synthetic amount is the size with the market's decimals;
/// a buy order sells USD for the synthetic asset, a sell order the reverse. The
/// hash is `None` where an amount cannot be had, the packed fields overflow, or a
/// Pedersen hash of the chain is not defined.
pub open spec fn order_hash_result(
    client_id: Seq<char>,
    position: Position,
    market: Markets,
    qa_fee: u64,
    expiration_seconds: u64,
    position_id: u64,
    testnet: bool,
    usd_fallback: u128,
    constants: StarkConstants,
) -> Option<nat> {
    let price = position.spec_open_price();
    let size = position.spec_size();
    let usd = usd_amount_result(price, size, 6, usd_fallback as nat);
    let decimals = market.spec_decimals();
    if usd is None || !quantum_amount_valid(size, decimals) {
        None
    } else {
        let synthetic = quantum_value(size, decimals);
        let buying = position.spec_side() != Side::SELL;
        let usd_id = constants.usd_id(testnet);
        let market_id = constants.asset_ids@[market.spec_index() as int]@;
        let sell_id = if buying { usd_id } else { market_id };
        let buy_id = if buying { market_id } else { usd_id };
        let qa_sell = if buying { usd.unwrap() } else { synthetic };
        let qa_buy = if buying { synthetic } else { usd.unwrap() };
        match packed_part_1(qa_sell, qa_buy, qa_fee as nat, nonce_spec(client_id)) {
            None => None,
            Some(part_1) => {
                let part_2 = order_part_2_spec(
                    position_id as nat,
                    expiration_hours_spec(expiration_seconds, constants.expiration_buffer_hours) as nat,
                );
                if order_hash_defined(sell_id, buy_id, usd_id, part_1, part_2, constants.table()) {
                    Some(order_hash_spec(sell_id, buy_id, usd_id, part_1, part_2, constants.table()))
                } else {
                    None
                }
            },
        }
    }
}

/// An order is hashed with the collateral of its own network only: two sets of
/// constants that agree on the table of points, the market ids, the expiration
/// buffer and the USD asset id of the chosen network give the same hash, whatever
/// the USD asset id of the other network is (for a buy it is the asset sold, for a
/// sell the asset bought, and for both the fee asset).
pub proof fn lemma_order_uses_own_network(
    client_id: Seq<char>,
    position: Position,
    market: Markets,
    qa_fee: u64,
    expiration_seconds: u64,
    position_id: u64,
    testnet: bool,
    usd_fallback: u128,
    c1: StarkConstants,
    c2: StarkConstants,
)
    requires
        c1.constant_points@ == c2.constant_points@,
        c1.asset_ids@ == c2.asset_ids@,
        c1.expiration_buffer_hours == c2.expiration_buffer_hours,
        c1.usd_id(testnet) == c2.usd_id(testnet),
    ensures
        order_hash_result(
            client_id,
            position,
            market,
            qa_fee,
            expiration_seconds,
            position_id,
            testnet,
            usd_fallback,
            c1,
        ) == order_hash_result(
            client_id,
            position,
            market,
            qa_fee,
            expiration_seconds,
            position_id,
            testnet,
            usd_fallback,
            c2,
        ),
{
    assert(c1.table() == c2.table());
}

/// Calculates the Pedersen hash of an order: see `order_hash_result`.
pub fn order_hash(
    client_id: String,
    position: &Position,
    market: Markets,
    qa_fee: u64,
    expiration_seconds: u64,
    position_id: u64,
    testnet: bool,
    usd_fallback: u128,
    constants: &StarkConstants,
) -> (r: Option<Uint512>)
    requires
        constants.valid(),
    ensures
        match order_hash_result(
            client_id@,
            *position,
            market,
            qa_fee,
            expiration_seconds,
            position_id,
            testnet,
            usd_fallback,
            *constants,
        ) {
            Some(h) => r matches Some(v) && v@ == h,
            None => r is None,
        },
        r matches Some(v) ==> v@ < field_prime(),
{
    let nonce = convert_nonce(client_id);
    let rounded_up: u64 = if expiration_seconds % 3600 != 0 {
        1
    } else {
        0
    };
    let hours = expiration_seconds / 3600 + rounded_up;
    assert(hours == ceil_hours(expiration_seconds as nat));
    let expiration_hours = hours.wrapping_add(constants.expiration_buffer_hours) as u128;
    let usd = match order_usd_amount(position.price(), position.size(), 6, usd_fallback) {
        Some(usd) => usd,
        None => {
            return None;
        },
    };
    let synthetic = match try_quantum_amount(position.size(), market.decimals()) {
        Some(synthetic) => synthetic,
        None => {
            return None;
        },
    };
    let buying = position.side() != Side::SELL;
    let usd_id = constants.usd_asset_id(testnet);
    let market_id = market.id(constants);
    let (sell_id, buy_id, qa_sell, qa_buy) = if buying {
        (usd_id, market_id, usd, synthetic)
    } else {
        (market_id, usd_id, synthetic, usd)
    };
    let (part_1, part_2) = match order_fields(
        qa_sell,
        qa_buy,
        qa_fee,
        nonce,
        position_id,
        expiration_hours,
    ) {
        Some(fields) => fields,
        None => {
            return None;
        },
    };
    order_hash_from_fields(sell_id, buy_id, usd_id, part_1, part_2, constants.constant_points.as_slice())
}

/// A hexadecimal number written with 64 digits: zeros in front of its digits.
pub open spec fn pad_hex64(h: Seq<char>) -> Seq<char> {
    zeros((64 - h.len()) as nat) + h
}

/// `h` with zeros put in front until it has 64 characters.
fn pad_to_64(h: String) -> (r: String)
    requires
        h@.len() <= 64,
    ensures
        r@ == pad_hex64(h@),
{
    let mut padded = h;
    proof {
        reveal_strlit("0");
        assert(padded@ =~= zeros(0) + h@);
    }
    while padded.as_str().unicode_len() != 64
        invariant
            h@.len() <= padded@.len() <= 64,
            padded@ == zeros((padded@.len() - h@.len()) as nat) + h@,
        decreases 64 - padded@.len(),
    {
        let mut longer = String::from_str("0");
        longer.append(padded.as_str());
        proof {
            reveal_strlit("0");
            assert("0"@ =~= seq!['0']);
            assert(longer@ =~= zeros((longer@.len() - h@.len()) as nat) + h@);
        }
        padded = longer;
    }
    padded
}

/// The signature `(r, s)` as 128 lower case hexadecimal digits: each number written
/// with 64 digits, `r` first.
pub fn encode_signature(r: Uint512, s: Uint512) -> (res: String)
    requires
        lower_hex(r@).len() <= 64,
        lower_hex(s@).len() <= 64,
    ensures
        res@ == pad_hex64(lower_hex(r@)) + pad_hex64(lower_hex(s@)),
        res@.len() == 128,
{
    let hex_r = pad_to_64(r.to_lower_hex());
    let hex_s = pad_to_64(s.to_lower_hex());
    let mut res = hex_r;
    res.append(hex_s.as_str());
    res
}

} // verus!
