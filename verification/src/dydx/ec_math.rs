//! Modular arithmetic and elliptic curve point arithmetic needed for the signatures.
use vstd::arithmetic::div_mod::*;
use vstd::prelude::*;
use vstd::arithmetic::div_mod::{
    lemma_fundamental_div_mod_converse, lemma_small_mod, lemma_sub_mod_noop,
};

use crate::arith::{
    abs, gcd, lemma_coeff_step, lemma_cong_mod, lemma_cong_mul, lemma_cong_sub,
    lemma_mod_inverse_unique, mod_inverse, next_coeff, rep,
};
use crate::uint::{uint512_bound, Uint512};

verus! {

/// Modular and point arithmetic over the STARK field.
pub struct ECMath;

/// The prime of the STARK field, 2^251 + 17 * 2^192 + 1.
pub open spec fn field_prime() -> nat {
    0x800_0000_0000_0011_0000_0000_0000_0000_0000_0000_0000_0000_0000_0000_0000_0001nat
}

/// `v` reduced into `[0, p)`.
pub open spec fn fmod(v: int, p: nat) -> nat {
    (v % (p as int)) as nat
}

/// The affine coordinates that a point of limbs stands for.
pub open spec fn point_view(p: (Uint512, Uint512)) -> (nat, nat) {
    (p.0@, p.1@)
}

/// Both coordinates are residues of the field.
pub open spec fn on_field(p: (nat, nat)) -> bool {
    p.0 < field_prime() && p.1 < field_prime()
}

/// Chord addition is defined: the coordinates are residues and the difference of
/// the x coordinates is invertible (for the prime modulus: the x coordinates differ).
pub open spec fn ec_add_defined(p1: (nat, nat), p2: (nat, nat)) -> bool {
    on_field(p1) && on_field(p2) && gcd(fmod(p1.0 - p2.0, field_prime()), field_prime()) == 1
}

/// The sum of two points with distinct x coordinates on a short Weierstrass curve:
/// `l = (y1 - y2) / (x1 - x2)`, `x = l^2 - x1 - x2`, `y = l * (x1 - x) - y1`.
pub open spec fn ec_add_spec(p1: (nat, nat), p2: (nat, nat)) -> (nat, nat) {
    let p = field_prime();
    let l = fmod((fmod(p1.1 - p2.1, p) * mod_inverse(fmod(p1.0 - p2.0, p), p)) as int, p);
    let x = fmod(l * l - p1.0 - p2.0, p);
    let y = fmod(l * (p1.0 - x) - p1.1, p);
    (x, y)
}

/// A sum of points is a pair of residues.
pub proof fn lemma_ec_add_on_field(p1: (nat, nat), p2: (nat, nat))
    ensures
        on_field(ec_add_spec(p1, p2)),
{
    let p = field_prime();
    let l = fmod((fmod(p1.1 - p2.1, p) * mod_inverse(fmod(p1.0 - p2.0, p), p)) as int, p);
    let x = fmod(l * l - p1.0 - p2.0, p);
    vstd::arithmetic::div_mod::lemma_mod_bound(l * l - p1.0 - p2.0, p as int);
    vstd::arithmetic::div_mod::lemma_mod_bound(l * (p1.0 - x) - p1.1, p as int);
}

/// 2^256: moduli below it keep every product of two residues within 512 bits.
pub open spec fn modulus_bound() -> nat {
    0x1_0000_0000_0000_0000_0000_0000_0000_0000_0000_0000_0000_0000_0000_0000_0000_0000nat
}

proof fn lemma_square_fits(mm: nat)
    requires
        mm < modulus_bound(),
    ensures
        mm * mm < uint512_bound(),
{
    assert(mm * mm < uint512_bound()) by (nonlinear_arith)
        requires
            mm < modulus_bound(),
            modulus_bound() * modulus_bound() == uint512_bound(),
    ;
}

/// Tangent doubling is defined: the coordinates are residues, `y` is not zero, and
/// `2 * y` is invertible (for the prime modulus: `y` is not zero).
pub open spec fn ec_double_defined(pt: (nat, nat)) -> bool {
    on_field(pt) && pt.1 % field_prime() != 0 && gcd(fmod((2 * pt.1) as int, field_prime()), field_prime())
        == 1
}

/// The double of a point on `y^2 = x^3 + alpha * x + beta`:
/// `l = (3 * x^2 + alpha) / (2 * y)`, `x' = l^2 - 2 * x`, `y' = l * (x - x') - y`.
pub open spec fn ec_double_spec(pt: (nat, nat), alpha: nat) -> (nat, nat) {
    let p = field_prime();
    let l = fmod(((3 * pt.0 * pt.0 + alpha) * mod_inverse(fmod((2 * pt.1) as int, p), p)) as int, p);
    let x = fmod(l * l - 2 * pt.0, p);
    let y = fmod(l * (pt.0 - x) - pt.1, p);
    (x, y)
}

/// Scalar multiplication by double-and-add: `1 * P = P`, `2k * P = k * (2P)`,
/// `(k + 1) * P = k * P + P`.
pub open spec fn ec_mult_spec(k: nat, pt: (nat, nat), alpha: nat) -> (nat, nat)
    decreases k,
{
    if k <= 1 {
        pt
    } else if k % 2 == 0 {
        ec_mult_spec(k / 2, ec_double_spec(pt, alpha), alpha)
    } else {
        ec_add_spec(ec_mult_spec((k - 1) as nat, pt, alpha), pt)
    }
}

/// Every doubling and every addition that double-and-add performs for `k * P` is
/// defined, and `k` is not zero.
pub open spec fn ec_mult_defined(k: nat, pt: (nat, nat), alpha: nat) -> bool
    decreases k,
{
    if k == 0 {
        false
    } else if k == 1 {
        true
    } else if k % 2 == 0 {
        ec_double_defined(pt) && ec_mult_defined(k / 2, ec_double_spec(pt, alpha), alpha)
    } else {
        ec_mult_defined((k - 1) as nat, pt, alpha) && ec_add_defined(
            ec_mult_spec((k - 1) as nat, pt, alpha),
            pt,
        )
    }
}

/// Every product of a quotient and a coefficient that the extended Euclidean
/// algorithm of `ECMath::modinv` forms, from the state `(a, m, x, inv)` on, fits
/// 512 bits. Each step divides `a` by `m`, forms `(a / m) * x`, replaces `inv` by
/// the next coefficient, and moves on to `(m, a % m, next, x)`; the run stops when
/// `a <= 1` or at a zero divisor.
pub open spec fn inverse_products_fit(a: nat, m: nat, x: nat, inv: nat, modulus: nat) -> bool
    decreases m,
{
    if a <= 1 || m == 0 {
        true
    } else {
        (a / m) * x < uint512_bound() && inverse_products_fit(
            m,
            a % m,
            next_coeff(a / m, x, inv, modulus) as nat,
            x,
            modulus,
        )
    }
}

/// One is coprime to every number.
pub proof fn lemma_gcd_one(m: nat)
    ensures
        gcd(1, m) == 1,
{
    if m > 1 {
        lemma_small_mod(1, m);
        assert(gcd(1, m) == gcd(m, 1));
        assert(gcd(m, 1) == gcd(1, 0));
    } else if m == 1 {
        assert(gcd(1, 1) == gcd(1, 0));
    }
}

/// Twice a nonzero residue is nonzero: the field prime is odd.
proof fn lemma_twice_nonzero(y: nat)
    requires
        y < field_prime(),
        y % field_prime() != 0,
    ensures
        (2 * y) % field_prime() != 0,
{
    let p = field_prime();
    if (2 * y) % p == 0 {
        assert(y > 0) by {
            if y == 0 {
                lemma_small_mod(0, p);
            }
        }
        lemma_fundamental_div_mod_converse((2 * y) as int, p as int, 1, 2 * y - p);
    }
}

/// The slope of the chord, computed from the borrowed difference of the y coordinates.
proof fn lemma_add_slope(y1: int, y2: int, dy: int, inverse: int, m: int, p: int)
    requires
        p > 0,
        dy % p == (y1 - y2) % p,
        m == (dy * inverse) % p,
    ensures
        m == (((y1 - y2) % p) * inverse) % p,
{
    lemma_cong_mod(y1 - y2, p);
    lemma_cong_mul(dy, (y1 - y2) % p, inverse, p);
}

/// The x coordinate of the sum: `l^2 - x1 - x2`, reduced.
proof fn lemma_add_x(x1: int, x2: int, mm: int, r1: int, r2: int, x: int, p: int)
    requires
        p > 0,
        r1 % p == (mm - x1) % p,
        r2 % p == (r1 - x2) % p,
        x == r2 % p,
    ensures
        x == (mm - x1 - x2) % p,
{
    lemma_cong_sub(r1, mm - x1, x2, p);
}

/// The y coordinate of the sum: `l * (x1 - x) - y1`, reduced.
proof fn lemma_add_y(x1: int, y1: int, x: int, m: int, d2: int, t: int, r3: int, y: int, p: int)
    requires
        p > 0,
        d2 % p == (x1 - x) % p,
        t == m * d2,
        r3 % p == (t - y1) % p,
        y == r3 % p,
    ensures
        y == (m * (x1 - x) - y1) % p,
{
    lemma_cong_mul(d2, x1 - x, m, p);
    lemma_cong_sub(t, m * (x1 - x), y1, p);
}

/// The slope of the tangent, computed with a reduction after every operation.
proof fn lemma_double_slope(x0: int, al: int, t1: int, t2: int, t3: int, inverse: int, m: int, p: int)
    requires
        p > 0,
        t1 == (3 * x0) % p,
        t2 == (t1 * x0) % p,
        t3 == (t2 + al) % p,
        m == (t3 * inverse) % p,
    ensures
        m == ((3 * x0 * x0 + al) * inverse) % p,
{
    lemma_cong_mod(3 * x0, p);
    lemma_cong_mul(t1, 3 * x0, x0, p);
    lemma_cong_mod(t1 * x0, p);
    lemma_cong_sub(t2, 3 * x0 * x0, -al, p);
    lemma_cong_mod(t2 + al, p);
    lemma_cong_mul(t3, 3 * x0 * x0 + al, inverse, p);
}

/// The x coordinate of the double: `l^2 - 2 * x`, reduced.
proof fn lemma_double_x(x0: int, m: int, sq: int, dbl: int, diff: int, x: int, p: int)
    requires
        p > 0,
        sq == (m * m) % p,
        dbl == (2 * x0) % p,
        diff % p == (sq - dbl) % p,
        x == diff % p,
    ensures
        x == (m * m - 2 * x0) % p,
{
    lemma_cong_mod(m * m, p);
    lemma_cong_sub(sq, m * m, dbl, p);
    lemma_cong_mod(2 * x0, p);
    lemma_sub_mod_noop(m * m, dbl, p);
    lemma_sub_mod_noop(m * m, 2 * x0, p);
}

/// The y coordinate of the double: `l * (x - x') - y`, reduced.
proof fn lemma_double_y(x0: int, y0: int, x: int, m: int, d: int, t4: int, diff: int, y: int, p: int)
    requires
        p > 0,
        d % p == (x0 - x) % p,
        t4 == (m * d) % p,
        diff % p == (t4 - y0) % p,
        y == diff % p,
    ensures
        y == (m * (x0 - x) - y0) % p,
{
    lemma_cong_mul(d, x0 - x, m, p);
    lemma_cong_mod(m * d, p);
    lemma_cong_sub(t4, m * (x0 - x), y0, p);
    lemma_cong_mod(diff, p);
}

impl ECMath {
    /// The field prime.
    pub fn field_prime_value() -> (p: Uint512)
        ensures
            p@ == field_prime(),
    {
        Uint512 { l0: 1, l1: 0, l2: 0, l3: 0x0800_0000_0000_0011, l4: 0, l5: 0, l6: 0, l7: 0 }
    }

    /// `first - second`, borrowing one `modulus` when `second` is not below `first`.
    pub fn mod_sub(first: Uint512, second: Uint512, modulus: Uint512) -> (r: Uint512)
        requires
            first@ > second@ || second@ - first@ <= modulus@,
        ensures
            r@ == (if first@ > second@ {
                first@ - second@
            } else {
                modulus@ - (second@ - first@)
            }),
            modulus@ > 0 ==> (r@ as int) % (modulus@ as int) == (first@ - second@) % (
            modulus@ as int),
    {
        let r = if first.is_greater(&second) {
            first.minus(&second)
        } else {
            modulus.minus(&second.minus(&first))
        };
        proof {
            if modulus@ > 0 && !(first@ > second@) {
                let mi = modulus@ as int;
                lemma_mod_multiples_vanish(1, first@ - second@, mi);
                assert(mi * 1 + (first@ - second@) == r@);
            }
        }
        r
    }

    /// The sum of two points of the curve with distinct x coordinates.
    pub fn ec_add(p1: (Uint512, Uint512), p2: (Uint512, Uint512)) -> (r: (Uint512, Uint512))
        requires
            ec_add_defined(point_view(p1), point_view(p2)),
        ensures
            point_view(r) == ec_add_spec(point_view(p1), point_view(p2)),
            on_field(point_view(r)),
    {
        match Self::try_ec_add(p1, p2) {
            Some(r) => r,
            None => p1,
        }
    }

    /// The chord sum where it is defined: `None` exactly when the difference of the
    /// x coordinates has no inverse, where the modular inverse would fail.
    pub fn try_ec_add(p1: (Uint512, Uint512), p2: (Uint512, Uint512)) -> (r: Option<
        (Uint512, Uint512),
    >)
        requires
            on_field(point_view(p1)),
            on_field(point_view(p2)),
        ensures
            r is None <==> !ec_add_defined(point_view(p1), point_view(p2)),
            r matches Some(v) ==> point_view(v) == ec_add_spec(point_view(p1), point_view(p2))
                && on_field(point_view(v)),
    {
        let modulus = Self::field_prime_value();
        let ghost p = field_prime();
        let ghost pi = p as int;
        let ghost (x1, y1, x2, y2) = (p1.0@ as int, p1.1@ as int, p2.0@ as int, p2.1@ as int);
        proof {
            lemma_square_fits(p);
        }
        let dx = Self::mod_sub(p1.0, p2.0, modulus);
        proof {
            if x1 == x2 {
                assert(fmod(x1 - x2, p) == 0);
                assert(gcd(0, p) == gcd(p, 0));
                assert(dx@ == p);
                assert(gcd(p, p) == gcd(p, 0)) by {
                    vstd::arithmetic::div_mod::lemma_mod_self_0(p as int);
                }
            } else {
                if x1 > x2 {
                    lemma_small_mod((x1 - x2) as nat, p);
                } else {
                    lemma_small_mod(dx@, p);
                }
                assert(dx@ == fmod(x1 - x2, p));
            }
        }
        let inverse = match Self::try_modinv(dx, modulus) {
            Some(inverse) => inverse,
            None => {
                return None;
            },
        };
        proof {
            assert(x1 != x2);
            lemma_small_mod(1, p);
            assert(dx@ >= 1);
            if dx@ <= 1 {
                assert(dx@ == 1 && inverse@ == 1);
                assert(dx@ * inverse@ == 1);
                lemma_gcd_one(p);
            }
            assert((dx@ * inverse@) % p == 1);
            lemma_mod_inverse_unique(dx@, inverse@, p);
        }
        let dy = Self::mod_sub(p1.1, p2.1, modulus);
        proof {
            assert(dy@ * inverse@ <= p * p) by (nonlinear_arith)
                requires
                    dy@ <= p,
                    inverse@ < p,
            ;
        }
        let m = dy.times(&inverse).remainder(&modulus);
        let ghost l = fmod((fmod(y1 - y2, p) * mod_inverse(fmod(x1 - x2, p), p)) as int, p);
        proof {
            lemma_add_slope(y1, y2, dy@ as int, inverse@ as int, m@ as int, pi);
            assert(m@ == l);
            assert(m@ * m@ < p * p) by (nonlinear_arith)
                requires
                    m@ < p,
            ;
        }
        let mm = m.times(&m);
        let r1 = Self::mod_sub(mm, p1.0, modulus);
        let r2 = Self::mod_sub(r1, p2.0, modulus);
        let x = r2.remainder(&modulus);
        proof {
            lemma_add_x(x1, x2, mm@ as int, r1@ as int, r2@ as int, x@ as int, pi);
            assert(x@ == fmod(l * l - x1 - x2, p));
        }
        let d2 = Self::mod_sub(p1.0, x, modulus);
        proof {
            assert(m@ * d2@ <= p * p) by (nonlinear_arith)
                requires
                    m@ < p,
                    d2@ <= p,
            ;
        }
        let t = m.times(&d2);
        let r3 = Self::mod_sub(t, p1.1, modulus);
        let y = r3.remainder(&modulus);
        proof {
            lemma_add_y(x1, y1, x@ as int, m@ as int, d2@ as int, t@ as int, r3@ as int, y@ as int, pi);
            assert(y@ == fmod(l * (x1 - x@) - y1, p));
        }
        Some((x, y))
    }

    /// The double of a point of the curve whose `y` coordinate is not zero.
    pub fn ec_double(point: (Uint512, Uint512), alpha: Uint512) -> (r: (Uint512, Uint512))
        requires
            ec_double_defined(point_view(point)),
            alpha@ + field_prime() < uint512_bound(),
        ensures
            point_view(r) == ec_double_spec(point_view(point), alpha@),
            on_field(point_view(r)),
    {
        match Self::try_ec_double(point, alpha) {
            Some(r) => r,
            None => point,
        }
    }

    /// The tangent double where it is defined: `None` exactly when `y` is zero or
    /// `2 * y` has no inverse: where doubling has no tangent to follow.
    pub fn try_ec_double(point: (Uint512, Uint512), alpha: Uint512) -> (r: Option<
        (Uint512, Uint512),
    >)
        requires
            on_field(point_view(point)),
            alpha@ + field_prime() < uint512_bound(),
        ensures
            r is None <==> !ec_double_defined(point_view(point)),
            r matches Some(v) ==> point_view(v) == ec_double_spec(point_view(point), alpha@)
                && on_field(point_view(v)),
    {
        let modulus = Self::field_prime_value();
        let ghost p = field_prime();
        let ghost pi = p as int;
        let ghost (x0, y0, al) = (point.0@ as int, point.1@ as int, alpha@ as int);
        let two = Uint512::from_u64(2);
        let three = Uint512::from_u64(3);
        proof {
            lemma_square_fits(p);
            assert(2 * point.1@ < p * p) by (nonlinear_arith)
                requires
                    point.1@ < p,
                    p > 2,
            ;
            assert(3 * point.0@ < p * p) by (nonlinear_arith)
                requires
                    point.0@ < p,
                    p > 3,
            ;
        }
        if point.1.remainder(&modulus).is_equal(&Uint512::zero()) {
            return None;
        }
        let dy = two.times(&point.1).remainder(&modulus);
        proof {
            lemma_twice_nonzero(point.1@);
        }
        let found = match Self::try_modinv(dy, modulus) {
            Some(found) => found,
            None => {
                return None;
            },
        };
        let inverse = found.remainder(&modulus);
        proof {
            assert(dy@ == fmod(2 * y0, p));
            lemma_small_mod(1, p);
            if dy@ == 1 {
                lemma_gcd_one(p);
                assert(found@ == 1);
            } else {
                lemma_small_mod(found@, p);
            }
            assert(inverse@ == found@);
            assert((dy@ * inverse@) % p == 1);
            lemma_mod_inverse_unique(dy@, inverse@, p);
        }
        let t1 = three.times(&point.0).remainder(&modulus);
        proof {
            assert(t1@ * point.0@ < p * p) by (nonlinear_arith)
                requires
                    t1@ < p,
                    point.0@ < p,
            ;
        }
        let t2 = t1.times(&point.0).remainder(&modulus);
        let t3 = t2.plus(&alpha).remainder(&modulus);
        proof {
            assert(t3@ * inverse@ < p * p) by (nonlinear_arith)
                requires
                    t3@ < p,
                    inverse@ < p,
            ;
        }
        let m = t3.times(&inverse).remainder(&modulus);
        let ghost l = fmod((3 * x0 * x0 + al) * mod_inverse(fmod(2 * y0, p), p), p);
        proof {
            lemma_double_slope(x0, al, t1@ as int, t2@ as int, t3@ as int, inverse@ as int, m@ as int, pi);
            assert(m@ == l);
            assert(m@ * m@ < p * p) by (nonlinear_arith)
                requires
                    m@ < p,
            ;
            assert(2 * point.0@ < p * p) by (nonlinear_arith)
                requires
                    point.0@ < p,
                    p > 2,
            ;
        }
        let sq = m.times(&m).remainder(&modulus);
        let dbl = two.times(&point.0).remainder(&modulus);
        let diff = Self::mod_sub(sq, dbl, modulus);
        let x = diff.remainder(&modulus);
        proof {
            lemma_double_x(x0, m@ as int, sq@ as int, dbl@ as int, diff@ as int, x@ as int, pi);
            assert(x@ == fmod(l * l - 2 * x0, p));
        }
        let d = Self::mod_sub(point.0, x, modulus);
        proof {
            assert(m@ * d@ <= p * p) by (nonlinear_arith)
                requires
                    m@ < p,
                    d@ <= p,
            ;
        }
        let t4 = m.times(&d).remainder(&modulus);
        let diff = Self::mod_sub(t4, point.1, modulus);
        let y = diff.remainder(&modulus);
        proof {
            lemma_double_y(x0, y0, x@ as int, m@ as int, d@ as int, t4@ as int, diff@ as int, y@ as int, pi);
            assert(y@ == fmod(l * (x0 - x@) - y0, p));
        }
        Some((x, y))
    }

    /// `scalar * point` by double-and-add, for a scalar that is not zero.
    pub fn ec_mult(scalar: Uint512, point: (Uint512, Uint512), alpha: Uint512) -> (r: (
        Uint512,
        Uint512,
    ))
        requires
            ec_mult_defined(scalar@, point_view(point), alpha@),
            alpha@ + field_prime() < uint512_bound(),
        ensures
            point_view(r) == ec_mult_spec(scalar@, point_view(point), alpha@),
        decreases scalar@,
    {
        let one = Uint512::one();
        let two = Uint512::from_u64(2);
        if scalar.is_equal(&one) {
            return point;
        }
        if scalar.remainder(&two).is_equal(&Uint512::zero()) {
            return Self::ec_mult(scalar.quotient(&two), Self::ec_double(point, alpha), alpha);
        }
        Self::ec_add(Self::ec_mult(scalar.minus(&one), point, alpha), point)
    }

    /// `scalar * point` where every step of double-and-add is defined; `None`
    /// exactly where a step is not, or where the scalar is zero.
    pub fn try_ec_mult(scalar: Uint512, point: (Uint512, Uint512), alpha: Uint512) -> (r: Option<
        (Uint512, Uint512),
    >)
        requires
            on_field(point_view(point)),
            alpha@ + field_prime() < uint512_bound(),
        ensures
            r is None <==> !ec_mult_defined(scalar@, point_view(point), alpha@),
            r matches Some(v) ==> point_view(v) == ec_mult_spec(scalar@, point_view(point), alpha@)
                && on_field(point_view(v)),
        decreases scalar@,
    {
        let one = Uint512::one();
        let two = Uint512::from_u64(2);
        let zero = Uint512::zero();
        if scalar.is_equal(&zero) {
            return None;
        }
        if scalar.is_equal(&one) {
            return Some(point);
        }
        if scalar.remainder(&two).is_equal(&zero) {
            let doubled = match Self::try_ec_double(point, alpha) {
                Some(doubled) => doubled,
                None => {
                    return None;
                },
            };
            return Self::try_ec_mult(scalar.quotient(&two), doubled, alpha);
        }
        let partial = match Self::try_ec_mult(scalar.minus(&one), point, alpha) {
            Some(partial) => partial,
            None => {
                return None;
            },
        };
        Self::try_ec_add(partial, point)
    }

    /// The inverse of `integer` modulo `modulus`, by the extended Euclidean algorithm.
    ///
    /// `0` and `1` are answered with `1`.
    pub fn modinv(integer: Uint512, modulus: Uint512) -> (inv: Uint512)
        requires
            modulus@ < modulus_bound() || inverse_products_fit(integer@, modulus@, 0, 1, modulus@),
            integer@ <= 1 || gcd(integer@, modulus@) == 1,
        ensures
            integer@ <= 1 ==> inv@ == 1,
            integer@ > 1 ==> inv@ < modulus@ && (integer@ * inv@) % modulus@ == 1nat % modulus@,
    {
        match Self::try_modinv(integer, modulus) {
            Some(inv) => inv,
            None => Uint512::one(),
        }
    }

    /// The modular inverse where it exists: `None` exactly when `integer` is at
    /// least 2 and shares a factor with `modulus`, the inputs on which the
    /// Euclidean algorithm reaches a zero divisor, or when a product that the
    /// algorithm forms does not fit 512 bits; below 2^256 every product fits.
    pub fn try_modinv(integer: Uint512, modulus: Uint512) -> (r: Option<Uint512>)
        ensures
            r is None <==> (integer@ >= 2 && gcd(integer@, modulus@) != 1) || !inverse_products_fit(
                integer@,
                modulus@,
                0,
                1,
                modulus@,
            ),
            modulus@ < modulus_bound() ==> (r is None <==> (integer@ >= 2 && gcd(integer@, modulus@)
                != 1)),
            r matches Some(inv) ==> (integer@ <= 1 ==> inv@ == 1),
            r matches Some(inv) ==> (integer@ > 1 ==> inv@ < modulus@ && (integer@ * inv@)
                % modulus@ == 1nat % modulus@),
    {
        let one = Uint512::one();
        if integer.is_equal(&one) {
            return Some(one);
        }
        // Zero has no inverse; the loop below would not run for it either and
        // would hand back its starting coefficient, one.

        let zero = Uint512::zero();
        if integer.is_equal(&zero) {
            return Some(one);
        }
        let ghost ii: nat = integer@;
        let ghost mm: nat = modulus@;
        if modulus.is_equal(&zero) {
            assert(gcd(ii, mm) == ii);
            return None;
        }
        proof {
            if mm < modulus_bound() {
                lemma_square_fits(mm);
            }
        }
        let max = Uint512::max_value();
        let mut a = integer;
        let mut m = modulus;
        let mut x = zero;
        let mut inv = one;
        let ghost mut s: int = 1;
        let ghost mut t: int = 0;
        let ghost mut ks: int = 0;
        let ghost mut kt: int = -1;
        assert(abs(s) * m@ + abs(t) * a@ == mm) by (nonlinear_arith)
            requires
                s == 1,
                t == 0,
                m@ == mm,
        ;
        while a.is_greater(&one)
            invariant
                ii == integer@,
                mm == modulus@,
                ii >= 2,
                mm >= 1,
                mm < modulus_bound() ==> mm * mm < uint512_bound(),
                max@ == uint512_bound() - 1,
                inverse_products_fit(ii, mm, 0, 1, mm) == inverse_products_fit(
                    a@,
                    m@,
                    x@,
                    inv@,
                    mm,
                ),
                one@ == 1,
                zero@ == 0,
                a@ >= 1,
                gcd(a@, m@) == gcd(ii, mm),
                s * t <= 0,
                abs(s) * m@ + abs(t) * a@ == mm,
                s * ii - a@ == mm * ks,
                t * ii - m@ == mm * kt,
                inv@ == rep(s, mm),
                a@ > 1 ==> x@ == rep(t, mm),
                a@ <= 1 ==> abs(s) * 2 <= mm,
            decreases m@,
        {
            if m.is_equal(&zero) {
                assert(gcd(a@, m@) == a@);
                return None;
            }
            let div_ = a.quotient(&m);
            let rem_ = a.remainder(&m);
            let ghost q: nat = div_@;
            let ghost r: nat = rem_@;
            proof {
                lemma_fundamental_div_mod(a@ as int, m@ as int);
                assert(a@ == q * m@ + r) by (nonlinear_arith)
                    requires
                        a@ as int == m@ * (a@ as int / m@ as int) + (a@ as int % m@ as int),
                        q == a@ / m@,
                        r == a@ % m@,
                ;
                lemma_coeff_step(mm, q, a@, m@, r, s, t);
            }
            if !x.is_equal(&zero) {
                let limit = max.quotient(&x);
                proof {
                    crate::arith::lemma_product_fits(x@, q, max@);
                }
                if div_.is_greater(&limit) {
                    proof {
                        assert(x@ * q == q * x@) by (nonlinear_arith);
                        assert(!inverse_products_fit(a@, m@, x@, inv@, mm));
                    }
                    return None;
                }
            }
            proof {
                assert(x@ * q == q * x@) by (nonlinear_arith);
            }
            let dx = div_.times(&x);
            let ghost inv0: nat = inv@;
            if dx.is_greater(&inv) {
                let reduced = dx.remainder(&modulus);
                let d = reduced.minus(&inv);
                inv = modulus.minus(&d);
            } else {
                let d = inv.minus(&dx);
                inv = d.remainder(&modulus);
            }
            assert(inv@ == next_coeff(q, x@, inv0, mm));
            proof {
                assert((s - q * t) * ii - r == mm * (ks - q * kt)) by (nonlinear_arith)
                    requires
                        s * ii - a@ == mm * ks,
                        t * ii - m@ == mm * kt,
                        a@ == q * m@ + r,
                ;
                let t2 = s - q * t;
                let kt2 = ks - q * kt;
                s = t;
                ks = kt;
                t = t2;
                kt = kt2;
            }
            a = rem_;
            std::mem::swap(&mut a, &mut m);
            std::mem::swap(&mut x, &mut inv);
        }
        proof {
            assert(a@ == 1);
            lemma_gcd_one(m@);
            if s >= 0 {
                assert(inv@ == s);
                assert((ii * inv@) as int == mm * ks + 1) by (nonlinear_arith)
                    requires
                        s * ii - 1 == mm * ks,
                        inv@ == s,
                ;
                lemma_mod_multiples_vanish(ks, 1, mm as int);
            } else {
                assert(inv@ == mm + s);
                assert((ii * inv@) as int == mm * (ks + ii) + 1) by (nonlinear_arith)
                    requires
                        s * ii - 1 == mm * ks,
                        inv@ == mm + s,
                ;
                lemma_mod_multiples_vanish(ks + ii, 1, mm as int);
            }
        }
        Some(inv)
    }
}

} // verus!
