//! Number theory used by the modular inverse: greatest common divisors and the
//! coefficients of the extended Euclidean algorithm.
use vstd::arithmetic::div_mod::*;
use vstd::arithmetic::mul::*;
use vstd::prelude::*;

verus! {

/// Greatest common divisor, by Euclid's algorithm.
pub open spec fn gcd(a: nat, b: nat) -> nat
    decreases b,
{
    if b == 0 {
        a
    } else {
        gcd(b, a % b)
    }
}

pub open spec fn abs(v: int) -> nat {
    if v >= 0 {
        v as nat
    } else {
        (-v) as nat
    }
}

/// The representative in `[0, m]` that the algorithm keeps for a coefficient `v`
/// with `|v| <= m`: `v` itself when it is not negative, else `m + v`.
pub open spec fn rep(v: int, m: nat) -> int {
    if v >= 0 {
        v
    } else {
        m + v
    }
}

/// The next coefficient, computed from representatives without going below zero:
/// `inv - q * x` reduced modulo `m`.
pub open spec fn next_coeff(q: nat, x: nat, inv: nat, m: nat) -> int {
    if q * x > inv {
        m - (((q * x) as int % (m as int)) - inv)
    } else {
        (inv - q * x) % (m as int)
    }
}

/// `v % m` for `0 <= v < m` is `v`.
proof fn lemma_small(v: int, m: int)
    requires
        0 <= v < m,
    ensures
        v % m == v,
{
    lemma_fundamental_div_mod_converse(v, m, 0, v);
}

/// The inverse of `v` modulo `p`: the residue `w` with `v * w == 1 (mod p)`.
pub open spec fn mod_inverse(v: nat, p: nat) -> nat {
    choose|w: nat| w < p && #[trigger] ((v * w) % p) == 1
}

/// A residue that inverts `v` is the inverse: there is at most one.
pub proof fn lemma_mod_inverse_unique(v: nat, w: nat, p: nat)
    requires
        p > 1,
        w < p,
        (v * w) % p == 1,
    ensures
        mod_inverse(v, p) == w,
        mod_inverse(v, p) < p,
        (v * mod_inverse(v, p)) % p == 1,
{
    let w2 = mod_inverse(v, p);
    assert(w2 < p && (v * w2) % p == 1);
    // w == w * (v * w2) == (w * v) * w2 == w2 (mod p)
    let (pi, wi, vi, w2i) = (p as int, w as int, v as int, w2 as int);
    assert((vi * w2i) % pi == 1);
    assert((vi * wi) % pi == 1);
    lemma_mul_mod_noop_right(wi, vi * w2i, pi);
    assert((wi * 1) % pi == (wi * (vi * w2i)) % pi);
    lemma_mul_is_associative(wi, vi, w2i);
    lemma_mul_is_commutative(wi, vi);
    lemma_mul_mod_noop_left(vi * wi, w2i, pi);
    assert(((vi * wi) * w2i) % pi == (1 * w2i) % pi);
    lemma_small(wi, pi);
    lemma_small(w2i, pi);
}

/// Subtracting the same number keeps two numbers congruent.
pub proof fn lemma_cong_sub(a: int, b: int, c: int, m: int)
    requires
        m > 0,
        a % m == b % m,
    ensures
        (a - c) % m == (b - c) % m,
{
    lemma_sub_mod_noop(a, c, m);
    lemma_sub_mod_noop(b, c, m);
}

/// Multiplying by the same number keeps two numbers congruent.
pub proof fn lemma_cong_mul(a: int, b: int, c: int, m: int)
    requires
        m > 0,
        a % m == b % m,
    ensures
        (a * c) % m == (b * c) % m,
        (c * a) % m == (c * b) % m,
{
    lemma_mul_mod_noop_left(a, c, m);
    lemma_mul_mod_noop_left(b, c, m);
    lemma_mul_is_commutative(a, c);
    lemma_mul_is_commutative(b, c);
}

/// A number is congruent to its own remainder.
pub proof fn lemma_cong_mod(a: int, m: int)
    requires
        m > 0,
    ensures
        (a % m) % m == a % m,
        0 <= a % m < m,
{
    lemma_mod_twice(a, m);
    lemma_mod_bound(a, m);
}

/// One step of the extended Euclidean algorithm, on the representatives that the
/// modular inverse keeps: the coefficient magnitudes stay tied to the modulus by
/// `|S| * m + |T| * a == M`, the subtractions never go below zero, and the new
/// representative is that of `S - q * T` (while the next divisor exceeds 1).
pub proof fn lemma_coeff_step(mm: nat, q: nat, a: nat, m: nat, r: nat, s: int, t: int)
    requires
        mm >= 1,
        m >= 1,
        a >= 2,
        a == q * m + r,
        r < m,
        s * t <= 0,
        abs(s) * m + abs(t) * a == mm,
    ensures
        0 <= rep(t, mm) <= mm,
        0 <= rep(s, mm) <= mm,
        abs(t) * 2 <= mm,
        q * (rep(t, mm) as nat) <= mm * mm,
        q * (rep(t, mm) as nat) > rep(s, mm) ==> ((q * (rep(t, mm) as nat)) as int % (mm as int)) >= rep(
            s,
            mm,
        ),
        t * (s - q * t) <= 0,
        abs(t) * r + abs(s - q * t) * m == mm,
        m > 1 ==> next_coeff(q, rep(t, mm) as nat, rep(s, mm) as nat, mm) == rep(s - q * t, mm),
{
    let t2 = s - q * t;
    let x = rep(t, mm);
    let inv = rep(s, mm);
    assert(q <= a) by (nonlinear_arith)
        requires
            a == q * m + r,
            m >= 1,
    ;
    assert(abs(t) * 2 <= mm) by (nonlinear_arith)
        requires
            abs(s) * m + abs(t) * a == mm,
            a >= 2,
    ;
    assert(abs(s) <= mm) by (nonlinear_arith)
        requires
            abs(s) * m + abs(t) * a == mm,
            m >= 1,
    ;
    // magnitude of the new coefficient, and the identity for the next pair
    assert(abs(t2) == abs(s) + q * abs(t)) by (nonlinear_arith)
        requires
            s * t <= 0,
            t2 == s - q * t,
            q >= 0,
    ;
    assert(abs(t) * r + abs(t2) * m == mm) by (nonlinear_arith)
        requires
            abs(t2) == abs(s) + q * abs(t),
            abs(s) * m + abs(t) * a == mm,
            a == q * m + r,
    ;
    assert(t * t2 <= 0) by (nonlinear_arith)
        requires
            s * t <= 0,
            t2 == s - q * t,
            q >= 0,
    ;
    assert(abs(t2) <= mm) by (nonlinear_arith)
        requires
            abs(t) * r + abs(t2) * m == mm,
            m >= 1,
    ;
    assert(m > 1 ==> abs(t2) * 2 <= mm) by (nonlinear_arith)
        requires
            abs(t) * r + abs(t2) * m == mm,
    ;
    let qx = q * (x as nat);
    if t == 0 {
        assert(qx == 0) by (nonlinear_arith)
            requires
                qx == q * (x as nat),
                x == 0,
        ;
        assert(abs(s) * m == mm) by (nonlinear_arith)
            requires
                t == 0,
                abs(s) * m + abs(t) * a == mm,
        ;
        if m > 1 {
            assert(abs(s) * 2 <= mm) by (nonlinear_arith)
                requires
                    abs(s) * m == mm,
                    m > 1,
            ;
            lemma_small(inv, mm as int);
            assert(next_coeff(q, x as nat, inv as nat, mm) == inv % (mm as int));
            assert(t2 == s);
        }
    } else if t > 0 {
        assert(x == t);
        assert(s <= 0) by (nonlinear_arith)
            requires
                s * t <= 0,
                t > 0,
        ;
        assert(qx == q * abs(t));
        assert(qx <= abs(t2));
        assert(qx <= mm * mm) by (nonlinear_arith)
            requires
                qx <= mm,
                mm >= 1,
        ;
        if s < 0 {
            assert(!(qx > inv));
            lemma_small(mm - abs(t2), mm as int);
            assert(next_coeff(q, x as nat, inv as nat, mm) == (mm - abs(t2)) % (mm as int));
        } else {
            assert(inv == 0);
            if qx > 0 {
                lemma_mod_bound(qx as int, mm as int);
                if m > 1 {
                    lemma_small(qx as int, mm as int);
                    assert(next_coeff(q, x as nat, inv as nat, mm) == mm - qx);
                }
            } else {
                lemma_small(0, mm as int);
                assert(next_coeff(q, x as nat, inv as nat, mm) == 0);
                assert(t2 == 0);
            }
        }
    } else {
        assert(x == mm - abs(t));
        assert(a <= mm) by (nonlinear_arith)
            requires
                abs(t) * a <= mm,
                abs(t) >= 1,
        ;
        assert(qx <= mm * mm) by (nonlinear_arith)
            requires
                qx == q * (x as nat),
                q <= a,
                a <= mm,
                0 <= x <= mm,
        ;
        assert(s >= 0) by (nonlinear_arith)
            requires
                s * t <= 0,
                t < 0,
        ;
        assert(inv == s);
        if q == 0 {
            assert(qx == 0);
            if m > 1 {
                assert(abs(s) * 2 <= mm) by (nonlinear_arith)
                    requires
                        abs(s) * m + abs(t) * a == mm,
                        m > 1,
                ;
                lemma_small(s, mm as int);
                assert(t2 == s);
                assert(next_coeff(q, x as nat, inv as nat, mm) == s % (mm as int));
            }
        } else {
            let u = q * abs(t);
            assert(qx == q * mm - u) by (nonlinear_arith)
                requires
                    qx == q * (x as nat),
                    x == mm - abs(t),
                    x >= 0,
                    u == q * abs(t),
            ;
            assert(1 <= u) by (nonlinear_arith)
                requires
                    u == q * abs(t),
                    q >= 1,
                    abs(t) >= 1,
            ;
            assert(t2 == s + u) by (nonlinear_arith)
                requires
                    t2 == s - q * t,
                    u == q * abs(t),
                    t < 0,
            ;
            assert(q * mm - u == (q - 1) * mm + (mm - u)) by (nonlinear_arith);
            if u < mm {
                lemma_fundamental_div_mod_converse(q * mm - u, mm as int, q - 1, mm - u);
                assert((qx as int) % (mm as int) == mm - u);
            } else {
                assert(u == mm);
                lemma_fundamental_div_mod_converse(q * mm - u, mm as int, q - 1, 0);
                assert((qx as int) % (mm as int) == 0);
                assert(s == 0);
            }
            if qx > inv {
                assert(next_coeff(q, x as nat, inv as nat, mm) == t2);
            } else {
                assert(q * mm >= mm) by (nonlinear_arith)
                    requires
                        q >= 1,
                        mm >= 1,
                ;
                assert(abs(t2) >= mm);
                assert(abs(t2) == mm);
                assert(!(m > 1));
            }
        }
    }
}

/// `x * p <= m` exactly when `p <= m / x`.
pub proof fn lemma_product_fits(x: nat, p: nat, m: nat)
    requires
        x > 0,
    ensures
        (p > m / x) == (x * p > m),
{
    vstd::arithmetic::div_mod::lemma_fundamental_div_mod(m as int, x as int);
    vstd::arithmetic::div_mod::lemma_mod_bound(m as int, x as int);
    let q = m / x;
    if p > q {
        assert(x * p >= x * (q + 1)) by (nonlinear_arith)
            requires
                p >= q + 1,
        ;
        assert(x * (q + 1) == x * q + x) by (nonlinear_arith);
    } else {
        assert(x * p <= x * q) by (nonlinear_arith)
            requires
                p <= q,
        ;
    }
}

} // verus!
