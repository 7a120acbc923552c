//! Unsigned 512-bit integers, held as eight little-endian 64-bit limbs.
//!
//! The arithmetic itself is done by `primitive_types::U512`; each operation that
//! the library uses is reached through one small trusted wrapper whose contract
//! states the operation on the numbers that the limbs stand for.
use primitive_types::U512;
use vstd::arithmetic::power2::pow2;
use vstd::prelude::*;

verus! {

/// 2^64, the weight of one limb.
pub open spec fn word() -> nat {
    0x1_0000_0000_0000_0000nat
}

/// 2^512, one more than the largest value of a `Uint512`.
pub open spec fn uint512_bound() -> nat {
    0x1_0000_0000_0000_0000_0000_0000_0000_0000_0000_0000_0000_0000_0000_0000_0000_0000_0000_0000_0000_0000_0000_0000_0000_0000_0000_0000_0000_0000_0000_0000_0000_0000nat
}

/// The number of bits needed to write `n`; 0 for 0.
pub open spec fn bit_length(n: nat) -> nat
    decreases n,
{
    if n == 0 {
        0
    } else {
        1 + bit_length(n / 2)
    }
}

/// Bitwise conjunction of two numbers.
pub open spec fn bit_and(a: nat, b: nat) -> nat
    decreases a,
{
    if a == 0 || b == 0 {
        0
    } else {
        bit_and(a / 2, b / 2) * 2 + (a % 2) * (b % 2)
    }
}

/// The number that bytes write in big-endian order.
pub open spec fn be_value(bytes: Seq<u8>) -> nat
    decreases bytes.len(),
{
    if bytes.len() == 0 {
        0
    } else {
        be_value(bytes.drop_last()) * 256 + bytes.last() as nat
    }
}

/// The `len` bytes that write `n` modulo `256^len` in big-endian order.
pub open spec fn be_bytes(n: nat, len: nat) -> Seq<u8>
    decreases len,
{
    if len == 0 {
        seq![]
    } else {
        be_bytes(n / 256, (len - 1) as nat).push((n % 256) as u8)
    }
}

pub open spec fn hex_char(d: nat) -> char {
    if d < 10 {
        ((d + 48) as u8) as char
    } else {
        ((d + 87) as u8) as char
    }
}

/// The lower case hexadecimal digits of a positive number, without leading zeros.
pub open spec fn hex_digits(n: nat) -> Seq<char>
    decreases n,
{
    if n == 0 {
        seq![]
    } else {
        hex_digits(n / 16).push(hex_char(n % 16))
    }
}

/// The lower case hexadecimal form of a number: `0` for zero.
pub open spec fn lower_hex(n: nat) -> Seq<char> {
    if n == 0 {
        seq!['0']
    } else {
        hex_digits(n)
    }
}

pub open spec fn is_hex_digit(c: char) -> bool {
    ('0' <= c && c <= '9') || ('a' <= c && c <= 'f') || ('A' <= c && c <= 'F')
}

pub open spec fn hex_digit_value(c: char) -> nat {
    if '0' <= c && c <= '9' {
        (c as int - '0' as int) as nat
    } else if 'a' <= c && c <= 'f' {
        (c as int - 'a' as int + 10) as nat
    } else {
        (c as int - 'A' as int + 10) as nat
    }
}

/// The number written by hexadecimal digits.
pub open spec fn hex_value(s: Seq<char>) -> nat
    decreases s.len(),
{
    if s.len() == 0 {
        0
    } else {
        hex_value(s.drop_last()) * 16 + hex_digit_value(s.last())
    }
}

/// The hexadecimal digits of a string that may start with `0x`.
pub open spec fn hex_body(s: Seq<char>) -> Seq<char> {
    if s.len() >= 2 && s[0] == '0' && s[1] == 'x' {
        s.skip(2)
    } else {
        s
    }
}

/// What `U512` reads as a hexadecimal number: an optional `0x`, then at most 128
/// hexadecimal digits.
pub open spec fn valid_hex_u512(s: Seq<char>) -> bool {
    hex_body(s).len() <= 128 && forall|i: int|
        0 <= i < hex_body(s).len() ==> is_hex_digit(#[trigger] hex_body(s)[i])
}

/// A 512-bit unsigned integer: `l0` is the least significant limb.
#[derive(Clone, Copy, Debug)]
pub struct Uint512 {
    pub l0: u64,
    pub l1: u64,
    pub l2: u64,
    pub l3: u64,
    pub l4: u64,
    pub l5: u64,
    pub l6: u64,
    pub l7: u64,
}

impl View for Uint512 {
    type V = nat;

    open spec fn view(&self) -> nat {
        self.l0 as nat + word() * (self.l1 as nat + word() * (self.l2 as nat + word() * (
        self.l3 as nat + word() * (self.l4 as nat + word() * (self.l5 as nat + word() * (
        self.l6 as nat + word() * (self.l7 as nat)))))))
    }
}

/// Every value is below 2^512.
pub proof fn lemma_uint512_bound(a: Uint512)
    ensures
        a@ < uint512_bound(),
{
    let w = word();
    let v6 = a.l6 + w * a.l7;
    let v5 = a.l5 + w * v6;
    let v4 = a.l4 + w * v5;
    let v3 = a.l3 + w * v4;
    let v2 = a.l2 + w * v3;
    let v1 = a.l1 + w * v2;
    assert(v6 < w * w) by (nonlinear_arith)
        requires
            v6 == a.l6 + w * a.l7,
            a.l6 < w,
            a.l7 < w,
            w > 0,
    ;
    assert(v5 < w * w * w) by (nonlinear_arith)
        requires
            v5 == a.l5 + w * v6,
            a.l5 < w,
            v6 < w * w,
            w > 0,
    ;
    assert(v4 < w * w * w * w) by (nonlinear_arith)
        requires
            v4 == a.l4 + w * v5,
            a.l4 < w,
            v5 < w * w * w,
            w > 0,
    ;
    assert(v3 < w * w * w * w * w) by (nonlinear_arith)
        requires
            v3 == a.l3 + w * v4,
            a.l3 < w,
            v4 < w * w * w * w,
            w > 0,
    ;
    assert(v2 < w * w * w * w * w * w) by (nonlinear_arith)
        requires
            v2 == a.l2 + w * v3,
            a.l2 < w,
            v3 < w * w * w * w * w,
            w > 0,
    ;
    assert(v1 < w * w * w * w * w * w * w) by (nonlinear_arith)
        requires
            v1 == a.l1 + w * v2,
            a.l1 < w,
            v2 < w * w * w * w * w * w,
            w > 0,
    ;
    assert(a@ < w * w * w * w * w * w * w * w) by (nonlinear_arith)
        requires
            a@ == a.l0 + w * v1,
            a.l0 < w,
            v1 < w * w * w * w * w * w * w,
            w > 0,
    ;
    assert(w * w * w * w * w * w * w * w == uint512_bound()) by (nonlinear_arith)
        requires
            w == word(),
    ;
}

/// A number below 2^64 is its low limb.
pub proof fn lemma_small_value(a: Uint512)
    requires
        a@ < word(),
    ensures
        a@ == a.l0,
{
    let w = word();
    let rest = a.l1 as nat + w * (a.l2 as nat + w * (a.l3 as nat + w * (a.l4 as nat + w * (
    a.l5 as nat + w * (a.l6 as nat + w * (a.l7 as nat))))));
    assert(a@ == a.l0 + w * rest);
    if rest > 0 {
        assert(w * rest >= w) by (nonlinear_arith)
            requires
                rest >= 1,
                w > 0,
        ;
    }
}

impl Uint512 {
    /// The limbs, least significant first, as `U512` holds them.
    pub fn to_limbs(&self) -> (limbs: [u64; 8])
        ensures
            limbs@ == seq![self.l0, self.l1, self.l2, self.l3, self.l4, self.l5, self.l6, self.l7],
    {
        [self.l0, self.l1, self.l2, self.l3, self.l4, self.l5, self.l6, self.l7]
    }

    /// The number whose limbs, least significant first, are `limbs`.
    pub fn from_limbs(limbs: [u64; 8]) -> (r: Self)
        ensures
            seq![r.l0, r.l1, r.l2, r.l3, r.l4, r.l5, r.l6, r.l7] == limbs@,
    {
        Uint512 {
            l0: limbs[0],
            l1: limbs[1],
            l2: limbs[2],
            l3: limbs[3],
            l4: limbs[4],
            l5: limbs[5],
            l6: limbs[6],
            l7: limbs[7],
        }
    }

    /// The number `v`.
    pub fn from_u64(v: u64) -> (r: Self)
        ensures
            r@ == v,
    {
        Uint512 { l0: v, l1: 0, l2: 0, l3: 0, l4: 0, l5: 0, l6: 0, l7: 0 }
    }

    /// The number `v`.
    pub fn from_u128(v: u128) -> (r: Self)
        ensures
            r@ == v,
    {
        let low = v as u64;
        let high = (v >> 64u32) as u64;
        assert(v == low + word() * high) by (bit_vector)
            requires
                low == v as u64,
                high == (v >> 64u32) as u64,
                word() == 0x1_0000_0000_0000_0000nat,
        ;
        Uint512 { l0: low, l1: high, l2: 0, l3: 0, l4: 0, l5: 0, l6: 0, l7: 0 }
    }

    /// The number 0.
    pub fn zero() -> (r: Self)
        ensures
            r@ == 0,
    {
        Self::from_u64(0)
    }

    /// The number 1.
    pub fn one() -> (r: Self)
        ensures
            r@ == 1,
    {
        Self::from_u64(1)
    }

    /// 2^512 - 1, the largest value.
    pub fn max_value() -> (r: Self)
        ensures
            r@ == uint512_bound() - 1,
    {
        let m = u64::MAX;
        Uint512 { l0: m, l1: m, l2: m, l3: m, l4: m, l5: m, l6: m, l7: m }
    }
}

impl Uint512 {
    /// `a + b`, through `<U512 as Add>::add`, which panics when the sum does not fit.
    #[verifier::external_body]
    pub(crate) fn plus(&self, b: &Uint512) -> (r: Uint512)
        requires
            self@ + b@ < uint512_bound(),
        ensures
            r@ == self@ + b@,
    {
        Uint512::from_limbs((U512(self.to_limbs()) + U512(b.to_limbs())).0)
    }

    /// `a - b`, through `<U512 as Sub>::sub`, which panics when `b > a`.
    #[verifier::external_body]
    pub(crate) fn minus(&self, b: &Uint512) -> (r: Uint512)
        requires
            self@ >= b@,
        ensures
            r@ == self@ - b@,
    {
        Uint512::from_limbs((U512(self.to_limbs()) - U512(b.to_limbs())).0)
    }

    /// `a * b`, through `<U512 as Mul>::mul`, which panics when the product does not fit.
    #[verifier::external_body]
    pub(crate) fn times(&self, b: &Uint512) -> (r: Uint512)
        requires
            self@ * b@ < uint512_bound(),
        ensures
            r@ == self@ * b@,
    {
        Uint512::from_limbs((U512(self.to_limbs()) * U512(b.to_limbs())).0)
    }

    /// `a / b` rounded down, through `<U512 as Div>::div`, which panics when `b` is zero.
    #[verifier::external_body]
    pub(crate) fn quotient(&self, b: &Uint512) -> (r: Uint512)
        requires
            b@ != 0,
        ensures
            r@ == self@ / b@,
    {
        Uint512::from_limbs((U512(self.to_limbs()) / U512(b.to_limbs())).0)
    }

    /// `a % b`, through `<U512 as Rem>::rem`, which panics when `b` is zero.
    #[verifier::external_body]
    pub(crate) fn remainder(&self, b: &Uint512) -> (r: Uint512)
        requires
            b@ != 0,
        ensures
            r@ == self@ % b@,
    {
        Uint512::from_limbs((U512(self.to_limbs()) % U512(b.to_limbs())).0)
    }

    /// Whether `a > b`, through `<U512 as PartialOrd>::gt`.
    #[verifier::external_body]
    pub(crate) fn is_greater(&self, b: &Uint512) -> (r: bool)
        ensures
            r == (self@ > b@),
    {
        U512(self.to_limbs()) > U512(b.to_limbs())
    }

    /// Whether `a == b`, through `<U512 as PartialEq>::eq`.
    #[verifier::external_body]
    pub(crate) fn is_equal(&self, b: &Uint512) -> (r: bool)
        ensures
            r == (self@ == b@),
    {
        U512(self.to_limbs()) == U512(b.to_limbs())
    }

    /// The number of bits of the number, through `U512::bits`.
    #[verifier::external_body]
    pub(crate) fn bits(&self) -> (r: usize)
        ensures
            r == bit_length(self@),
    {
        U512(self.to_limbs()).bits()
    }

    /// `self >> k`, through `<U512 as Shr>::shr`.
    #[verifier::external_body]
    pub(crate) fn shr(&self, k: usize) -> (r: Uint512)
        ensures
            r@ == self@ / pow2(k as nat),
    {
        Uint512::from_limbs((U512(self.to_limbs()) >> k).0)
    }

    /// `self << k`, through `<U512 as Shl>::shl`, which drops the bits beyond 512.
    #[verifier::external_body]
    pub(crate) fn shl(&self, k: usize) -> (r: Uint512)
        ensures
            r@ == (self@ * pow2(k as nat)) % uint512_bound(),
    {
        Uint512::from_limbs((U512(self.to_limbs()) << k).0)
    }

    /// `self & b`, through `<U512 as BitAnd>::bitand`.
    #[verifier::external_body]
    pub(crate) fn bitand(&self, b: &Uint512) -> (r: Uint512)
        ensures
            r@ == bit_and(self@, b@),
    {
        Uint512::from_limbs((U512(self.to_limbs()) & U512(b.to_limbs())).0)
    }

    /// The number that at most 64 bytes write in big-endian order, through
    /// `U512::from_big_endian`, which panics on more bytes.
    #[verifier::external_body]
    pub(crate) fn from_big_endian(bytes: &[u8]) -> (r: Uint512)
        requires
            bytes@.len() <= 64,
        ensures
            r@ == be_value(bytes@),
    {
        Uint512::from_limbs(U512::from_big_endian(bytes).0)
    }

    /// The 64 big-endian bytes of the number, through `U512::to_big_endian`.
    #[verifier::external_body]
    pub(crate) fn to_big_endian(&self) -> (r: Vec<u8>)
        ensures
            r@ == be_bytes(self@, 64),
    {
        let mut bytes = vec![0u8; 64];
        U512(self.to_limbs()).to_big_endian(&mut bytes);
        bytes
    }

    /// The lower case hexadecimal form, through `<U512 as LowerHex>::fmt` with `{:x}`.
    #[verifier::external_body]
    pub(crate) fn to_lower_hex(&self) -> (r: String)
        ensures
            r@ == lower_hex(self@),
    {
        format!("{:x}", U512(self.to_limbs()))
    }

    /// The number that a hexadecimal string writes, through `U512::from_str_radix`
    /// with radix 16: an optional `0x`, then at most 128 hexadecimal digits of
    /// either case; `None` where it reports an error.
    #[verifier::external_body]
    pub(crate) fn try_from_hex_str(s: &str) -> (r: Option<Uint512>)
        ensures
            r.is_some() == valid_hex_u512(s@),
            r matches Some(v) ==> v@ == hex_value(hex_body(s@)),
    {
        match U512::from_str_radix(s, 16) {
            Ok(v) => Some(Uint512::from_limbs(v.0)),
            Err(_) => None,
        }
    }
}

} // verus!
