//! Human readable decimal amounts and their quantum (integer) representation.
use primitive_types::U512;
use vstd::prelude::*;

use crate::uint::{uint512_bound, Uint512};

verus! {

pub open spec fn is_digit(c: char) -> bool {
    '0' <= c && c <= '9'
}

pub open spec fn all_digits(s: Seq<char>) -> bool {
    forall|i: int| 0 <= i < s.len() ==> is_digit(#[trigger] s[i])
}

pub open spec fn digit_value(c: char) -> nat {
    (c as int - '0' as int) as nat
}

/// The number that a string of decimal digits writes; the empty string writes 0.
pub open spec fn decimal_value(s: Seq<char>) -> nat
    decreases s.len(),
{
    if s.len() == 0 {
        0
    } else {
        decimal_value(s.drop_last()) * 10 + digit_value(s.last())
    }
}

pub open spec fn pow10(n: nat) -> nat
    decreases n,
{
    if n == 0 {
        1
    } else {
        10 * pow10((n - 1) as nat)
    }
}

pub open spec fn zeros(n: nat) -> Seq<char> {
    Seq::new(n, |i: int| '0')
}

pub open spec fn has_dot(s: Seq<char>) -> bool {
    exists|i: int| 0 <= i < s.len() && s[i] == '.'
}

pub open spec fn is_first_dot(s: Seq<char>, i: int) -> bool {
    0 <= i < s.len() && s[i] == '.' && forall|j: int| 0 <= j < i ==> s[j] != '.'
}

/// The position of the first decimal point.
pub open spec fn dot_index(s: Seq<char>) -> int {
    choose|i: int| is_first_dot(s, i)
}

/// The digits of an amount: the amount with its first decimal point taken out.
pub open spec fn amount_digits(s: Seq<char>) -> Seq<char> {
    if has_dot(s) {
        s.take(dot_index(s)) + s.skip(dot_index(s) + 1)
    } else {
        s
    }
}

/// The number of characters after the first decimal point (0 without one).
pub open spec fn frac_len(s: Seq<char>) -> nat {
    if has_dot(s) {
        (s.len() - dot_index(s) - 1) as nat
    } else {
        0
    }
}

/// `amount * 10^decimals` for a decimal amount with at most `decimals` fractional digits.
pub open spec fn quantum_value(s: Seq<char>, decimals: nat) -> nat {
    decimal_value(amount_digits(s)) * pow10((decimals - frac_len(s)) as nat)
}

/// The amount can be converted: no more fractional digits than `decimals`, digits
/// only besides the decimal point, and a result that fits 512 bits.
pub open spec fn quantum_amount_valid(s: Seq<char>, decimals: nat) -> bool {
    &&& frac_len(s) <= decimals
    &&& all_digits(amount_digits(s))
    &&& quantum_value(s, decimals) < uint512_bound()
}

/// Appending `n` zeros multiplies by `10^n` and keeps a string of digits.
pub proof fn lemma_append_zeros(s: Seq<char>, n: nat)
    ensures
        decimal_value(s + zeros(n)) == decimal_value(s) * pow10(n),
        all_digits(s) ==> all_digits(s + zeros(n)),
    decreases n,
{
    if n == 0 {
        assert(s + zeros(0) =~= s);
        assert(pow10(0) == 1);
        assert(decimal_value(s) * pow10(n) == decimal_value(s));
    } else {
        lemma_append_zeros(s, (n - 1) as nat);
        let t = s + zeros((n - 1) as nat);
        assert((s + zeros(n)).drop_last() =~= t);
        assert((s + zeros(n)).last() == '0');
        assert(digit_value('0') == 0);
        assert(decimal_value(s + zeros(n)) == decimal_value(t) * 10);
        let (a, b, c, d) = (decimal_value(s + zeros(n)), decimal_value(t), decimal_value(s), pow10(
            (n - 1) as nat,
        ));
        assert(a == c * pow10(n)) by (nonlinear_arith)
            requires
                a == b * 10,
                b == c * d,
                pow10(n) == 10 * d,
        ;
        if all_digits(s) {
            assert forall|i: int| 0 <= i < (s + zeros(n)).len() implies is_digit(
                #[trigger] (s + zeros(n))[i],
            ) by {
                if i < s.len() {
                    assert((s + zeros(n))[i] == s[i]);
                }
            }
        }
    }
}

/// A string of digits followed by zeros is made of digits only where the string is.
proof fn lemma_digits_of_append_zeros(s: Seq<char>, n: nat)
    ensures
        all_digits(s + zeros(n)) == all_digits(s),
{
    lemma_append_zeros(s, n);
    if all_digits(s + zeros(n)) {
        assert forall|i: int| 0 <= i < s.len() implies is_digit(#[trigger] s[i]) by {
            assert((s + zeros(n))[i] == s[i]);
        }
    }
}

/// One more decimal multiplies a quantum amount by ten.
pub proof fn lemma_quantum_value_scales(s: Seq<char>, decimals: nat)
    requires
        frac_len(s) <= decimals,
    ensures
        quantum_value(s, decimals + 1) == 10 * quantum_value(s, decimals),
{
    let k = (decimals - frac_len(s)) as nat;
    assert((decimals + 1 - frac_len(s)) as nat == k + 1);
    assert(pow10(k + 1) == 10 * pow10(k));
    let v = decimal_value(amount_digits(s));
    assert(v * (10 * pow10(k)) == 10 * (v * pow10(k))) by (nonlinear_arith);
}

/// The first decimal point is unique, so `dot_index` names the one that a scan finds.
proof fn lemma_dot_index(s: Seq<char>, i: int)
    requires
        is_first_dot(s, i),
    ensures
        has_dot(s),
        dot_index(s) == i,
{
    let k = dot_index(s);
    assert(is_first_dot(s, k));
    if k < i {
        assert(s[k] != '.');
    }
    if i < k {
        assert(s[i] != '.');
    }
}

/// The position of the first decimal point of `s`, if there is one.
pub fn find_dot(s: &str) -> (r: Option<usize>)
    ensures
        match r {
            Some(i) => is_first_dot(s@, i as int),
            None => !has_dot(s@),
        },
{
    let n = s.unicode_len();
    let mut i: usize = 0;
    while i < n
        invariant
            n == s@.len(),
            i <= n,
            forall|j: int| 0 <= j < i ==> s@[j] != '.',
        decreases n - i,
    {
        if s.get_char(i) == '.' {
            return Some(i);
        }
        i = i + 1;
    }
    None
}

/// The number that a string writes in decimal, through `U512::from_dec_str`, which
/// fails on a character other than a decimal digit and on a number of more than
/// 512 bits.
#[verifier::external_body]
fn try_from_dec_str(digits: &str) -> (r: Option<Uint512>)
    ensures
        r.is_some() == (all_digits(digits@) && decimal_value(digits@) < uint512_bound()),
        r matches Some(v) ==> v@ == decimal_value(digits@),
{
    match U512::from_dec_str(digits) {
        Ok(v) => Some(Uint512::from_limbs(v.0)),
        Err(_) => None,
    }
}

/// `s` followed by `n` zeros.
fn append_zeros(s: &mut String, n: usize)
    ensures
        final(s)@ == old(s)@ + zeros(n as nat),
{
    proof {
        reveal_strlit("0");
    }
    let mut k: usize = 0;
    while k < n
        invariant
            k <= n,
            s@ == old(s)@ + zeros(k as nat),
        decreases n - k,
    {
        let ghost before = s@;
        s.append("0");
        proof {
            reveal_strlit("0");
            assert("0"@ =~= seq!['0']);
            assert(before =~= old(s)@ + zeros(k as nat));
            assert(s@ =~= old(s)@ + zeros((k + 1) as nat));
        }
        k = k + 1;
    }
}

/// The digits of an amount and the number of its fractional digits.
fn split_amount(amount: &str) -> (r: (String, usize))
    ensures
        r.0@ == amount_digits(amount@),
        r.1 == frac_len(amount@),
{
    match find_dot(amount) {
        Some(index) => {
            proof {
                lemma_dot_index(amount@, index as int);
            }
            let len = amount.unicode_len();
            let mut digits = String::from_str(amount.substring_char(0, index));
            digits.append(amount.substring_char(index + 1, len));
            assert(amount@.subrange(0, index as int) =~= amount@.take(index as int));
            assert(amount@.subrange(index + 1, len as int) =~= amount@.skip(index + 1));
            (digits, len - index - 1)
        },
        None => (String::from_str(amount), 0),
    }
}

/// Converts a human readable amount to its quantum representation: the amount
/// times `10^decimals`.
pub fn quantum_amount(human_amount: String, decimals: usize) -> (r: Uint512)
    requires
        quantum_amount_valid(human_amount@, decimals as nat),
    ensures
        r@ == quantum_value(human_amount@, decimals as nat),
{
    match try_quantum_amount(human_amount, decimals) {
        Some(v) => v,
        None => Uint512::zero(),
    }
}

/// The quantum representation of an amount where it can be had: `None` exactly
/// when the amount has more fractional digits than `decimals`, holds a character
/// other than a digit besides its first decimal point, or does not fit 512 bits.
pub fn try_quantum_amount(human_amount: String, decimals: usize) -> (r: Option<Uint512>)
    ensures
        r is Some <==> quantum_amount_valid(human_amount@, decimals as nat),
        r matches Some(v) ==> v@ == quantum_value(human_amount@, decimals as nat),
{
    let (mut normalized, rest) = split_amount(human_amount.as_str());
    if rest > decimals {
        return None;
    }
    let new_zeros = decimals - rest;
    let ghost digits = normalized@;
    append_zeros(&mut normalized, new_zeros);
    proof {
        lemma_append_zeros(digits, new_zeros as nat);
        lemma_digits_of_append_zeros(digits, new_zeros as nat);
    }
    try_from_dec_str(normalized.as_str())
}

/// How many zeros the price receives: `decimals` less the fractional digits of the
/// price and of the size, with the subtractions wrapping around as `usize` does.
pub open spec fn usd_zeros(price: Seq<char>, size: Seq<char>, decimals: usize) -> usize {
    decimals.wrapping_sub(frac_len(price) as usize).wrapping_sub(frac_len(size) as usize)
}

/// How many zeros the price of a USD amount receives; see `usd_zeros`. More than
/// 100 means that the amount is left to floating point.
pub fn usd_zero_count(price: &str, size: &str, decimals: usize) -> (r: usize)
    ensures
        r == usd_zeros(price@, size@, decimals),
{
    let (_, price_frac) = split_amount(price);
    let (_, size_frac) = split_amount(size);
    decimals.wrapping_sub(price_frac).wrapping_sub(size_frac)
}

/// The quantum value of a USD amount: price times size, scaled to `decimals`.
pub open spec fn quantum_usd_value(price: Seq<char>, size: Seq<char>, decimals: usize) -> nat {
    decimal_value(amount_digits(price)) * pow10(usd_zeros(price, size, decimals) as nat)
        * decimal_value(amount_digits(size))
}

/// The conversion of a USD amount can be done on integers: at most 100 zeros are
/// to be added, both amounts are digits besides their decimal points, and the
/// numbers and their product fit 512 bits.
pub open spec fn quantum_usd_valid(price: Seq<char>, size: Seq<char>, decimals: usize) -> bool {
    usd_zeros(price, size, decimals) <= 100 ==> {
        &&& all_digits(amount_digits(price))
        &&& all_digits(amount_digits(size))
        &&& decimal_value(amount_digits(price)) * pow10(usd_zeros(price, size, decimals) as nat)
            < uint512_bound()
        &&& decimal_value(amount_digits(size)) < uint512_bound()
        &&& quantum_usd_value(price, size, decimals) < uint512_bound()
    }
}

/// Converts a USD amount, given as a price and a size, to its quantum representation.
///
/// When more than 100 zeros would have to be added (which is what the wrapping
/// subtraction yields when the amounts have more fractional digits than
/// `decimals`), the conversion is left to floating point and `None` is returned.
pub fn quantum_amount_usd(price: String, size: String, decimals: usize) -> (r: Option<Uint512>)
    requires
        quantum_usd_valid(price@, size@, decimals),
    ensures
        r is None <==> usd_zeros(price@, size@, decimals) > 100,
        r matches Some(v) ==> v@ == quantum_usd_value(price@, size@, decimals),
{
    let (mut normalized_price, price_frac) = split_amount(price.as_str());
    let (normalized_size, size_frac) = split_amount(size.as_str());
    let mut decimals_left = decimals;
    decimals_left = decimals_left.wrapping_sub(price_frac);
    decimals_left = decimals_left.wrapping_sub(size_frac);
    if decimals_left > 100 {
        return None;
    }
    let ghost digits = normalized_price@;
    append_zeros(&mut normalized_price, decimals_left);
    proof {
        lemma_append_zeros(digits, decimals_left as nat);
    }
    let p = match try_from_dec_str(normalized_price.as_str()) {
        Some(p) => p,
        None => {
            return None;
        },
    };
    let s = match try_from_dec_str(normalized_size.as_str()) {
        Some(s) => s,
        None => {
            return None;
        },
    };
    Some(p.times(&s))
}

/// The quantum USD amount of an order: the exact conversion of price times size
/// where at most 100 zeros are added, else `fallback`, the amount that floating
/// point gives; `None` where the exact conversion is owed but cannot be done.
pub open spec fn usd_amount_result(price: Seq<char>, size: Seq<char>, decimals: usize, fallback: nat) -> Option<nat> {
    if usd_zeros(price, size, decimals) > 100 {
        Some(fallback)
    } else if quantum_usd_valid(price, size, decimals) {
        Some(quantum_usd_value(price, size, decimals))
    } else {
        None
    }
}

/// The quantum USD amount of an order, checked: see `usd_amount_result`.
pub fn order_usd_amount(price: String, size: String, decimals: usize, fallback: u128) -> (r: Option<Uint512>)
    ensures
        match usd_amount_result(price@, size@, decimals, fallback as nat) {
            Some(v) => r matches Some(a) && a@ == v,
            None => r is None,
        },
{
    let (mut normalized_price, price_frac) = split_amount(price.as_str());
    let (normalized_size, size_frac) = split_amount(size.as_str());
    let mut decimals_left = decimals;
    decimals_left = decimals_left.wrapping_sub(price_frac);
    decimals_left = decimals_left.wrapping_sub(size_frac);
    if decimals_left > 100 {
        return Some(Uint512::from_u128(fallback));
    }
    let ghost digits = normalized_price@;
    append_zeros(&mut normalized_price, decimals_left);
    proof {
        lemma_append_zeros(digits, decimals_left as nat);
        lemma_digits_of_append_zeros(digits, decimals_left as nat);
    }
    let p = match try_from_dec_str(normalized_price.as_str()) {
        Some(p) => p,
        None => {
            return None;
        },
    };
    let s = match try_from_dec_str(normalized_size.as_str()) {
        Some(s) => s,
        None => {
            return None;
        },
    };
    if s.is_equal(&Uint512::zero()) {
        return Some(Uint512::zero());
    }
    let max = Uint512::max_value();
    let limit = max.quotient(&s);
    proof {
        crate::arith::lemma_product_fits(s@, p@, max@);
    }
    if p.is_greater(&limit) {
        return None;
    }
    Some(p.times(&s))
}

/// The digits of an unsigned integer: the text without one leading `+`.
pub open spec fn unsigned_digits(s: Seq<char>) -> Seq<char> {
    if s.len() > 0 && s[0] == '+' {
        s.skip(1)
    } else {
        s
    }
}

/// What `u64::from_str` reads: an optional `+`, then at least one decimal digit,
/// for a number that fits 64 bits.
pub open spec fn parse_u64_spec(s: Seq<char>) -> Option<u64> {
    let d = unsigned_digits(s);
    if d.len() > 0 && all_digits(d) && decimal_value(d) <= u64::MAX {
        Some(decimal_value(d) as u64)
    } else {
        None
    }
}

/// A prefix of a string writes a number no larger than the whole string does.
proof fn lemma_decimal_prefix(s: Seq<char>, j: int)
    requires
        0 <= j <= s.len(),
    ensures
        decimal_value(s.take(j)) <= decimal_value(s),
    decreases s.len() - j,
{
    if j < s.len() {
        lemma_decimal_prefix(s, j + 1);
        assert(s.take(j + 1).drop_last() =~= s.take(j));
    } else {
        assert(s.take(j) =~= s);
    }
}

/// Reads an unsigned 64-bit integer as `u64::from_str` does; `None` where that
/// reports an error.
pub fn parse_u64(s: &str) -> (r: Option<u64>)
    ensures
        r == parse_u64_spec(s@),
{
    let n = s.unicode_len();
    let mut start: usize = 0;
    if n > 0 && s.get_char(0) == '+' {
        start = 1;
    }
    let ghost d = unsigned_digits(s@);
    assert(d =~= s@.skip(start as int));
    if start == n {
        return None;
    }
    let mut value: u64 = 0;
    let mut i = start;
    while i < n
        invariant
            start <= i <= n,
            start < n,
            n == s@.len(),
            d == s@.skip(start as int),
            d == unsigned_digits(s@),
            all_digits(d.take(i - start)),
            value == decimal_value(d.take(i - start)),
        decreases n - i,
    {
        let c = s.get_char(i);
        let ghost k = i - start;
        assert(d[k] == c);
        assert(d.take(k + 1).drop_last() =~= d.take(k));
        assert(d.take(k + 1).last() == c);
        if !('0' <= c && c <= '9') {
            return None;
        }
        let digit = (c as u32 - '0' as u32) as u64;
        let next = match value.checked_mul(10) {
            Some(v) => v.checked_add(digit),
            None => None,
        };
        match next {
            Some(v) => {
                value = v;
            },
            None => {
                proof {
                    assert(decimal_value(d.take(k + 1)) == value * 10 + digit);
                    lemma_decimal_prefix(d, k + 1);
                }
                return None;
            },
        }
        assert forall|j: int| 0 <= j < k + 1 implies is_digit(#[trigger] d.take(k + 1)[j]) by {
            if j < k {
                assert(d.take(k + 1)[j] == d.take(k)[j]);
            }
        }
        i = i + 1;
    }
    assert(d.take(n - start) =~= d);
    Some(value)
}

} // verus!
