//! IEEE 754 binary64 values as bit patterns: the value nearest to a 64-bit integer, as
//! `as f64` gives it, and the value nearest to a `u32` over `u32::MAX`.
use vstd::prelude::*;

verus! {

pub open spec fn two_pow(e: nat) -> nat
    decreases e,
{
    if e == 0 { 1 } else { 2 * two_pow((e - 1) as nat) }
}

/// The number of significant bits of a natural number.
pub open spec fn bit_len(m: nat) -> nat
    decreases m,
{
    if m == 0 { 0 } else { 1 + bit_len(m / 2) }
}

/// The bit pattern of a binary64 value from its sign, biased exponent and fraction.
pub open spec fn float_bits(neg: bool, exp: nat, frac: nat) -> int {
    (if neg { two_pow(63) as int } else { 0 }) + exp * two_pow(52) + frac
}

/// The binary64 value nearest to `n`, ties to even: what `n as f64` yields.
pub open spec fn int_to_float_spec(n: i64) -> u64 {
    if n == 0 {
        0
    } else {
        let neg = n < 0;
        let m: nat = if n < 0 { (-n) as nat } else { n as nat };
        let l = bit_len(m);
        if l <= 53 {
            float_bits(neg, (l - 1 + 1023) as nat, (m * two_pow((53 - l) as nat) - two_pow(52)) as nat) as u64
        } else {
            let p = two_pow((l - 53) as nat);
            let q = m / p;
            let r = m % p;
            let half = p / 2;
            let q1 = if r > half || (r == half && q % 2 == 1) { q + 1 } else { q };
            if q1 == two_pow(53) {
                float_bits(neg, (l + 1023) as nat, 0) as u64
            } else {
                float_bits(neg, (l - 1 + 1023) as nat, (q1 - two_pow(52)) as nat) as u64
            }
        }
    }
}

proof fn lemma_two_pow_adds(a: nat, b: nat)
    ensures
        two_pow(a) * two_pow(b) == two_pow(a + b),
    decreases a,
{
    if a > 0 {
        let a1 = (a - 1) as nat;
        lemma_two_pow_adds(a1, b);
        let x = two_pow(a1);
        let y = two_pow(b);
        assert(two_pow(a) == 2 * x);
        assert(a1 + b == (a + b - 1) as nat);
        assert(two_pow(a + b) == 2 * two_pow(a1 + b));
        assert((2 * x) * y == 2 * (x * y)) by (nonlinear_arith);
        assert(two_pow(a) * two_pow(b) == two_pow(a + b));
    } else {
        assert(two_pow(a) == 1);
        assert(1 * two_pow(b) == two_pow(b));
    }
}

proof fn lemma_two_pow_pos(a: nat)
    ensures
        two_pow(a) >= 1,
    decreases a,
{
    if a > 0 {
        lemma_two_pow_pos((a - 1) as nat);
    }
}

proof fn lemma_two_pow_mono(a: nat, b: nat)
    requires
        a <= b,
    ensures
        two_pow(a) <= two_pow(b),
    decreases b,
{
    if a < b {
        lemma_two_pow_mono(a, (b - 1) as nat);
        lemma_two_pow_pos((b - 1) as nat);
    }
}

proof fn lemma_bit_len_bounds(m: nat)
    requires
        m > 0,
    ensures
        bit_len(m) >= 1,
        two_pow((bit_len(m) - 1) as nat) <= m < two_pow(bit_len(m)),
    decreases m,
{
    if m / 2 > 0 {
        lemma_bit_len_bounds(m / 2);
    } else {
        assert(m == 1);
        assert(bit_len(0) == 0);
    }
}

proof fn lemma_bit_len_le(m: nat, k: nat)
    requires
        m < two_pow(k),
    ensures
        bit_len(m) <= k,
    decreases m,
{
    if m > 0 {
        assert(k > 0);
        lemma_bit_len_le(m / 2, (k - 1) as nat);
    }
}

proof fn lemma_two_pow_constants()
    ensures
        two_pow(52) == 0x10_0000_0000_0000nat,
        two_pow(53) == 0x20_0000_0000_0000nat,
        two_pow(63) == 0x8000_0000_0000_0000nat,
        two_pow(64) == 0x1_0000_0000_0000_0000nat,
{
    reveal_with_fuel(two_pow, 65);
}

fn pow2_exec(e: u64) -> (p: u64)
    requires
        e <= 63,
    ensures
        p == two_pow(e as nat),
{
    let mut p: u64 = 1;
    let mut i: u64 = 0;
    while i < e
        invariant
            i <= e <= 63,
            p == two_pow(i as nat),
        decreases e - i,
    {
        proof {
            lemma_two_pow_mono((i + 1) as nat, 63);
            lemma_two_pow_constants();
        }
        p = p * 2;
        i += 1;
    }
    p
}

/// The binary64 bit pattern of the value nearest to `n` (what `n as f64` yields).
pub fn int_to_float_bits(n: i64) -> (r: u64)
    ensures
        r == int_to_float_spec(n),
{
    if n == 0 {
        return 0;
    }
    let neg = n < 0;
    let m: u64 = if n == i64::MIN { 0x8000_0000_0000_0000u64 } else if n < 0 { (-n) as u64 } else { n as u64 };
    assert(m as nat == (if n < 0 { (-n) as nat } else { n as nat }));
    proof {
        lemma_two_pow_constants();
        lemma_bit_len_le(m as nat, 64);
    }
    // Count the significant bits.
    let mut l: u64 = 0;
    let mut t: u64 = m;
    while t > 0
        invariant
            bit_len(m as nat) == l + bit_len(t as nat),
            l <= 64,
            t <= m,
            l + bit_len(t as nat) <= 64,
        decreases t,
    {
        t = t / 2;
        l += 1;
    }
    proof {
        lemma_bit_len_bounds(m as nat);
        lemma_two_pow_constants();
        lemma_bit_len_le(m as nat, 64);
    }
    let sign: u64 = if neg { 0x8000_0000_0000_0000u64 } else { 0 };
    let ghost two52: nat = two_pow(52);
    proof {
        lemma_two_pow_constants();
    }
    if l <= 53 {
        let p = pow2_exec(53 - l);
        proof {
            lemma_two_pow_adds((l - 1) as nat, (53 - l) as nat);
            lemma_two_pow_adds(l as nat, (53 - l) as nat);
            assert(m * p >= two_pow((l - 1) as nat) * p) by (nonlinear_arith)
                requires m >= two_pow((l - 1) as nat);
            assert(m * p < two_pow(l as nat) * p) by (nonlinear_arith)
                requires m < two_pow(l as nat), p >= 1;
            lemma_two_pow_pos((53 - l) as nat);
        }
        let frac = m * p - 0x10_0000_0000_0000u64;
        let exp = l - 1 + 1023;
        assert(exp * 0x10_0000_0000_0000u64 <= 1075 * 0x10_0000_0000_0000u64) by (nonlinear_arith)
            requires exp <= 1075;
        sign + exp * 0x10_0000_0000_0000u64 + frac
    } else {
        let p = pow2_exec(l - 53);
        proof {
            lemma_two_pow_pos((l - 53) as nat);
        }
        let q = m / p;
        let r = m % p;
        let half = p / 2;
        let q1 = if r > half || (r == half && q % 2 == 1) { q + 1 } else { q };
        proof {
            lemma_two_pow_adds((l - 53) as nat, 52);
            lemma_two_pow_adds((l - 53) as nat, 53);
            assert(q >= two_pow(52)) by (nonlinear_arith)
                requires m >= two_pow((l - 1) as nat), two_pow((l - 1) as nat) == two_pow(52) * p,
                    q == m / p, p >= 1;
            assert(q < two_pow(53)) by (nonlinear_arith)
                requires m < two_pow(l as nat), two_pow(l as nat) == two_pow(53) * p, q == m / p, p >= 1;
        }
        if q1 == 0x20_0000_0000_0000u64 {
            let exp = l + 1023;
            assert(exp * 0x10_0000_0000_0000u64 <= 1087 * 0x10_0000_0000_0000u64) by (nonlinear_arith)
                requires exp <= 1087;
            sign + exp * 0x10_0000_0000_0000u64
        } else {
            let exp = l - 1 + 1023;
            assert(exp * 0x10_0000_0000_0000u64 <= 1086 * 0x10_0000_0000_0000u64) by (nonlinear_arith)
                requires exp <= 1086;
            sign + exp * 0x10_0000_0000_0000u64 + (q1 - 0x10_0000_0000_0000u64)
        }
    }
}


/// `n * 2^k / (2^32 - 1)` rounded to the nearest integer (there are no ties: the divisor
/// is odd).
pub open spec fn scaled_fraction(n: nat, k: nat) -> int {
    ((2 * n * two_pow(k) + 4294967295) / (2 * 4294967295)) as int
}

/// The least scale from `k` up to 84 at which `scaled_fraction` has 53 bits.
pub open spec fn fraction_scale(n: nat, k: nat) -> nat
    decreases 84 - k,
{
    if k >= 84 || scaled_fraction(n, k) >= two_pow(52) { k } else { fraction_scale(n, k + 1) }
}

/// The binary64 value nearest to `n / (2^32 - 1)`, what `n as f64 / u32::MAX as f64`
/// yields: zero, or the 53-bit integer nearest to `n * 2^k / (2^32 - 1)` at the least scale
/// `k` that gives one, times `2^-k`.
pub open spec fn unit_fraction_spec(n: u32) -> u64 {
    if n == 0 {
        0
    } else {
        let k = fraction_scale(n as nat, 52);
        float_bits(false, (1075 - k) as nat, (scaled_fraction(n as nat, k) - two_pow(52)) as nat) as u64
    }
}

proof fn lemma_two_pow_84()
    ensures
        two_pow(84) == 19342813113834066795298816nat,
{
    reveal_with_fuel(two_pow, 85);
}

/// The bound that ends the search for a scale: at scale 84 every nonzero `n` has 53 bits.
proof fn lemma_scale_84(n: nat)
    requires
        1 <= n <= 4294967295,
    ensures
        scaled_fraction(n, 84) >= two_pow(52),
{
    lemma_two_pow_84();
    lemma_two_pow_constants();
    let p = two_pow(84);
    let x = 2 * n * p + 4294967295;
    assert(x >= two_pow(52) * (2 * 4294967295)) by (nonlinear_arith)
        requires n >= 1, p == 19342813113834066795298816nat, x == 2 * n * p + 4294967295,
            two_pow(52) == 0x10_0000_0000_0000nat;
    assert(x / (2 * 4294967295) >= two_pow(52)) by (nonlinear_arith)
        requires x >= two_pow(52) * (2 * 4294967295);
}

/// At the least scale the rounded value stays below 2^53.
proof fn lemma_scale_top(n: nat, k: nat)
    requires
        1 <= n <= 4294967295,
        52 <= k,
        k == 52 || scaled_fraction(n, (k - 1) as nat) < two_pow(52),
    ensures
        scaled_fraction(n, k) < two_pow(53),
{
    lemma_two_pow_constants();
    let d: int = 4294967295;
    let t52 = two_pow(52) as int;
    let p = two_pow(k) as int;
    let x = 2 * n * p + d;
    if k == 52 {
        assert(x < two_pow(53) * (2 * d)) by (nonlinear_arith)
            requires n <= d, p == t52, t52 == 0x10_0000_0000_0000, x == 2 * n * p + d,
                two_pow(53) == 0x20_0000_0000_0000nat, d == 4294967295;
    } else {
        let q = two_pow((k - 1) as nat) as int;
        assert(two_pow(k) == 2 * two_pow((k - 1) as nat));
        let y = 2 * n * q + d;
        assert(y / (2 * d) < t52);
        assert(y < t52 * (2 * d)) by (nonlinear_arith)
            requires y / (2 * d) < t52, d > 0, y >= 0;
        assert(x == 2 * y - d) by (nonlinear_arith)
            requires x == 2 * n * p + d, y == 2 * n * q + d, p == 2 * q;
        assert(x < two_pow(53) * (2 * d)) by (nonlinear_arith)
            requires y < t52 * (2 * d), x == 2 * y - d, two_pow(53) == 2 * t52, d > 0;
    }
    assert(x / (2 * d) < two_pow(53)) by (nonlinear_arith)
        requires x < two_pow(53) * (2 * d), d > 0;
}

/// The binary64 bit pattern of the value nearest to `n / (2^32 - 1)`.
pub fn unit_fraction_bits(n: u32) -> (r: u64)
    ensures
        r == unit_fraction_spec(n),
{
    if n == 0 {
        return 0;
    }
    proof {
        lemma_two_pow_constants();
        lemma_two_pow_84();
    }
    let d: u128 = 4294967295;
    let nn: u128 = n as u128;
    let mut k: u64 = 52;
    let mut p: u128 = 0x10_0000_0000_0000u128;
    assert(2 * nn * p + d < 0x4000_0000_0000_0000_0000_0000_0000_0000u128) by (nonlinear_arith)
        requires nn <= 4294967295, p == 0x10_0000_0000_0000u128, d == 4294967295;
    let mut m: u128 = (2 * nn * p + d) / (2 * d);
    while m < 0x10_0000_0000_0000u128 && k < 84
        invariant
            52 <= k <= 84,
            1 <= nn <= 4294967295,
            nn == n as u128,
            d == 4294967295,
            p == two_pow(k as nat),
            m == scaled_fraction(n as nat, k as nat),
            fraction_scale(n as nat, 52) == fraction_scale(n as nat, k as nat),
            k == 52 || scaled_fraction(n as nat, (k - 1) as nat) < two_pow(52),
            two_pow(52) == 0x10_0000_0000_0000nat,
            two_pow(84) == 19342813113834066795298816nat,
        decreases 84 - k,
    {
        proof {
            lemma_two_pow_mono((k + 1) as nat, 84);
            assert(two_pow((k + 1) as nat) == 2 * two_pow(k as nat));
        }
        k += 1;
        p = p * 2;
        assert(2 * nn * p + d < 0x4000_0000_0000_0000_0000_0000_0000_0000u128) by (nonlinear_arith)
            requires nn <= 4294967295, p <= 19342813113834066795298816u128, d == 4294967295;
        m = (2 * nn * p + d) / (2 * d);
    }
    proof {
        if m < 0x10_0000_0000_0000u128 {
            lemma_scale_84(n as nat);
        }
        lemma_scale_top(n as nat, k as nat);
    }
    let exp: u64 = 1075 - k;
    assert(exp * 0x10_0000_0000_0000u64 <= 1023 * 0x10_0000_0000_0000u64) by (nonlinear_arith)
        requires exp <= 1023;
    exp * 0x10_0000_0000_0000u64 + ((m as u64) - 0x10_0000_0000_0000u64)
}


/// The value nearest to a 64-bit integer is not a NaN: its exponent is at most 1087.
pub proof fn lemma_int_to_float_not_nan(n: i64)
    ensures
        !crate::object::float_is_nan(int_to_float_spec(n)),
{
    lemma_two_pow_constants();
    if n != 0 {
        let neg = n < 0;
        let m: nat = if n < 0 { (-n) as nat } else { n as nat };
        lemma_bit_len_le(m, 64);
        lemma_bit_len_bounds(m);
        let l = bit_len(m);
        let t52 = two_pow(52);
        let sign: int = if neg { two_pow(63) as int } else { 0 };
        let mut exp: int = 0;
        let mut frac: int = 0;
        if l <= 53 {
            lemma_two_pow_adds(l as nat, (53 - l) as nat);
            assert((l + (53 - l)) as nat == 53nat);
            let p = two_pow((53 - l) as nat);
            lemma_two_pow_pos((53 - l) as nat);
            assert(m * p < two_pow(l as nat) * p) by (nonlinear_arith)
                requires m < two_pow(l as nat), p >= 1;
            lemma_two_pow_adds((l - 1) as nat, (53 - l) as nat);
            assert(((l - 1) + (53 - l)) as nat == 52nat);
            assert(m * p >= two_pow((l - 1) as nat) * p) by (nonlinear_arith)
                requires m >= two_pow((l - 1) as nat);
            exp = l - 1 + 1023;
            frac = m * p - t52;
            assert(int_to_float_spec(n) == float_bits(neg, exp as nat, frac as nat) as u64);
        } else {
            let p = two_pow((l - 53) as nat);
            lemma_two_pow_pos((l - 53) as nat);
            lemma_two_pow_adds((l - 53) as nat, 53);
            lemma_two_pow_adds((l - 53) as nat, 52);
            assert(((l - 53) + 53) as nat == l);
            assert(((l - 53) + 52) as nat == (l - 1) as nat);
            let q = m / p;
            assert(q < two_pow(53)) by (nonlinear_arith)
                requires m < two_pow(l as nat), two_pow(l as nat) == p * two_pow(53), p >= 1, q == m / p;
            assert(q >= t52) by (nonlinear_arith)
                requires m >= two_pow((l - 1) as nat), two_pow((l - 1) as nat) == p * t52, p >= 1, q == m / p;
            let r = m % p;
            let half = p / 2;
            let q1 = if r > half || (r == half && q % 2 == 1) { q + 1 } else { q };
            if q1 == two_pow(53) {
                exp = (l + 1023) as int;
                frac = 0;
            } else {
                exp = l - 1 + 1023;
                frac = q1 - t52;
            }
            assert(int_to_float_spec(n) == float_bits(neg, exp as nat, frac as nat) as u64);
        }
        assert(0 <= frac < t52);
        assert(1023 <= exp <= 1087);
        assert(exp * t52 <= 1087 * t52) by (nonlinear_arith)
            requires exp <= 1087, t52 >= 0;
        assert(exp * t52 >= 0) by (nonlinear_arith)
            requires exp >= 0, t52 >= 0;
        let bits = float_bits(neg, exp as nat, frac as nat);
        assert(bits == sign + exp * t52 + frac);
        assert((bits as u64) as int == bits);
        assert(crate::object::float_magnitude(bits as u64) == exp * t52 + frac);
    }
}

} // verus!
