//! Double-precision numbers as IEEE-754 bit patterns: order, whole values and
//! rounding of integers, all in integer arithmetic.

use vstd::prelude::*;

verus! {

/// 2^52, the weight of the lowest exponent bit of a double.
pub const FRACTION: u64 = 0x10_0000_0000_0000;

/// 2^63, the weight of the sign bit of a double.
pub const SIGN: u64 = 0x8000_0000_0000_0000;

/// The magnitude bits of an infinity; above it lie the NaNs.
pub const INFINITY: u64 = 0x7ff0_0000_0000_0000;

/// A double-precision number, by its bit pattern. `==` compares the patterns;
/// [`Double::equals`] compares the numbers.
#[derive(Clone, Copy, Debug, PartialEq, Eq, Structural)]
pub struct Double {
    /// The IEEE-754 bit pattern.
    pub bits: u64,
}

/// 2 to the power `k`.
pub open spec fn two_to(k: nat) -> nat
    decreases k,
{
    if k == 0 {
        1
    } else {
        2 * two_to((k - 1) as nat)
    }
}

/// Powers of two grow with the exponent.
pub proof fn lemma_two_to_grows(j: nat, k: nat)
    requires
        j <= k,
    ensures
        0 < two_to(j) <= two_to(k),
    decreases k,
{
    if j < k {
        lemma_two_to_grows(j, (k - 1) as nat);
    } else if k > 0 {
        lemma_two_to_grows((k - 1) as nat, (k - 1) as nat);
    }
}

/// 2^52 and 2^53, computed.
pub proof fn lemma_two_to_52()
    ensures
        two_to(52) == FRACTION,
        two_to(53) == 2 * FRACTION,
{
    reveal_with_fuel(two_to, 54);
}

/// A number below the divisor is its own remainder.
proof fn lemma_small_rest(a: int, p: int)
    requires
        0 <= a < p,
    ensures
        a % p == a,
        a / p == 0,
{
    assert(a % p == a && a / p == 0) by (nonlinear_arith)
        requires
            0 <= a < p,
    ;
}

impl Double {
    /// Whether the sign bit is set.
    pub open spec fn negative(self) -> bool {
        self.bits >= SIGN
    }

    /// The bits below the sign.
    pub open spec fn magnitude(self) -> int {
        self.bits as int % SIGN as int
    }

    /// Not a number.
    pub open spec fn is_nan(self) -> bool {
        self.magnitude() > INFINITY
    }

    /// Neither infinite nor NaN.
    pub open spec fn is_finite(self) -> bool {
        self.magnitude() < INFINITY
    }

    /// The position of the number in the order of doubles; both zeros share one.
    pub open spec fn rank(self) -> int {
        if self.negative() {
            -self.magnitude()
        } else {
            self.magnitude()
        }
    }

    /// Numeric equality: false as soon as one side is NaN.
    pub open spec fn same(self, other: Double) -> bool {
        !self.is_nan() && !other.is_nan() && self.rank() == other.rank()
    }

    /// Numeric order: false as soon as one side is NaN.
    pub open spec fn below(self, other: Double) -> bool {
        !self.is_nan() && !other.is_nan() && self.rank() < other.rank()
    }

    /// The biased exponent.
    pub open spec fn exponent(self) -> int {
        self.magnitude() / FRACTION as int
    }

    /// The significand, with the hidden bit of a normal number.
    pub open spec fn significand(self) -> int {
        let f = self.magnitude() % FRACTION as int;
        if self.exponent() == 0 {
            f
        } else {
            f + FRACTION
        }
    }

    /// The power of two that scales the significand.
    pub open spec fn scale(self) -> int {
        if self.exponent() == 0 {
            -1074
        } else {
            self.exponent() - 1075
        }
    }

    /// The absolute value, where it is a whole number.
    pub open spec fn whole_magnitude(self) -> Option<int> {
        if !self.is_finite() {
            None
        } else if self.scale() >= 0 {
            Some(self.significand() * two_to(self.scale() as nat))
        } else if self.significand() % (two_to((-self.scale()) as nat) as int) == 0 {
            Some(self.significand() / (two_to((-self.scale()) as nat) as int))
        } else {
            None
        }
    }

    /// The value, where it is a whole number.
    pub open spec fn whole(self) -> Option<int> {
        match self.whole_magnitude() {
            Some(m) => Some(
                if self.negative() {
                    -m
                } else {
                    m
                },
            ),
            None => None,
        }
    }

    /// Neither zero nor NaN.
    pub open spec fn truthy(self) -> bool {
        !self.is_nan() && self.rank() != 0
    }

    /// The bits below the sign.
    fn mag(&self) -> (r: u64)
        ensures
            r == self.magnitude(),
    {
        self.bits % SIGN
    }

    /// Whether the number is NaN.
    pub fn nan(&self) -> (r: bool)
        ensures
            r == self.is_nan(),
    {
        self.mag() > INFINITY
    }

    /// Whether the number is neither infinite nor NaN.
    pub fn finite(&self) -> (r: bool)
        ensures
            r == self.is_finite(),
    {
        self.mag() < INFINITY
    }

    /// Whether the number counts as true: neither zero nor NaN.
    pub fn is_truthy(&self) -> (r: bool)
        ensures
            r == self.truthy(),
    {
        !self.nan() && self.mag() != 0
    }

    /// Numeric equality.
    pub fn equals(&self, other: &Double) -> (r: bool)
        ensures
            r == self.same(*other),
    {
        if self.nan() || other.nan() {
            return false;
        }
        self.bits == other.bits || (self.mag() == 0 && other.mag() == 0)
    }

    /// Numeric order.
    pub fn less(&self, other: &Double) -> (r: bool)
        ensures
            r == self.below(*other),
    {
        if self.nan() || other.nan() {
            return false;
        }
        let a = self.mag();
        let b = other.mag();
        if self.bits >= SIGN {
            if other.bits >= SIGN {
                a > b
            } else {
                a != 0 || b != 0
            }
        } else {
            if other.bits >= SIGN {
                false
            } else {
                a < b
            }
        }
    }

    /// The value as an integer, where it is whole and below 10^15 in absolute
    /// value.
    pub fn small_int(&self) -> (r: Option<i64>)
        ensures
            r matches Some(i) ==> self.whole() == Some(i as int) && -1_000_000_000_000_000 < i
                < 1_000_000_000_000_000,
            r is None ==> (self.whole() matches Some(i) ==> i <= -1_000_000_000_000_000 || i
                >= 1_000_000_000_000_000),
    {
        let mag = self.mag();
        if mag >= INFINITY {
            return None;
        }
        let e = mag / FRACTION;
        let f = mag % FRACTION;
        proof {
            lemma_two_to_52();
        }
        if e == 0 {
            proof {
                lemma_two_to_grows(53, 1074);
                lemma_small_rest(f as int, two_to(1074) as int);
            }
            if f == 0 {
                return Some(0);
            }
            return None;
        }
        let m = f + FRACTION;
        if e >= 1075 {
            proof {
                lemma_two_to_grows(0, (e - 1075) as nat);
                assert(m * two_to((e - 1075) as nat) >= m) by (nonlinear_arith)
                    requires
                        two_to((e - 1075) as nat) >= 1,
                ;
            }
            return None;
        }
        let k = 1075 - e;
        if k > 52 {
            proof {
                lemma_two_to_grows(53, k as nat);
                lemma_small_rest(m as int, two_to(k as nat) as int);
            }
            return None;
        }
        let p = power(k);
        if m % p != 0 {
            return None;
        }
        let q = m / p;
        assert(q <= m) by (nonlinear_arith)
            requires
                q == m / p,
                p >= 1,
        ;
        if q >= 1_000_000_000_000_000 {
            return None;
        }
        if self.bits >= SIGN {
            Some(-(q as i64))
        } else {
            Some(q as i64)
        }
    }

    /// The value as an index below `len`, where it is whole and in range.
    pub fn index_below(&self, len: usize) -> (r: Option<usize>)
        ensures
            r matches Some(i) ==> self.whole() == Some(i as int) && i < len,
            r is None ==> (self.whole() matches Some(i) ==> i < 0 || i >= len),
    {
        match self.small_int() {
            Some(i) => {
                if i >= 0 && (i as u64) < (len as u64) {
                    Some(i as usize)
                } else {
                    None
                }
            },
            None => {
                let mag = self.mag();
                let e = mag / FRACTION;
                if mag >= INFINITY || self.bits >= SIGN || e == 0 {
                    proof {
                        self.lemma_whole_sign();
                        if e == 0 && mag < INFINITY {
                            lemma_two_to_52();
                            lemma_two_to_grows(53, 1074);
                            lemma_small_rest(self.significand(), two_to(1074) as int);
                        }
                    }
                    return None;
                }
                let m = mag % FRACTION + FRACTION;
                proof {
                    lemma_two_to_52();
                }
                if e < 1075 {
                    let k = 1075 - e;
                    if k > 52 {
                        proof {
                            lemma_two_to_grows(53, k as nat);
                            lemma_small_rest(m as int, two_to(k as nat) as int);
                        }
                        return None;
                    }
                    let p = power(k);
                    if m % p != 0 {
                        return None;
                    }
                    let q = m / p;
                    if q < len as u64 {
                        return Some(q as usize);
                    }
                    return None;
                }
                scaled_below(m, e - 1075, len)
            },
        }
    }

    /// A negative double has no positive whole value.
    proof fn lemma_whole_sign(self)
        ensures
            self.negative() ==> (self.whole() matches Some(i) ==> i <= 0),
            self.negative() && self.whole() == Some(0int) ==> self.magnitude() == 0
                || self.whole_magnitude() == Some(0int),
    {
        if self.is_finite() {
            let m = self.significand();
            if self.scale() >= 0 {
                lemma_two_to_grows(0, self.scale() as nat);
                assert(m * two_to(self.scale() as nat) >= 0) by (nonlinear_arith)
                    requires
                        m >= 0,
                        two_to(self.scale() as nat) >= 0,
                ;
            } else {
                let p = two_to((-self.scale()) as nat) as int;
                lemma_two_to_grows(0, (-self.scale()) as nat);
                assert(m / p >= 0) by (nonlinear_arith)
                    requires
                        m >= 0,
                        p > 0,
                ;
            }
        }
    }
}

/// 2 to the power `k`.
fn power(k: u64) -> (r: u64)
    requires
        k <= 62,
    ensures
        r == two_to(k as nat),
        r >= 1,
{
    let mut p: u64 = 1;
    let mut i: u64 = 0;
    while i < k
        invariant
            i <= k <= 62,
            p == two_to(i as nat),
            p >= 1,
        decreases k - i,
    {
        proof {
            lemma_two_to_grows((i + 1) as nat, 62);
            reveal_with_fuel(two_to, 63);
        }
        p = p * 2;
        i += 1;
    }
    p
}

/// `m` times 2^`k`, where that lies below `len`.
fn scaled_below(m: u64, k: u64, len: usize) -> (r: Option<usize>)
    ensures
        r matches Some(i) ==> i == m * two_to(k as nat) && i < len,
        r is None ==> m * two_to(k as nat) >= len,
{
    let mut v: u64 = m;
    let mut i: u64 = 0;
    assert(m * two_to(0) == m) by (nonlinear_arith)
        requires
            two_to(0) == 1,
    ;
    while i < k
        invariant
            i <= k,
            v == m * two_to(i as nat),
        decreases k - i,
    {
        proof {
            lemma_two_to_grows((i + 1) as nat, k as nat);
            assert(m * two_to((i + 1) as nat) == 2 * (m * two_to(i as nat))) by (nonlinear_arith)
                requires
                    two_to((i + 1) as nat) == 2 * two_to(i as nat),
            ;
            assert(m * two_to((i + 1) as nat) <= m * two_to(k as nat)) by (nonlinear_arith)
                requires
                    two_to((i + 1) as nat) <= two_to(k as nat),
                    m >= 0,
            ;
        }
        if v > 0x7fff_ffff_ffff_ffff {
            return None;
        }
        v = v * 2;
        i += 1;
    }
    if v < len as u64 {
        Some(v as usize)
    } else {
        None
    }
}

// ---------------------------------------------------------------------------
// Integers as doubles
// ---------------------------------------------------------------------------

/// The position of the highest bit of `m`.
pub open spec fn log2(m: nat) -> nat
    decreases m,
{
    if m <= 1 {
        0
    } else {
        1 + log2(m / 2)
    }
}

/// `m` over `u`, rounded to the nearest whole number, ties to even.
pub open spec fn rounded(m: nat, u: nat) -> nat {
    if 2 * (m % u) > u || (2 * (m % u) == u && (m / u) % 2 == 1) {
        m / u + 1
    } else {
        m / u
    }
}

/// The magnitude bits of the double nearest to `m`.
pub open spec fn nat_bits(m: nat) -> nat {
    if m == 0 {
        0
    } else {
        let e = log2(m);
        let q = if e <= 52 {
            m * two_to((52 - e) as nat)
        } else {
            rounded(m, two_to((e - 52) as nat))
        };
        ((1023 + e) * FRACTION + q - FRACTION) as nat
    }
}

/// The double nearest to the integer `i`, ties to even.
pub open spec fn int_double(i: int) -> Double {
    if i < 0 {
        Double { bits: (SIGN + nat_bits((-i) as nat)) as u64 }
    } else {
        Double { bits: nat_bits(i as nat) as u64 }
    }
}

/// The power of two at or below `m` tells the position of its highest bit.
proof fn lemma_log2(m: nat, e: nat)
    requires
        two_to(e) <= m < 2 * two_to(e),
    ensures
        log2(m) == e,
    decreases e,
{
    if e > 0 {
        lemma_log2(m / 2, (e - 1) as nat);
    }
}

/// The magnitude bits of the double nearest to `m`.
pub fn magnitude_bits(m: u64) -> (r: u64)
    requires
        m <= SIGN,
    ensures
        r == nat_bits(m as nat),
        r < SIGN,
{
    if m == 0 {
        return 0;
    }
    let mut e: u64 = 0;
    let mut p: u64 = 1;
    while p <= m / 2
        invariant
            p == two_to(e as nat),
            1 <= p <= m <= SIGN,
            e <= 63,
        decreases m - p,
    {
        if e >= 63 {
            proof {
                reveal_with_fuel(two_to, 64);
            }
            assert(false);
        }
        p = p * 2;
        e += 1;
    }
    proof {
        lemma_log2(m as nat, e as nat);
        lemma_two_to_52();
    }
    let q: u64 = if e <= 52 {
        let f = power(52 - e);
        proof {
            lemma_two_to_sum(e as nat, (52 - e) as nat);
            assert(m * f < 2 * FRACTION && m * f >= FRACTION) by (nonlinear_arith)
                requires
                    p <= m,
                    m < 2 * p,
                    p * f == FRACTION,
                    f >= 1,
            ;
        }
        m * f
    } else {
        let u = power(e - 52);
        let q = m / u;
        let r = m % u;
        proof {
            lemma_two_to_sum(52, (e - 52) as nat);
            assert(FRACTION <= q && q < 2 * FRACTION) by (nonlinear_arith)
                requires
                    q == m / u,
                    FRACTION * u <= m,
                    m < 2 * (FRACTION * u),
                    u >= 1,
            ;
            reveal_with_fuel(two_to, 12);
            lemma_two_to_grows((e - 52) as nat, 11);
            assert(r < u) by (nonlinear_arith)
                requires
                    r == m % u,
                    u >= 1,
            ;
        }
        if 2 * r > u || (2 * r == u && q % 2 == 1) {
            q + 1
        } else {
            q
        }
    };
    (1023 + e) * FRACTION + (q - FRACTION)
}

/// The double nearest to an integer.
pub fn from_int(i: i64) -> (r: Double)
    ensures
        r == int_double(i as int),
{
    if i < 0 {
        Double { bits: SIGN + magnitude_bits((-(i as i128)) as u64) }
    } else {
        Double { bits: magnitude_bits(i as u64) }
    }
}

/// The product of two powers of two.
pub proof fn lemma_two_to_sum(a: nat, b: nat)
    ensures
        two_to(a) * two_to(b) == two_to(a + b),
    decreases a,
{
    if a > 0 {
        lemma_two_to_sum((a - 1) as nat, b);
        let x = two_to((a - 1) as nat);
        let y = two_to(b);
        assert((2 * x) * y == 2 * (x * y)) by (nonlinear_arith);
        assert(two_to(a) == 2 * x);
        assert(two_to(a + b) == 2 * two_to((a + b - 1) as nat));
    } else {
        assert(two_to(0) == 1);
        assert(1 * two_to(b) == two_to(b)) by (nonlinear_arith);
    }
}

// ---------------------------------------------------------------------------
// Laws
// ---------------------------------------------------------------------------

/// Every integer up to 2^53 in absolute value is held exactly.
pub proof fn law_small_integers_are_exact(i: int)
    requires
        -2 * FRACTION < i < 2 * FRACTION,
    ensures
        int_double(i).whole() == Some(i),
{
    let m: nat = if i < 0 {
        (-i) as nat
    } else {
        i as nat
    };
    lemma_two_to_52();
    if m == 0 {
        lemma_two_to_grows(53, 1074);
        assert(0int % (two_to(1074) as int) == 0) by (nonlinear_arith)
            requires
                two_to(1074) > 0,
        ;
        assert(0int / (two_to(1074) as int) == 0) by (nonlinear_arith)
            requires
                two_to(1074) > 0,
        ;
    } else {
        lemma_log2_bounds(m);
        let e = log2(m);
        if e > 52 {
            lemma_two_to_grows(53, e);
        }
        let f = two_to((52 - e) as nat);
        lemma_two_to_grows(0, (52 - e) as nat);
        lemma_two_to_sum(e, (52 - e) as nat);
        assert(FRACTION <= m * f < 2 * FRACTION) by (nonlinear_arith)
            requires
                two_to(e) <= m,
                m < 2 * two_to(e),
                two_to(e) * f == FRACTION,
                f >= 1,
        ;
        let d = int_double(i);
        let b = nat_bits(m);
        assert(b == (1023 + e) * FRACTION + (m * f - FRACTION));
        assert(d.magnitude() == b);
        assert(d.exponent() == 1023 + e);
        assert(d.significand() == m * f);
        let s = d.significand();
        assert(s % (f as int) == 0 && s / (f as int) == m) by (nonlinear_arith)
            requires
                f >= 1,
                s == m * f,
        ;
        if e == 52 {
            assert(two_to(0) == 1);
            assert(s * two_to(0) == m) by (nonlinear_arith)
                requires
                    two_to(0) == 1,
                    s == m * f,
                    f == 1,
            ;
        }
    }
}

/// A double that is a small whole number is the one that holds that number, but
/// for the sign of a zero.
pub proof fn lemma_same_whole(d: Double, i: int)
    requires
        d.whole() == Some(i),
        -1_000_000_000_000_000 < i < 1_000_000_000_000_000,
    ensures
        int_double(i).same(d),
{
    let m = d.whole_magnitude()->Some_0;
    let s = d.significand();
    let e = d.exponent();
    let mag = d.magnitude();
    lemma_two_to_52();
    assert(mag == e * FRACTION + mag % FRACTION as int);
    if e == 0 {
        lemma_two_to_grows(53, 1074);
        lemma_small_rest(s, two_to(1074) as int);
        assert(mag == 0);
        assert(i == 0);
    } else if d.scale() >= 0 {
        let p = two_to(d.scale() as nat);
        lemma_two_to_grows(0, d.scale() as nat);
        assert(s * p >= s) by (nonlinear_arith)
            requires
                p >= 1,
                s >= 0,
        ;
        assert(false);
    } else {
        let k = (-d.scale()) as nat;
        let p = two_to(k) as int;
        lemma_two_to_grows(0, k);
        if k > 52 {
            lemma_two_to_grows(53, k);
            lemma_small_rest(s, p);
            assert(false);
        }
        assert(s == m * p) by (nonlinear_arith)
            requires
                s % p == 0,
                m == s / p,
                p >= 1,
        ;
        assert(m >= 1) by (nonlinear_arith)
            requires
                s == m * p,
                s >= FRACTION,
                p >= 1,
        ;
        let a = m as nat;
        lemma_log2_bounds(a);
        let l = log2(a);
        let t = two_to(l);
        lemma_two_to_sum(l, k);
        assert(t * p <= s < 2 * (t * p)) by (nonlinear_arith)
            requires
                t <= m,
                m < 2 * t,
                s == m * p,
                p >= 1,
        ;
        if l + k < 52 {
            lemma_two_to_grows((l + k + 1) as nat, 52);
            assert(two_to((l + k + 1) as nat) == 2 * two_to((l + k) as nat));
            assert(false);
        }
        if l + k > 52 {
            lemma_two_to_grows(53, (l + k) as nat);
            assert(false);
        }
        assert(k == 52 - l);
        assert(nat_bits(a) == (1023 + l) * FRACTION + (a * two_to((52 - l) as nat) - FRACTION));
        assert(nat_bits(a) == mag);
        let x = int_double(i);
        assert(x.magnitude() == mag);
    }
}

/// The highest bit of a number bounds it on both sides.
pub proof fn lemma_log2_bounds(m: nat)
    requires
        m >= 1,
    ensures
        two_to(log2(m)) <= m < 2 * two_to(log2(m)),
    decreases m,
{
    if m > 1 {
        lemma_log2_bounds(m / 2);
    } else {
        assert(two_to(0) == 1);
    }
}

/// Numeric order is strict, total and agrees with numeric equality, on numbers
/// that are not NaN.
pub proof fn law_numeric_order_is_total(a: Double, b: Double, c: Double)
    requires
        !a.is_nan(),
        !b.is_nan(),
        !c.is_nan(),
    ensures
        a.same(a),
        a.same(b) == b.same(a),
        a.below(b) || a.same(b) || b.below(a),
        !(a.below(b) && b.below(a)),
        a.below(b) ==> !a.same(b),
        a.below(b) && b.below(c) ==> a.below(c),
{
}

/// A NaN equals nothing and is ordered with nothing.
pub proof fn law_nan_compares_with_nothing(a: Double, b: Double)
    requires
        a.is_nan(),
    ensures
        !a.same(b),
        !b.same(a),
        !a.below(b),
        !b.below(a),
{
}

/// The numbers that stand for integers order as the integers do.
pub proof fn law_integers_keep_their_order(i: int, j: int)
    requires
        -2 * FRACTION < i < 2 * FRACTION,
        -2 * FRACTION < j < 2 * FRACTION,
    ensures
        int_double(i).below(int_double(j)) <==> i < j,
        int_double(i).same(int_double(j)) <==> i == j,
        !int_double(i).is_nan(),
{
    lemma_int_rank(i);
    lemma_int_rank(j);
    let a: nat = if i < 0 {
        (-i) as nat
    } else {
        i as nat
    };
    let b: nat = if j < 0 {
        (-j) as nat
    } else {
        j as nat
    };
    if a < b {
        lemma_bits_grow(a, b);
    } else if b < a {
        lemma_bits_grow(b, a);
    }
}

proof fn lemma_bits_bound(m: nat)
    requires
        m < 2 * FRACTION,
    ensures
        nat_bits(m) < INFINITY,
        m > 0 ==> log2(m) <= 52,
        m > 0 ==> FRACTION <= m * two_to((52 - log2(m)) as nat) < 2 * FRACTION,
        m > 0 ==> nat_bits(m) == (1023 + log2(m)) * FRACTION + m * two_to((52 - log2(m)) as nat)
            - FRACTION,
        m > 0 ==> nat_bits(m) > 0,
{
    lemma_two_to_52();
    if m > 0 {
        let e = log2(m);
        lemma_log2_bounds(m);
        if e > 52 {
            lemma_two_to_grows(53, e);
        }
        let t = two_to((52 - e) as nat);
        let p = two_to(e);
        lemma_two_to_sum(e, (52 - e) as nat);
        lemma_two_to_grows(0, (52 - e) as nat);
        assert(p * t <= m * t < 2 * (p * t)) by (nonlinear_arith)
            requires
                p <= m < 2 * p,
                t > 0,
        ;
        assert((1023 + e) * FRACTION <= 1075 * FRACTION) by (nonlinear_arith)
            requires
                e <= 52,
        ;
        assert((1023 + e) * FRACTION >= 1023 * FRACTION) by (nonlinear_arith)
            requires
                e >= 0,
        ;
    }
}

proof fn lemma_bits_grow(a: nat, b: nat)
    requires
        a < b < 2 * FRACTION,
    ensures
        nat_bits(a) < nat_bits(b),
{
    lemma_bits_bound(a);
    lemma_bits_bound(b);
    if a > 0 {
        let e = log2(a);
        let f = log2(b);
        lemma_log2_bounds(a);
        lemma_log2_bounds(b);
        if e > f {
            lemma_two_to_grows(f + 1, e);
            assert(two_to(f + 1) == 2 * two_to(f));
        }
        if e == f {
            let t = two_to((52 - e) as nat);
            lemma_two_to_grows(0, (52 - e) as nat);
            assert(a * t < b * t) by (nonlinear_arith)
                requires
                    a < b,
                    t > 0,
            ;
        } else {
            assert((1023 + e) * FRACTION + FRACTION <= (1023 + f) * FRACTION) by (nonlinear_arith)
                requires
                    e + 1 <= f,
            ;
        }
    }
}

proof fn lemma_int_rank(i: int)
    requires
        -2 * FRACTION < i < 2 * FRACTION,
    ensures
        int_double(i).rank() == (if i < 0 {
            -nat_bits((-i) as nat)
        } else {
            nat_bits(i as nat) as int
        }),
        !int_double(i).is_nan(),
        i != 0 ==> int_double(i).rank() != 0,
        i == 0 ==> int_double(i).rank() == 0,
        i > 0 ==> int_double(i).rank() > 0,
        i < 0 ==> int_double(i).rank() < 0,
{
    let m: nat = if i < 0 {
        (-i) as nat
    } else {
        i as nat
    };
    lemma_bits_bound(m);
    let b = nat_bits(m) as int;
    let s = SIGN as int;
    assert(b % s == b && (b + s) % s == b) by (nonlinear_arith)
        requires
            0 <= b < s,
    ;
}

/// The bits of a number are its sign, its exponent and its fraction, and it is the
/// whole number that its significand gives when scaled, where there is one.
pub proof fn law_bits_and_whole_numbers(d: Double, m: int)
    ensures
        d.bits == (if d.negative() {
            SIGN as int
        } else {
            0int
        }) + d.exponent() * FRACTION + d.magnitude() % FRACTION as int,
        0 <= d.exponent() < 2048,
        d.exponent() > 0 ==> d.significand() == FRACTION + d.magnitude() % FRACTION as int,
        d.exponent() == 0 ==> d.significand() == d.magnitude() % FRACTION as int,
        d.is_finite() && d.exponent() < 1075 && d.exponent() > 0 ==> (d.whole_magnitude() == Some(m)
            <==> m * two_to((1075 - d.exponent()) as nat) == d.significand()),
        d.is_finite() && d.exponent() >= 1075 ==> d.whole_magnitude() == Some(
            d.significand() * two_to((d.exponent() - 1075) as nat),
        ),
        d.whole_magnitude() matches Some(x) ==> d.whole() == Some(
            if d.bits >= SIGN {
                -x
            } else {
                x
            },
        ),
{
    let b = d.bits as int;
    let s = SIGN as int;
    let mag = d.magnitude();
    let f = FRACTION as int;
    if b < s {
        assert(b % s == b) by (nonlinear_arith)
            requires
                0 <= b < s,
        ;
    } else {
        assert(b % s == b - s) by (nonlinear_arith)
            requires
                s <= b < 2 * s,
        ;
    }
    assert(mag == (mag / f) * f + mag % f && 0 <= mag / f < 2048) by (nonlinear_arith)
        requires
            0 <= mag < 2048 * f,
            f > 0,
    ;
    if d.is_finite() && d.exponent() < 1075 && d.exponent() > 0 {
        let t = two_to((1075 - d.exponent()) as nat) as int;
        let g = d.significand();
        lemma_two_to_grows(0, (1075 - d.exponent()) as nat);
        assert((m * t == g) <==> (g % t == 0 && g / t == m)) by (nonlinear_arith)
            requires
                t > 0,
        ;
    }
}

/// Rounding takes the nearest multiple, and the even one of two that are as near.
pub proof fn law_rounding_is_to_the_nearest(m: nat, u: nat)
    requires
        u > 0,
    ensures
        2 * (rounded(m, u) * u - m) <= u,
        2 * (m - rounded(m, u) * u) <= u,
        2 * (rounded(m, u) * u - m) == u || 2 * (m - rounded(m, u) * u) == u ==> rounded(m, u) % 2
            == 0,
{
    let q = m / u;
    let r = m % u;
    assert(m == q * u + r && 0 <= r < u) by (nonlinear_arith)
        requires
            q == m / u,
            r == m % u,
            u > 0,
    ;
    assert((q + 1) * u == q * u + u) by (nonlinear_arith);
}

} // verus!
