//! Whole numbers written as text, and text read as whole numbers.

use crate::text::{chars_of, Text};
use vstd::prelude::*;

verus! {

/// The digit with the value `d`: `0` to `9`, then `a` to `z`.
pub open spec fn digit_char(d: int) -> char {
    if d < 10 {
        ((d + 48) as u32) as char
    } else {
        ((d + 87) as u32) as char
    }
}

/// `n` in the given base, without leading zeros.
pub open spec fn digits(n: nat, base: nat) -> Text
    decreases n,
{
    if base < 2 || n < base {
        seq![digit_char(n as int)]
    } else {
        proof {
            assert(n / base < n) by (nonlinear_arith)
                requires
                    n >= base,
                    base >= 2,
            ;
        }
        digits(n / base, base).push(digit_char((n % base) as int))
    }
}

/// `n` in decimal.
pub open spec fn decimal(n: nat) -> Text {
    digits(n, 10)
}

/// `i` in decimal, with a leading minus sign where it is negative.
pub open spec fn int_text(i: int) -> Text {
    if i < 0 {
        seq!['-'] + decimal((-i) as nat)
    } else {
        decimal(i as nat)
    }
}

/// The digit with the value `d`.
fn digit(d: u128) -> (r: char)
    requires
        d < 36,
    ensures
        r == digit_char(d as int),
{
    if d < 10 {
        ((d as u8) + 48) as char
    } else {
        ((d as u8) + 87) as char
    }
}

/// Write a number in the given base.
pub fn nat_text(n: u128, base: u128) -> (r: String)
    requires
        2 <= base <= 36,
    ensures
        r@ == digits(n as nat, base as nat),
    decreases n,
{
    if n < base {
        let mut s = String::new();
        s.push(digit(n));
        assert(s@ =~= seq![digit_char(n as int)]);
        s
    } else {
        assert(n / base < n) by (nonlinear_arith)
            requires
                n >= base,
                base >= 2,
        ;
        assert(n % base < base) by (nonlinear_arith)
            requires
                base >= 2,
        ;
        let mut s = nat_text(n / base, base);
        s.push(digit(n % base));
        s
    }
}

/// Write a length in decimal.
pub fn usize_text(n: usize) -> (r: String)
    ensures
        r@ == decimal(n as nat),
{
    nat_text(n as u128, 10)
}

/// Write an integer in decimal.
pub fn i64_text(i: i64) -> (r: String)
    ensures
        r@ == int_text(i as int),
{
    if i < 0 {
        let mut s = String::new();
        s.push('-');
        assert(s@ =~= seq!['-']);
        let m = nat_text((-(i as i128)) as u128, 10);
        s.append(m.as_str());
        s
    } else {
        nat_text(i as u128, 10)
    }
}

/// The value of a digit in the given base.
pub open spec fn digit_value(c: char, base: nat) -> Option<nat> {
    let v: int = if '0' <= c <= '9' {
        c as int - 48
    } else if 'a' <= c <= 'z' {
        c as int - 87
    } else if 'A' <= c <= 'Z' {
        c as int - 55
    } else {
        1000
    };
    if v < base && v < 36 {
        Some(v as nat)
    } else {
        None
    }
}

/// The value of a run of digits in the given base; an empty run has the value 0.
pub open spec fn digits_value(s: Text, base: nat) -> Option<nat>
    decreases s.len(),
{
    if s.len() == 0 {
        Some(0)
    } else {
        match (digits_value(s.drop_last(), base), digit_value(s.last(), base)) {
            (Some(v), Some(d)) => Some(v * base + d),
            _ => None,
        }
    }
}

/// A run of digits is worth no less than what it begins with, and no run goes
/// on from something that is no run.
pub proof fn lemma_digits_prefix(s: Text, base: nat, k: int)
    requires
        0 <= k <= s.len(),
        base >= 1,
    ensures
        digits_value(s.take(k), base) is None ==> digits_value(s, base) is None,
        digits_value(s, base) matches Some(y) ==> digits_value(s.take(k), base) matches Some(x) && x <= y,
    decreases s.len() - k,
{
    if k == s.len() {
        assert(s.take(k) == s);
    } else {
        lemma_digits_prefix(s, base, k + 1);
        let t = s.take(k + 1);
        assert(t.drop_last() == s.take(k));
        match (digits_value(s.take(k), base), digit_value(t.last(), base)) {
            (Some(x), Some(d)) => {
                assert(x <= x * base + d) by (nonlinear_arith)
                    requires
                        base >= 1,
                        d >= 0,
                        x >= 0,
                ;
            },
            _ => {},
        }
    }
}

/// A value no larger than `max`.
pub open spec fn at_most(v: Option<nat>, max: nat) -> Option<nat> {
    match v {
        Some(x) => if x <= max {
            Some(x)
        } else {
            None
        },
        None => None,
    }
}

/// The optional number as a mathematical one.
pub open spec fn opt_nat(o: Option<u128>) -> Option<nat> {
    match o {
        Some(x) => Some(x as nat),
        None => None,
    }
}

/// Read `v[from..]` as digits of the given base, up to `max`.
pub fn read_digits(v: &Vec<char>, from: usize, base: u128, max: u128) -> (r: Option<u128>)
    requires
        from <= v@.len(),
        2 <= base <= 36,
    ensures
        opt_nat(r) == at_most(digits_value(v@.skip(from as int), base as nat), max as nat),
{
    let ghost s = v@.skip(from as int);
    let n = v.len();
    let mut acc: u128 = 0;
    let mut i: usize = from;
    assert(s.take(0) =~= Seq::<char>::empty());
    while i < n
        invariant
            from <= i <= n,
            n == v@.len(),
            s == v@.skip(from as int),
            2 <= base <= 36,
            acc <= max,
            digits_value(s.take(i - from), base as nat) == Some(acc as nat),
        decreases n - i,
    {
        let c = v[i];
        let ghost t = s.take(i - from + 1);
        assert(t.drop_last() == s.take(i - from));
        assert(t.last() == c);
        proof {
            lemma_digits_prefix(s, base as nat, i - from + 1);
        }
        let d: u128 = if '0' <= c && c <= '9' {
            (c as u8 - 48) as u128
        } else if 'a' <= c && c <= 'z' {
            (c as u8 - 87) as u128
        } else if 'A' <= c && c <= 'Z' {
            (c as u8 - 55) as u128
        } else {
            1000
        };
        if d >= base {
            return None;
        }
        assert(digits_value(t, base as nat) == Some((acc * base + d) as nat));
        match acc.checked_mul(base) {
            Some(m) => match m.checked_add(d) {
                Some(x) => {
                    if x > max {
                        return None;
                    }
                    acc = x;
                },
                None => {
                    return None;
                },
            },
            None => {
                return None;
            },
        }
        i += 1;
    }
    assert(s.take(n - from) == s);
    Some(acc)
}

/// A text read as an unsigned number up to `max`: digits, with an optional
/// leading plus sign.
pub open spec fn unsigned_value(s: Text, max: nat) -> Option<nat> {
    let body = if s.len() > 0 && s[0] == '+' {
        s.skip(1)
    } else {
        s
    };
    if body.len() == 0 {
        None
    } else {
        at_most(digits_value(body, 10), max)
    }
}

/// Read an unsigned decimal number up to `max`.
pub fn read_unsigned(s: &str, max: u128) -> (r: Option<u128>)
    ensures
        opt_nat(r) == unsigned_value(s@, max as nat),
{
    let v = chars_of(s);
    let from: usize = if v.len() > 0 && v[0] == '+' {
        1
    } else {
        0
    };
    assert(s@.skip(0) == s@);
    if from == v.len() {
        return None;
    }
    read_digits(&v, from, 10, max)
}

/// A text read as a signed 64-bit number of the given base: digits, with an
/// optional leading sign.
pub open spec fn signed_value(s: Text, base: nat) -> Option<int> {
    let neg = s.len() > 0 && s[0] == '-';
    let body = if s.len() > 0 && (s[0] == '-' || s[0] == '+') {
        s.skip(1)
    } else {
        s
    };
    if body.len() == 0 {
        None
    } else {
        match digits_value(body, base) {
            Some(x) => if neg {
                if x <= 0x8000_0000_0000_0000 {
                    Some(-(x as int))
                } else {
                    None
                }
            } else {
                if x < 0x8000_0000_0000_0000 {
                    Some(x as int)
                } else {
                    None
                }
            },
            None => None,
        }
    }
}

/// The optional number as a mathematical one.
pub open spec fn opt_int(o: Option<i64>) -> Option<int> {
    match o {
        Some(x) => Some(x as int),
        None => None,
    }
}

/// Read a signed 64-bit number of the given base.
pub fn read_signed(s: &str, base: u128) -> (r: Option<i64>)
    requires
        2 <= base <= 36,
    ensures
        opt_int(r) == signed_value(s@, base as nat),
{
    let v = chars_of(s);
    let neg = v.len() > 0 && v[0] == '-';
    let from: usize = if v.len() > 0 && (v[0] == '-' || v[0] == '+') {
        1
    } else {
        0
    };
    assert(s@.skip(0) == s@);
    if from == v.len() {
        return None;
    }
    if neg {
        match read_digits(&v, from, base, 0x8000_0000_0000_0000) {
            Some(x) => Some((-(x as i128)) as i64),
            None => None,
        }
    } else {
        match read_digits(&v, from, base, 0x7fff_ffff_ffff_ffff) {
            Some(x) => Some(x as i64),
            None => None,
        }
    }
}

// ---------------------------------------------------------------------------
// Laws
// ---------------------------------------------------------------------------

/// A number written in a base reads as itself, in digits that do not begin with a
/// zero.
pub proof fn law_written_numbers_read_back(n: nat, base: nat)
    requires
        2 <= base <= 36,
    ensures
        digits_value(digits(n, base), base) == Some(n),
        digits(n, base).len() > 0,
        n > 0 ==> digits(n, base)[0] != '0',
        forall|i: int|
            0 <= i < digits(n, base).len() ==> digit_value(
                #[trigger] digits(n, base)[i],
                base,
            ) is Some,
    decreases n,
{
    let ds = digits(n, base);
    if n < base {
        lemma_digit_char(n as int, base);
        assert(ds.drop_last() =~= Seq::empty());
        assert(ds.last() == digit_char(n as int));
        assert(digits_value(Seq::empty(), base) == Some(0nat));
        assert(0 * base == 0);
    } else {
        assert(n / base < n && n / base > 0 && n == (n / base) * base + n % base && n % base < base)
            by (nonlinear_arith)
            requires
                n >= base,
                base >= 2,
        ;
        law_written_numbers_read_back(n / base, base);
        lemma_digit_char((n % base) as int, base);
        let head = digits(n / base, base);
        assert(ds.drop_last() =~= head);
        assert(ds.last() == digit_char((n % base) as int));
        assert forall|i: int| 0 <= i < ds.len() implies digit_value(
            #[trigger] ds[i],
            base,
        ) is Some by {
            if i < head.len() {
                assert(ds[i] == head[i]);
            }
        }
    }
}

proof fn lemma_digit_char(d: int, base: nat)
    requires
        0 <= d < base <= 36,
    ensures
        digit_value(digit_char(d), base) == Some(d as nat),
        d > 0 ==> digit_char(d) != '0',
{
}

/// The text of an integer reads as that integer, and a sign stands before what is
/// negative alone.
pub proof fn law_integers_read_back(i: int)
    ensures
        -0x8000_0000_0000_0000 <= i < 0x8000_0000_0000_0000 ==> signed_value(int_text(i), 10)
            == Some(i),
        i >= 0 ==> int_text(i) == decimal(i as nat),
        i < 0 ==> int_text(i) == seq!['-'] + decimal((-i) as nat),
        forall|max: nat|
            0 <= i <= max ==> #[trigger] unsigned_value(decimal(i as nat), max) == Some(i as nat),
        forall|max: nat|
            i > max ==> (#[trigger] unsigned_value(decimal(i as nat), max)) is None,
{
    let n: nat = if i < 0 {
        (-i) as nat
    } else {
        i as nat
    };
    law_written_numbers_read_back(n, 10);
    let ds = decimal(n);
    assert(digit_value(ds[0], 10) is Some);
    assert(digit_value('-', 10) is None && digit_value('+', 10) is None);
    if i < 0 {
        assert(int_text(i).skip(1) =~= ds);
    }
}

/// The value of digits grows by the base with each digit; letters count from ten
/// in either case, and what is no digit of the base has no value.
pub proof fn law_digits_count_by_place(s: Text, c: char, base: nat)
    ensures
        digits_value(Seq::empty(), base) == Some(0nat),
        digits_value(s.push(c), base) == (match (digits_value(s, base), digit_value(c, base)) {
            (Some(v), Some(d)) => Some(v * base + d),
            _ => None,
        }),
        '0' <= c <= '9' && c as u32 - 48 < base ==> digit_value(c, base) == Some(
            (c as u32 - 48) as nat,
        ),
        'a' <= c <= 'z' && c as u32 - 87 < base ==> digit_value(c, base) == Some(
            (c as u32 - 87) as nat,
        ),
        'A' <= c <= 'Z' && c as u32 - 55 < base ==> digit_value(c, base) == Some(
            (c as u32 - 55) as nat,
        ),
        !('0' <= c <= '9') && !('a' <= c <= 'z') && !('A' <= c <= 'Z') ==> digit_value(
            c,
            base,
        ) is None,
        '0' <= c <= '9' && c as u32 - 48 >= base ==> digit_value(c, base) is None,
{
    assert(s.push(c).drop_last() =~= s);
}

} // verus!
