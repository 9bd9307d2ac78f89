//! Decimal numerals and the doubles they stand for.
//!
//! Numerals without a fraction or an exponent are read here. The others, and the
//! decimal form of a number that is not a small integer, need floating-point
//! arithmetic: [`Numerals`] holds the conversions that are known, and [`Need`]
//! names one that is missing.

use crate::double::{int_double, magnitude_bits, nat_bits, Double, FRACTION, SIGN};
use crate::numtext::{at_most, digit_value, digits, digits_value, i64_text, int_text, read_digits};
use crate::text::{
    chars_of, concat2, is_ascii_digit, is_digit, opt_text, slice_text, str_eq, Text,
};
use vstd::prelude::*;

verus! {

/// What a numeral reads as.
#[derive(Clone, Debug)]
pub struct Reading {
    /// The numeral.
    pub text: String,
    /// The nearest double.
    pub value: Double,
}

/// How a double is written.
#[derive(Clone, Debug)]
pub struct Showing {
    /// The number.
    pub value: Double,
    /// Its plain decimal form.
    pub plain: String,
    /// Its form as a JSON number.
    pub json: String,
    /// Its form in a message, which is that of a floating-point literal.
    pub literal: String,
}

/// The conversions between decimal text and doubles that are known so far.
#[derive(Clone, Debug)]
pub struct Numerals {
    /// Numerals and what they read as.
    pub readings: Vec<Reading>,
    /// Numbers and how they are written.
    pub showings: Vec<Showing>,
}

/// A conversion that is missing from [`Numerals`].
#[derive(Clone, Debug)]
pub enum Need {
    /// What this numeral reads as.
    Reading(String),
    /// How this number is written.
    Showing(Double),
}

/// The contents of [`Need`].
pub enum NeedView {
    /// What this numeral reads as.
    Reading(Text),
    /// How this number is written.
    Showing(Double),
}

impl View for Need {
    type V = NeedView;

    open spec fn view(&self) -> NeedView {
        match self {
            Need::Reading(t) => NeedView::Reading(t@),
            Need::Showing(d) => NeedView::Showing(*d),
        }
    }
}

/// The contents of [`Numerals`].
pub struct NumeralsView {
    /// Numerals and what they read as.
    pub readings: Seq<(Text, Double)>,
    /// Numbers, their plain forms, their JSON forms and their literal forms.
    pub showings: Seq<(Double, Text, Text, Text)>,
}

impl View for Numerals {
    type V = NumeralsView;

    open spec fn view(&self) -> NumeralsView {
        NumeralsView {
            readings: self.readings@.map_values(|r: Reading| (r.text@, r.value)),
            showings: self.showings@.map_values(|s: Showing| (s.value, s.plain@, s.json@, s.literal@)),
        }
    }
}

/// The first reading of a numeral.
pub open spec fn reading_of(rs: Seq<(Text, Double)>, t: Text) -> Option<Double>
    decreases rs.len(),
{
    if rs.len() == 0 {
        None
    } else if rs[0].0 == t {
        Some(rs[0].1)
    } else {
        reading_of(rs.skip(1), t)
    }
}

/// The first plain and JSON forms of a number.
pub open spec fn showing_of(ss: Seq<(Double, Text, Text, Text)>, d: Double) -> Option<(Text, Text)>
    decreases ss.len(),
{
    if ss.len() == 0 {
        None
    } else if ss[0].0 == d {
        Some((ss[0].1, ss[0].2))
    } else {
        showing_of(ss.skip(1), d)
    }
}

/// The first literal form of a number.
pub open spec fn literal_of(ss: Seq<(Double, Text, Text, Text)>, d: Double) -> Option<Text>
    decreases ss.len(),
{
    if ss.len() == 0 {
        None
    } else if ss[0].0 == d {
        Some(ss[0].3)
    } else {
        literal_of(ss.skip(1), d)
    }
}

impl Numerals {
    /// No conversion known.
    pub fn new() -> (r: Numerals)
        ensures
            r@.readings.len() == 0,
            r@.showings.len() == 0,
    {
        Numerals { readings: Vec::new(), showings: Vec::new() }
    }

    /// A copy.
    pub fn copy(&self) -> (r: Numerals)
        ensures
            r@ == self@,
    {
        let mut readings: Vec<Reading> = Vec::new();
        let mut showings: Vec<Showing> = Vec::new();
        let mut i: usize = 0;
        while i < self.readings.len()
            invariant
                i <= self.readings@.len(),
                readings@.len() == i,
                forall|k: int|
                    0 <= k < i ==> (#[trigger] readings@[k]).text@ == self.readings@[k].text@
                        && readings@[k].value == self.readings@[k].value,
            decreases self.readings@.len() - i,
        {
            readings.push(
                Reading { text: self.readings[i].text.clone(), value: self.readings[i].value },
            );
            i += 1;
        }
        let mut j: usize = 0;
        while j < self.showings.len()
            invariant
                j <= self.showings@.len(),
                showings@.len() == j,
                forall|k: int|
                    0 <= k < j ==> (#[trigger] showings@[k]).value == self.showings@[k].value
                        && showings@[k].plain@ == self.showings@[k].plain@ && showings@[k].json@
                        == self.showings@[k].json@ && showings@[k].literal@
                        == self.showings@[k].literal@,
            decreases self.showings@.len() - j,
        {
            showings.push(
                Showing {
                    value: self.showings[j].value,
                    plain: self.showings[j].plain.clone(),
                    json: self.showings[j].json.clone(),
                    literal: self.showings[j].literal.clone(),
                },
            );
            j += 1;
        }
        let r = Numerals { readings, showings };
        assert(r@.readings =~= self@.readings);
        assert(r@.showings =~= self@.showings);
        r
    }

    /// Record what a numeral reads as.
    pub fn learn_reading(&mut self, text: String, value: Double)
        ensures
            final(self)@.readings == old(self)@.readings.push((text@, value)),
            final(self)@.showings == old(self)@.showings,
    {
        self.readings.push(Reading { text, value });
        assert(self@.readings =~= old(self)@.readings.push((text@, value)));
    }

    /// Record how a number is written.
    pub fn learn_showing(&mut self, value: Double, plain: String, json: String, literal: String)
        ensures
            final(self)@.showings == old(self)@.showings.push((value, plain@, json@, literal@)),
            final(self)@.readings == old(self)@.readings,
    {
        self.showings.push(Showing { value, plain, json, literal });
        assert(self@.showings =~= old(self)@.showings.push((value, plain@, json@, literal@)));
    }

    /// What a numeral reads as, where that is on record.
    pub fn recorded_reading(&self, text: &str) -> (r: Option<Double>)
        ensures
            r == reading_of(self@.readings, text@),
    {
        let mut i: usize = 0;
        assert(self@.readings.skip(0) =~= self@.readings);
        while i < self.readings.len()
            invariant
                i <= self.readings@.len(),
                reading_of(self@.readings, text@) == reading_of(
                    self@.readings.skip(i as int),
                    text@,
                ),
            decreases self.readings@.len() - i,
        {
            assert(self@.readings.skip(i as int).skip(1) =~= self@.readings.skip(i + 1));
            if str_eq(self.readings[i].text.as_str(), text) {
                return Some(self.readings[i].value);
            }
            i += 1;
        }
        None
    }

    /// How a number is written, where that is on record.
    pub fn recorded_showing(&self, value: Double) -> (r: Option<(String, String)>)
        ensures
            crate::scan::opt_pair(r) == showing_of(self@.showings, value),
    {
        let mut i: usize = 0;
        assert(self@.showings.skip(0) =~= self@.showings);
        while i < self.showings.len()
            invariant
                i <= self.showings@.len(),
                showing_of(self@.showings, value) == showing_of(
                    self@.showings.skip(i as int),
                    value,
                ),
            decreases self.showings@.len() - i,
        {
            assert(self@.showings.skip(i as int).skip(1) =~= self@.showings.skip(i + 1));
            if self.showings[i].value == value {
                return Some((self.showings[i].plain.clone(), self.showings[i].json.clone()));
            }
            i += 1;
        }
        None
    }
}

impl Numerals {
    /// The literal form of a number, where that is on record.
    pub fn recorded_literal(&self, value: Double) -> (r: Option<String>)
        ensures
            opt_text(r) == literal_of(self@.showings, value),
    {
        let mut i: usize = 0;
        assert(self@.showings.skip(0) =~= self@.showings);
        while i < self.showings.len()
            invariant
                i <= self.showings@.len(),
                literal_of(self@.showings, value) == literal_of(
                    self@.showings.skip(i as int),
                    value,
                ),
            decreases self.showings@.len() - i,
        {
            assert(self@.showings.skip(i as int).skip(1) =~= self@.showings.skip(i + 1));
            if self.showings[i].value == value {
                return Some(self.showings[i].literal.clone());
            }
            i += 1;
        }
        None
    }
}

// ---------------------------------------------------------------------------
// The grammar of numerals
// ---------------------------------------------------------------------------

/// Where the run of digits that starts at `i` ends.
pub open spec fn run_end(s: Text, i: int) -> int
    decreases s.len() - i,
{
    if 0 <= i < s.len() && is_digit(s[i]) {
        run_end(s, i + 1)
    } else {
        i
    }
}

/// The length of the sign at `i`, if there is one.
pub open spec fn sign_len(s: Text, i: int) -> int {
    if 0 <= i < s.len() && (s[i] == '+' || s[i] == '-') {
        1
    } else {
        0
    }
}

/// Where digits with at most one decimal point among them, starting at `i`, end;
/// at least one digit is needed.
pub open spec fn mantissa_end(s: Text, i: int) -> Option<int> {
    let a = run_end(s, i);
    if a < s.len() && s[a] == '.' {
        let b = run_end(s, a + 1);
        if a > i || b > a + 1 {
            Some(b)
        } else {
            None
        }
    } else if a > i {
        Some(a)
    } else {
        None
    }
}

/// A decimal numeral: an optional sign, digits with at most one point, and an
/// optional exponent.
pub open spec fn is_numeral(s: Text) -> bool {
    match mantissa_end(s, sign_len(s, 0)) {
        None => false,
        Some(m) => m == s.len() || ((s[m] == 'e' || s[m] == 'E') && {
            let x = m + 1 + sign_len(s, m + 1);
            run_end(s, x) > x && run_end(s, x) == s.len()
        }),
    }
}

/// All characters are zeros.
pub open spec fn all_zeros(s: Text) -> bool {
    forall|k: int| 0 <= k < s.len() ==> s[k] == '0'
}

/// The absolute value of a numeral that is written as a whole number, where a
/// double holds it exactly whatever it is rounded by: up to 2^53.
pub open spec fn whole_part(s: Text) -> Option<nat> {
    let i = sign_len(s, 0);
    let a = run_end(s, i);
    if a > i && (a == s.len() || (s[a] == '.' && all_zeros(s.skip(a + 1)))) {
        at_most(digits_value(s.subrange(i, a), 10), (2 * FRACTION) as nat)
    } else {
        None
    }
}

/// The double that a numeral of this form stands for.
pub open spec fn whole_numeral(s: Text) -> Option<Double> {
    match whole_part(s) {
        Some(m) => Some(
            Double {
                bits: (nat_bits(m) + if s[0] == '-' {
                    SIGN as int
                } else {
                    0
                }) as u64,
            },
        ),
        None => None,
    }
}

/// What a text reads as: no number, a double, or a conversion that is missing.
pub open spec fn reading(s: Text, n: NumeralsView) -> Result<Option<Double>, NeedView> {
    if !is_numeral(s) {
        Ok(None)
    } else {
        match whole_numeral(s) {
            Some(d) => Ok(Some(d)),
            None => match reading_of(n.readings, s) {
                Some(d) => Ok(Some(d)),
                None => Err(NeedView::Reading(s)),
            },
        }
    }
}

/// A run of digits stays within the text.
pub proof fn lemma_run_end(s: Text, i: int)
    requires
        0 <= i <= s.len(),
    ensures
        i <= run_end(s, i) <= s.len(),
        forall|k: int| i <= k < run_end(s, i) ==> is_digit(#[trigger] s[k]),
        run_end(s, i) < s.len() ==> !is_digit(s[run_end(s, i)]),
    decreases s.len() - i,
{
    if i < s.len() && is_digit(s[i]) {
        lemma_run_end(s, i + 1);
    }
}

/// The end of a run of digits.
pub fn digit_run(v: &Vec<char>, from: usize) -> (r: usize)
    requires
        from <= v@.len(),
    ensures
        r == run_end(v@, from as int),
        from <= r <= v@.len(),
{
    let n = v.len();
    let mut i: usize = from;
    while i < n && is_ascii_digit(v[i])
        invariant
            from <= i <= n,
            n == v@.len(),
            run_end(v@, from as int) == run_end(v@, i as int),
        decreases n - i,
    {
        i += 1;
    }
    i
}

/// The length of a sign.
fn sign_at(v: &Vec<char>, i: usize) -> (r: usize)
    ensures
        r == sign_len(v@, i as int),
        r <= 1,
        i <= v@.len() ==> i + r <= v@.len(),
{
    if i < v.len() && (v[i] == '+' || v[i] == '-') {
        1
    } else {
        0
    }
}

/// Whether a text is a decimal numeral.
pub fn numeral(v: &Vec<char>) -> (r: bool)
    ensures
        r == is_numeral(v@),
{
    let n = v.len();
    let i = sign_at(v, 0);
    let a = digit_run(v, i);
    let m: usize;
    if a < n && v[a] == '.' {
        let b = digit_run(v, a + 1);
        if a == i && b == a + 1 {
            return false;
        }
        m = b;
    } else {
        if a == i {
            return false;
        }
        m = a;
    }
    if m == n {
        return true;
    }
    if v[m] != 'e' && v[m] != 'E' {
        return false;
    }
    let x = m + 1 + sign_at(v, m + 1);
    let z = digit_run(v, x);
    z > x && z == n
}

/// Read a numeral that is written as a whole number.
pub fn read_whole(v: &Vec<char>) -> (r: Option<Double>)
    ensures
        r == whole_numeral(v@),
{
    let n = v.len();
    let i = sign_at(v, 0);
    let a = digit_run(v, i);
    if a == i {
        return None;
    }
    if a < n {
        if v[a] != '.' {
            return None;
        }
        let mut k: usize = a + 1;
        while k < n
            invariant
                a < k <= n,
                n == v@.len(),
                i == sign_len(v@, 0),
                a == run_end(v@, i as int),
                v@[a as int] == '.',
                forall|j: int| a + 1 <= j < k ==> v@[j] == '0',
            decreases n - k,
        {
            if v[k] != '0' {
                assert(v@.skip(a + 1)[k - a - 1] != '0');
                return None;
            }
            k += 1;
        }
        assert(all_zeros(v@.skip(a + 1)));
    }
    let body = slice_text(v, i, a);
    let digits = chars_of(body.as_str());
    assert(digits@.skip(0) =~= v@.subrange(i as int, a as int));
    match read_digits(&digits, 0, 10, 2 * FRACTION as u128) {
        Some(m) => {
            let bits = magnitude_bits(m as u64);
            if v[0] == '-' {
                Some(Double { bits: bits + SIGN })
            } else {
                Some(Double { bits })
            }
        },
        None => None,
    }
}

/// Read a text as a number.
pub fn read_number(s: &str, n: &Numerals) -> (r: Result<Option<Double>, Need>)
    ensures
        (match r {
            Ok(o) => Ok(o),
            Err(e) => Err(e@),
        }) == reading(s@, n@),
{
    let v = chars_of(s);
    if !numeral(&v) {
        return Ok(None);
    }
    match read_whole(&v) {
        Some(d) => Ok(Some(d)),
        None => match n.recorded_reading(s) {
            Some(d) => Ok(Some(d)),
            None => Err(Need::Reading(s.to_owned())),
        },
    }
}

// ---------------------------------------------------------------------------
// Writing numbers
// ---------------------------------------------------------------------------

/// The value of a double that is a whole number below 10^15 in absolute value.
pub open spec fn small_int(d: Double) -> Option<int> {
    match d.whole() {
        Some(i) => if -1_000_000_000_000_000 < i < 1_000_000_000_000_000 {
            Some(i)
        } else {
            None
        },
        None => None,
    }
}

/// The decimal form of a number: small whole numbers without a point.
pub open spec fn number_text(d: Double, n: NumeralsView) -> Result<Text, NeedView> {
    if d.is_nan() {
        Ok("NaN"@)
    } else if !d.is_finite() {
        Ok(
            if d.negative() {
                "-Infinity"@
            } else {
                "Infinity"@
            },
        )
    } else {
        match small_int(d) {
            Some(i) => Ok(int_text(i)),
            None => match showing_of(n.showings, d) {
                Some(f) => Ok(f.0),
                None => Err(NeedView::Showing(d)),
            },
        }
    }
}

/// A text result over views.
pub open spec fn text_result(r: Result<String, Need>) -> Result<Text, NeedView> {
    match r {
        Ok(t) => Ok(t@),
        Err(e) => Err(e@),
    }
}

/// Write a number: integers print without a trailing `.0`.
pub fn format_number(d: Double, n: &Numerals) -> (r: Result<String, Need>)
    ensures
        text_result(r) == number_text(d, n@),
{
    if d.nan() {
        return Ok("NaN".to_owned());
    }
    if !d.finite() {
        return Ok(
            if d.bits >= SIGN {
                "-Infinity".to_owned()
            } else {
                "Infinity".to_owned()
            },
        );
    }
    match d.small_int() {
        Some(i) => Ok(i64_text(i)),
        None => match n.recorded_showing(d) {
            Some(f) => Ok(f.0),
            None => Err(Need::Showing(d)),
        },
    }
}

/// The form of a number as a floating-point literal: whole numbers with one
/// decimal, and a zero with its sign.
pub open spec fn literal_text(d: Double, n: NumeralsView) -> Result<Text, NeedView> {
    if d.is_nan() {
        Ok("NaN"@)
    } else if !d.is_finite() {
        Ok(
            if d.negative() {
                "-inf"@
            } else {
                "inf"@
            },
        )
    } else {
        match small_int(d) {
            Some(i) => Ok(
                if i == 0 && d.negative() {
                    "-0.0"@
                } else {
                    int_text(i) + ".0"@
                },
            ),
            None => match literal_of(n.showings, d) {
                Some(t) => Ok(t),
                None => Err(NeedView::Showing(d)),
            },
        }
    }
}

/// Write a number as a floating-point literal.
pub fn format_literal(d: Double, n: &Numerals) -> (r: Result<String, Need>)
    ensures
        text_result(r) == literal_text(d, n@),
{
    if d.nan() {
        return Ok("NaN".to_owned());
    }
    if !d.finite() {
        return Ok(
            if d.bits >= SIGN {
                "-inf".to_owned()
            } else {
                "inf".to_owned()
            },
        );
    }
    match d.small_int() {
        Some(i) => Ok(
            if i == 0 && d.bits >= SIGN {
                "-0.0".to_owned()
            } else {
                concat2(i64_text(i).as_str(), ".0")
            },
        ),
        None => match n.recorded_literal(d) {
            Some(t) => Ok(t),
            None => Err(Need::Showing(d)),
        },
    }
}

// ---------------------------------------------------------------------------
// Laws
// ---------------------------------------------------------------------------

/// A conversion on record is never asked for.
pub proof fn law_known_readings_are_used(s: Text, n: NumeralsView)
    requires
        reading_of(n.readings, s) is Some,
    ensures
        reading(s, n) is Ok,
{
}

/// What is asked for is a numeral, and once it is on record the text reads as
/// what was recorded.
pub proof fn law_learned_readings_answer(s: Text, n: NumeralsView, d: Double)
    requires
        reading(s, n) is Err,
    ensures
        reading(s, n) == Err::<Option<Double>, NeedView>(NeedView::Reading(s)),
        is_numeral(s),
        reading(
            s,
            NumeralsView { readings: n.readings.push((s, d)), showings: n.showings },
        ) == Ok::<Option<Double>, NeedView>(Some(d)),
{
    lemma_reading_pushed(n.readings, s, d);
}

/// A first reading that is pushed is found.
proof fn lemma_reading_pushed(rs: Seq<(Text, Double)>, s: Text, d: Double)
    requires
        reading_of(rs, s) is None,
    ensures
        reading_of(rs.push((s, d)), s) == Some(d),
    decreases rs.len(),
{
    if rs.len() > 0 {
        lemma_reading_pushed(rs.skip(1), s, d);
        assert(rs.push((s, d)).skip(1) =~= rs.skip(1).push((s, d)));
    }
}

/// The digits of a number are digits, and read as the number.
proof fn lemma_digits_read_back(m: nat)
    ensures
        digits(m, 10).len() >= 1,
        forall|k: int| 0 <= k < digits(m, 10).len() ==> is_digit(#[trigger] digits(m, 10)[k]),
        digits_value(digits(m, 10), 10) == Some(m),
    decreases m,
{
    let s = digits(m, 10);
    if m >= 10 {
        lemma_digits_read_back(m / 10);
        let t = digits(m / 10, 10);
        assert(s.drop_last() =~= t);
        assert forall|k: int| 0 <= k < s.len() implies is_digit(#[trigger] s[k]) by {
            if k < t.len() {
                assert(s[k] == t[k]);
            }
        }
    } else {
        assert(s.drop_last() =~= Seq::empty());
        assert(digits_value(s.drop_last(), 10) == Some(0nat));
    }
    assert(digit_value(s.last(), 10) == Some((m % 10) as nat));
}

/// A run of digits up to the end of the text.
proof fn lemma_run_to_end(s: Text, i: int)
    requires
        0 <= i <= s.len(),
        forall|k: int| i <= k < s.len() ==> is_digit(#[trigger] s[k]),
    ensures
        run_end(s, i) == s.len(),
    decreases s.len() - i,
{
    if i < s.len() {
        lemma_run_to_end(s, i + 1);
    }
}

/// The decimal form of a small integer reads as that integer.
pub proof fn lemma_int_reads_back(i: int, n: NumeralsView)
    requires
        -2 * FRACTION < i < 2 * FRACTION,
    ensures
        reading(int_text(i), n) == Ok::<Option<Double>, NeedView>(Some(int_double(i))),
{
    let m: nat = if i < 0 {
        (-i) as nat
    } else {
        i as nat
    };
    lemma_digits_read_back(m);
    let d = digits(m, 10);
    let s = int_text(i);
    if i < 0 {
        reveal_strlit("-");
        assert(s[0] == '-');
        assert forall|k: int| 1 <= k < s.len() implies is_digit(#[trigger] s[k]) by {
            assert(s[k] == d[k - 1]);
        }
        lemma_run_to_end(s, 1);
        assert(s.subrange(1, s.len() as int) =~= d);
    } else {
        assert(s == d);
        assert(is_digit(s[0]));
        lemma_run_to_end(s, 0);
        assert(s.subrange(0, s.len() as int) =~= d);
    }
    assert(whole_part(s) == Some(m));
    assert(is_numeral(s));
}

/// A character of a numeral.
pub open spec fn numeral_char(c: char) -> bool {
    is_digit(c) || c == '.' || c == '+' || c == '-' || c == 'e' || c == 'E'
}

/// A numeral is not empty and is made of the characters of numerals.
pub proof fn lemma_numeral_shape(s: Text)
    ensures
        is_numeral(s) ==> s.len() > 0 && (forall|k: int|
            0 <= k < s.len() ==> numeral_char(#[trigger] s[k])),
{
    if is_numeral(s) {
        let i = sign_len(s, 0);
        lemma_run_end(s, i);
        let a = run_end(s, i);
        let m = mantissa_end(s, i)->Some_0;
        if a < s.len() && s[a] == '.' {
            lemma_run_end(s, a + 1);
        }
        if m < s.len() {
            let x = m + 1 + sign_len(s, m + 1);
            if m + 1 <= s.len() && x <= s.len() {
                lemma_run_end(s, x);
            }
            assert forall|k: int| 0 <= k < s.len() implies numeral_char(#[trigger] s[k]) by {
                if k >= x {
                    assert(is_digit(s[k]));
                }
            }
        }
    }
}

/// The decimal form of an integer is a numeral.
pub proof fn lemma_int_is_numeral(i: int)
    requires
        -2 * FRACTION < i < 2 * FRACTION,
    ensures
        is_numeral(int_text(i)),
{
    let n = NumeralsView { readings: Seq::empty(), showings: Seq::empty() };
    lemma_int_reads_back(i, n);
}

/// Whether a text is made of digits, and has some.
pub open spec fn is_digits(s: Text) -> bool {
    s.len() > 0 && forall|k: int| 0 <= k < s.len() ==> is_digit(#[trigger] s[k])
}

proof fn lemma_run_of(a: Text, ds: Text, rest: Text, i: int)
    requires
        forall|k: int| 0 <= k < ds.len() ==> is_digit(#[trigger] ds[k]),
        0 <= i <= ds.len(),
        rest.len() == 0 || !is_digit(rest[0]),
    ensures
        run_end(a + ds + rest, a.len() + i) == a.len() + ds.len(),
    decreases ds.len() - i,
{
    let s = a + ds + rest;
    if i < ds.len() {
        assert(s[a.len() + i] == ds[i]);
        lemma_run_of(a, ds, rest, i + 1);
    } else if rest.len() > 0 {
        assert(s[a.len() + i] == rest[0]);
    }
}

/// A numeral is digits, with a fraction, a sign or an exponent where there is one;
/// the empty text, a sign alone and a text with any other character are none.
pub proof fn law_what_numerals_are(d: Text, f: Text, x: Text, s: Text)
    requires
        is_digits(d),
        is_digits(f),
        is_digits(x),
    ensures
        is_numeral(d),
        is_numeral(seq!['-'] + d),
        is_numeral(seq!['+'] + d),
        is_numeral(d + seq!['.'] + f),
        is_numeral(seq!['.'] + f),
        is_numeral(d + seq!['e'] + x),
        is_numeral(d + (seq!['e', '-'] + x)),
        !is_numeral(Seq::empty()),
        !is_numeral(seq!['-']),
        !is_numeral(d + seq!['e']),
        is_numeral(s) ==> forall|k: int|
            0 <= k < s.len() ==> is_digit(#[trigger] s[k]) || s[k] == '.' || s[k] == '+' || s[k]
                == '-' || s[k] == 'e' || s[k] == 'E',
{
    let e = Seq::<char>::empty();
    lemma_numeral_shape(s);
    lemma_run_of(e, d, e, 0);
    assert(e + d + e =~= d);
    assert(is_digit(d[0]));
    let m = seq!['-'] + d;
    lemma_run_of(seq!['-'], d, e, 0);
    assert(seq!['-'] + d + e =~= m);
    let p = seq!['+'] + d;
    lemma_run_of(seq!['+'], d, e, 0);
    assert(seq!['+'] + d + e =~= p);
    let q = d + seq!['.'] + f;
    lemma_run_of(e, d, seq!['.'] + f, 0);
    assert(e + d + (seq!['.'] + f) =~= q);
    lemma_run_of(d + seq!['.'], f, e, 0);
    assert(d + seq!['.'] + f + e =~= q);
    assert(q[d.len() as int] == '.' && q[0] == d[0]);
    let r = seq!['.'] + f;
    lemma_run_of(seq!['.'], f, e, 0);
    assert(seq!['.'] + f + e =~= r);
    assert(run_end(r, 0) == 0);
    let u = d + seq!['e'] + x;
    lemma_run_of(e, d, seq!['e'] + x, 0);
    assert(e + d + (seq!['e'] + x) =~= u);
    lemma_run_of(d + seq!['e'], x, e, 0);
    assert(d + seq!['e'] + x + e =~= u);
    assert(u[d.len() as int] == 'e' && u[0] == d[0]);
    assert(u[d.len() + 1 as int] == x[0]);
    let t = seq!['e', '-'] + x;
    let v = d + t;
    lemma_run_of(e, d, t, 0);
    assert(e + d + t =~= v);
    lemma_run_of(d + seq!['e', '-'], x, e, 0);
    assert(d + seq!['e', '-'] + x + e =~= v);
    assert(v[d.len() as int] == 'e' && v[0] == d[0] && v[d.len() + 1 as int] == '-');
    let w = d + seq!['e'];
    lemma_run_of(e, d, seq!['e'], 0);
    assert(e + d + seq!['e'] =~= w);
    assert(w[d.len() as int] == 'e' && w[0] == d[0]);
    let one = seq!['-'];
    assert(one[0] == '-');
    assert(run_end(one, 1) == 1);
}

/// Digits read as the integer that they write, as far as integers are exact.
pub proof fn law_digits_read_as_integers(ds: Text, v: nat, n: NumeralsView)
    requires
        is_digits(ds),
        digits_value(ds, 10) == Some(v),
        v < 2 * FRACTION,
    ensures
        reading(ds, n) matches Ok(Some(d)) && d.whole() == Some(v as int),
        reading(seq!['-'] + ds, n) matches Ok(Some(d)) && (d.whole() == Some(-(v as int))),
{
    let e = Seq::<char>::empty();
    law_what_numerals_are(ds, ds, ds, ds);
    lemma_run_of(e, ds, e, 0);
    assert(e + ds + e =~= ds);
    assert(is_digit(ds[0]));
    assert(ds.subrange(0, ds.len() as int) =~= ds);
    crate::double::law_small_integers_are_exact(v as int);
    let m = seq!['-'] + ds;
    lemma_run_of(seq!['-'], ds, e, 0);
    assert(seq!['-'] + ds + e =~= m);
    assert(m[0] == '-');
    assert(m.subrange(1, m.len() as int) =~= ds);
    if v > 0 {
        crate::double::law_small_integers_are_exact(-(v as int));
        assert(reading(m, n) == Ok::<Option<Double>, NeedView>(Some(int_double(-(v as int)))));
    } else {
        let z = Double { bits: SIGN };
        assert(nat_bits(0) == 0);
        assert(reading(m, n) == Ok::<Option<Double>, NeedView>(Some(z)));
        lemma_minus_zero();
    }
}

proof fn lemma_minus_zero()
    ensures
        (Double { bits: SIGN }).whole() == Some(0int),
{
    let z = Double { bits: SIGN };
    let o = Double { bits: 0 };
    crate::double::law_small_integers_are_exact(0);
    assert(int_double(0) == o);
    assert(z.magnitude() == 0) by {
        assert(SIGN as int % SIGN as int == 0) by (nonlinear_arith);
    }
    assert(o.magnitude() == 0) by {
        assert(0int % SIGN as int == 0) by (nonlinear_arith);
    }
    assert(z.whole_magnitude() == o.whole_magnitude());
}

/// A number is shown as the integer that it is, where that is not too large, and
/// by name where it is infinite or none.
pub proof fn law_how_numbers_are_shown(d: Double, i: int, n: NumeralsView)
    ensures
        d.is_nan() ==> number_text(d, n) == Ok::<Text, NeedView>("NaN"@),
        d.bits == crate::double::INFINITY ==> number_text(d, n) == Ok::<Text, NeedView>("Infinity"@),
        d.bits == crate::double::INFINITY + SIGN ==> number_text(d, n) == Ok::<Text, NeedView>("-Infinity"@),
        d.is_finite() && d.whole() == Some(i) && -1_000_000_000_000_000 < i < 1_000_000_000_000_000
            ==> number_text(d, n) == Ok::<Text, NeedView>(int_text(i)),
{
    assert(crate::double::INFINITY as int % SIGN as int == crate::double::INFINITY && (crate::double::INFINITY + SIGN) % SIGN as int == crate::double::INFINITY)
        by (nonlinear_arith);
}

/// What is on record of a number or a text is what was recorded first for it.
pub proof fn law_records_are_found_first(rs: Seq<(Text, Double)>, t: Text, i: int)
    requires
        0 <= i < rs.len(),
        rs[i].0 == t,
        forall|j: int| 0 <= j < i ==> (#[trigger] rs[j]).0 != t,
    ensures
        reading_of(rs, t) == Some(rs[i].1),
    decreases i,
{
    if i > 0 {
        assert(rs[0].0 != t);
        let u = rs.skip(1);
        assert forall|j: int| 0 <= j < i - 1 implies (#[trigger] u[j]).0 != t by {
            assert(rs[j + 1].0 != t);
        }
        law_records_are_found_first(u, t, i - 1);
    }
}

/// The literal form of a number has a fraction, and keeps the sign of zero.
pub proof fn law_literal_forms(d: Double, i: int, n: NumeralsView)
    ensures
        d.is_nan() ==> literal_text(d, n) == Ok::<Text, NeedView>("NaN"@),
        d.is_finite() && d.whole() == Some(i) && -1_000_000_000_000_000 < i < 1_000_000_000_000_000
            && i != 0 ==> literal_text(d, n) == Ok::<Text, NeedView>(int_text(i) + ".0"@),
        d.is_finite() && d.whole() == Some(0int) && !d.negative() ==> literal_text(d, n) == Ok::<
            Text,
            NeedView,
        >(int_text(0) + ".0"@),
        d.is_finite() && d.whole() == Some(0int) && d.negative() ==> literal_text(d, n) == Ok::<
            Text,
            NeedView,
        >("-0.0"@),
{
}

/// A fraction of zeros does not count.
pub proof fn law_zero_fractions_do_not_count(ds: Text, z: Text, v: nat, n: NumeralsView)
    requires
        is_digits(ds),
        z.len() > 0,
        forall|k: int| 0 <= k < z.len() ==> #[trigger] z[k] == '0',
        digits_value(ds, 10) == Some(v),
        v < 2 * FRACTION,
    ensures
        reading(ds + seq!['.'] + z, n) == reading(ds, n),
{
    let e = Seq::<char>::empty();
    let s = ds + seq!['.'] + z;
    assert(is_digits(z));
    law_what_numerals_are(ds, z, z, ds);
    lemma_run_of(e, ds, seq!['.'] + z, 0);
    assert(e + ds + (seq!['.'] + z) =~= s);
    lemma_run_of(e, ds, e, 0);
    assert(e + ds + e =~= ds);
    assert(is_digit(ds[0]) && s[0] == ds[0]);
    let a = ds.len() as int;
    assert(s[a] == '.');
    assert(s.skip(a + 1) =~= z);
    assert(s.subrange(0, a) =~= ds);
    assert(ds.subrange(0, a) =~= ds);
}

} // verus!
