//! The dynamic value that an expression evaluates to, with the coercions that the
//! evaluator relies on: to a number, to a string, to a truth value, and to and
//! from JSON.

use crate::double::{from_int, int_double, Double, INFINITY, SIGN};
use crate::json::{
    entries_of, json_array, json_bool, json_compact, json_int, json_null, json_object, json_parsed,
    json_parts, json_read, json_string, json_text, json_tree, trees_of, JsonParts, JsonTree,
};
use crate::numeral::{
    format_number, is_numeral, lemma_numeral_shape, number_text, read_number, reading, showing_of, small_int, text_result, Need,
    NeedView, Numerals, NumeralsView,
};
use crate::members::{member_list, members_of, Members};
use crate::numtext::{int_text, read_signed, signed_value};
use crate::results::{after_done, ahead, named};
use crate::scan::{trim, trimmed};
use crate::table::{
    collected, distinct, law_distinct_pairs_are_kept, lookup, view_entries,
};
use crate::text::{after_prefix, is_empty, str_eq, strip_prefix, Text};
use serde_json::Value as OutsideJson;
use vstd::prelude::*;

verus! {

/// The bit pattern that stands for "not a number".
pub const NAN_BITS: u64 = 0x7ff8_0000_0000_0000;

/// A value in the expression language.
#[derive(Debug)]
pub enum Value {
    /// No value.
    Null,
    /// A truth value.
    Bool(bool),
    /// A number.
    Number(Double),
    /// A string.
    Str(String),
    /// A list.
    Array(Vec<Value>),
    /// Named values, in the order in which they came.
    Object(Members),
}

/// A value as a mathematical one.
#[verifier::ext_equal]
pub enum ValueView {
    /// No value.
    Null,
    /// A truth value.
    Bool(bool),
    /// A number.
    Number(Double),
    /// A string.
    Str(Text),
    /// A list.
    Array(Seq<ValueView>),
    /// Named values.
    Object(Seq<(Text, ValueView)>),
}

/// The view of a value.
pub open spec fn value_view(v: Value) -> ValueView
    decreases v,
{
    match v {
        Value::Null => ValueView::Null,
        Value::Bool(b) => ValueView::Bool(b),
        Value::Number(n) => ValueView::Number(n),
        Value::Str(s) => ValueView::Str(s@),
        Value::Array(a) => ValueView::Array(
            Seq::new(
                a@.len(),
                |i: int|
                    if 0 <= i < a@.len() {
                        value_view(a@[i])
                    } else {
                        arbitrary()
                    },
            ),
        ),
        Value::Object(o) => ValueView::Object(member_list(o)),
    }
}

impl View for Value {
    type V = ValueView;

    open spec fn view(&self) -> ValueView {
        value_view(*self)
    }
}

impl Clone for Value {
    fn clone(&self) -> (r: Value)
        ensures
            r@ == self@,
    {
        self.copy()
    }
}

/// Two values are equal: numbers as numbers, so that NaN equals nothing and the
/// zeros are one, lists item by item, and objects by what their keys stand for,
/// whatever the order.
pub open spec fn same_values(a: ValueView, b: ValueView) -> bool
    decreases a,
{
    match (a, b) {
        (ValueView::Null, ValueView::Null) => true,
        (ValueView::Bool(x), ValueView::Bool(y)) => x == y,
        (ValueView::Number(x), ValueView::Number(y)) => x.same(y),
        (ValueView::Str(x), ValueView::Str(y)) => x == y,
        (ValueView::Array(x), ValueView::Array(y)) => {
            &&& x.len() == y.len()
            &&& forall|i: int| 0 <= i < x.len() ==> same_values(#[trigger] x[i], y[i])
        },
        (ValueView::Object(x), ValueView::Object(y)) => {
            &&& x.len() == y.len()
            &&& forall|i: int|
                0 <= i < x.len() ==> lookup(y, (#[trigger] x[i]).0) is Some && same_values(
                    x[i].1,
                    lookup(y, x[i].0)->Some_0,
                )
        },
        _ => false,
    }
}

impl PartialEq for Value {
    fn eq(&self, other: &Value) -> (r: bool) {
        self.equals(other)
    }
}

impl vstd::std_specs::cmp::PartialEqSpecImpl for Value {
    open spec fn obeys_eq_spec() -> bool {
        true
    }

    open spec fn eq_spec(&self, other: &Value) -> bool {
        same_values(self@, other@)
    }
}

impl Value {
    /// Whether two values are equal.
    pub fn equals(&self, other: &Value) -> (r: bool)
        ensures
            r == same_values(self@, other@),
        decreases self@,
    {
        proof {
            lemma_value_view(*self);
            lemma_value_view(*other);
        }
        match (self, other) {
            (Value::Null, Value::Null) => true,
            (Value::Bool(x), Value::Bool(y)) => *x == *y,
            (Value::Number(x), Value::Number(y)) => x.equals(y),
            (Value::Str(x), Value::Str(y)) => str_eq(x.as_str(), y.as_str()),
            (Value::Array(x), Value::Array(y)) => {
                if x.len() != y.len() {
                    return false;
                }
                let ghost xs = values(x@);
                let ghost ys = values(y@);
                let mut i: usize = 0;
                while i < x.len()
                    invariant
                        i <= x@.len(),
                        x@.len() == y@.len(),
                        xs == values(x@),
                        ys == values(y@),
                        self@ == ValueView::Array(xs),
                        other@ == ValueView::Array(ys),
                        forall|k: int| 0 <= k < i ==> same_values(#[trigger] xs[k], ys[k]),
                    decreases x@.len() - i,
                {
                    assert(xs[i as int] == x@[i as int]@ && ys[i as int] == y@[i as int]@);
                    assert(decreases_to!(self@ => self@->Array_0));
                    assert(decreases_to!(xs => xs[i as int]));
                    if !x[i].equals(&y[i]) {
                        return false;
                    }
                    i += 1;
                }
                true
            },
            (Value::Object(x), Value::Object(y)) => {
                let n = x.len();
                if n != y.len() {
                    return false;
                }
                let ghost xs = x@;
                let ghost ys = y@;
                let mut i: usize = 0;
                while i < n
                    invariant
                        i <= n,
                        n == xs.len(),
                        xs == x@,
                        ys == y@,
                        self@ == ValueView::Object(xs),
                        other@ == ValueView::Object(ys),
                        forall|k: int|
                            0 <= k < i ==> lookup(ys, (#[trigger] xs[k]).0) is Some && same_values(
                                xs[k].1,
                                lookup(ys, xs[k].0)->Some_0,
                            ),
                    decreases n - i,
                {
                    match x.at(i) {
                        None => {},
                        Some((k, v)) => {
                            assert(xs[i as int] == (k@, v@));
                            assert(decreases_to!(self@ => self@->Object_0));
                            assert(decreases_to!(xs => xs[i as int]));
                            assert(decreases_to!(xs[i as int] => xs[i as int].1));
                            match y.get(k.as_str()) {
                                None => {
                                    return false;
                                },
                                Some(w) => {
                                    if !v.equals(w) {
                                        return false;
                                    }
                                },
                            }
                        },
                    }
                    i += 1;
                }
                true
            },
            _ => false,
        }
    }
}

/// The views of a list of values.
pub open spec fn values(v: Seq<Value>) -> Seq<ValueView> {
    v.map_values(|x: Value| x@)
}

/// The views of named values.
pub open spec fn entries(v: Seq<(String, Value)>) -> Seq<(Text, ValueView)> {
    view_entries(v)
}

/// An array's items by their views, and an object's entries by theirs.
pub proof fn lemma_value_view(v: Value)
    ensures
        v matches Value::Array(a) ==> v@ == ValueView::Array(values(a@)),
        v matches Value::Object(o) ==> v@ == ValueView::Object(o@),
{
    match v {
        Value::Array(a) => {
            assert(v@->Array_0 =~= values(a@));
        },
        _ => {},
    }
}

// ---------------------------------------------------------------------------
// Coercions
// ---------------------------------------------------------------------------

/// A double from its sign-free special forms.
pub open spec fn double(bits: int) -> Double {
    Double { bits: bits as u64 }
}

/// Not a number.
pub open spec fn nan() -> Double {
    Double { bits: NAN_BITS }
}

/// The optional integer as a number, or NaN.
pub open spec fn int_or_nan(i: Option<int>) -> Double {
    match i {
        Some(x) => int_double(x),
        None => nan(),
    }
}

/// What follows `a`, or else what follows `b`.
pub open spec fn after_either(s: Text, a: Text, b: Text) -> Option<Text> {
    match after_prefix(s, a) {
        Some(t) => Some(t),
        None => after_prefix(s, b),
    }
}

/// A string as a number: trimmed, empty is 0, `0x` is hexadecimal, `0o` octal,
/// `Infinity` and `-Infinity` are themselves, and else a decimal numeral; what is
/// none of these is NaN.
pub open spec fn text_number(s: Text, n: NumeralsView) -> Result<Double, NeedView> {
    let t = trimmed(s);
    if t.len() == 0 {
        Ok(double(0))
    } else if t == "Infinity"@ {
        Ok(Double { bits: INFINITY })
    } else if t == "-Infinity"@ {
        Ok(double(INFINITY + SIGN))
    } else {
        match after_either(t, "0x"@, "0X"@) {
            Some(hex) => Ok(int_or_nan(signed_value(hex, 16))),
            None => match after_either(t, "0o"@, "0O"@) {
                Some(oct) => Ok(int_or_nan(signed_value(oct, 8))),
                None => match reading(t, n) {
                    Ok(Some(d)) => Ok(d),
                    Ok(None) => Ok(nan()),
                    Err(e) => Err(e),
                },
            },
        }
    }
}

/// A value as a number.
pub open spec fn numeric(v: ValueView, n: NumeralsView) -> Result<Double, NeedView> {
    match v {
        ValueView::Null => Ok(double(0)),
        ValueView::Bool(b) => Ok(
            if b {
                int_double(1)
            } else {
                double(0)
            },
        ),
        ValueView::Number(d) => Ok(d),
        ValueView::Str(s) => text_number(s, n),
        ValueView::Array(_) => Ok(nan()),
        ValueView::Object(_) => Ok(nan()),
    }
}

/// Whether a value counts as true.
pub open spec fn truthy(v: ValueView) -> bool {
    match v {
        ValueView::Null => false,
        ValueView::Bool(b) => b,
        ValueView::Number(d) => d.truthy(),
        ValueView::Str(s) => s.len() > 0,
        ValueView::Array(_) => true,
        ValueView::Object(_) => true,
    }
}

/// A number as a JSON tree: small whole numbers as integers, what is not finite
/// as null.
pub open spec fn number_tree(d: Double, n: NumeralsView) -> Result<JsonTree, NeedView> {
    if !d.is_finite() {
        Ok(JsonTree::Null)
    } else {
        match small_int(d) {
            Some(i) => Ok(JsonTree::Number(int_text(i))),
            None => match showing_of(n.showings, d) {
                Some(f) => Ok(
                    match json_parsed(f.1) {
                        Ok(t) => t,
                        Err(_) => JsonTree::Null,
                    },
                ),
                None => Err(NeedView::Showing(d)),
            },
        }
    }
}

/// A value as a JSON tree.
pub open spec fn tree(v: ValueView, n: NumeralsView) -> Result<JsonTree, NeedView>
    decreases v,
{
    match v {
        ValueView::Null => Ok(JsonTree::Null),
        ValueView::Bool(b) => Ok(JsonTree::Bool(b)),
        ValueView::Number(d) => number_tree(d, n),
        ValueView::Str(s) => Ok(JsonTree::Str(s)),
        ValueView::Array(a) => match trees(a, n) {
            Ok(t) => Ok(JsonTree::Array(t)),
            Err(e) => Err(e),
        },
        ValueView::Object(o) => match entry_trees(o, n) {
            Ok(t) => Ok(JsonTree::Object(collected(t))),
            Err(e) => Err(e),
        },
    }
}

/// A list of values as JSON trees.
pub open spec fn trees(s: Seq<ValueView>, n: NumeralsView) -> Result<Seq<JsonTree>, NeedView>
    decreases s,
{
    if s.len() == 0 {
        Ok(Seq::empty())
    } else {
        ahead(tree(s[0], n), trees(s.skip(1), n))
    }
}

/// Named values as JSON trees.
pub open spec fn entry_trees(s: Seq<(Text, ValueView)>, n: NumeralsView) -> Result<
    Seq<(Text, JsonTree)>,
    NeedView,
>
    decreases s,
{
    if s.len() == 0 {
        Ok(Seq::empty())
    } else {
        ahead(named(s[0].0, tree(s[0].1, n)), entry_trees(s.skip(1), n))
    }
}

/// A value as a string: scalars directly, lists and objects as compact JSON.
pub open spec fn shown(v: ValueView, n: NumeralsView) -> Result<Text, NeedView> {
    match v {
        ValueView::Null => Ok(Seq::empty()),
        ValueView::Bool(b) => Ok(
            if b {
                "true"@
            } else {
                "false"@
            },
        ),
        ValueView::Number(d) => number_text(d, n),
        ValueView::Str(s) => Ok(s),
        _ => match tree(v, n) {
            Ok(t) => Ok(json_compact(t)),
            Err(e) => Err(e),
        },
    }
}

/// The value of a JSON tree.
pub open spec fn tree_value(t: JsonTree, n: NumeralsView) -> Result<ValueView, NeedView>
    decreases t,
{
    match t {
        JsonTree::Null => Ok(ValueView::Null),
        JsonTree::Bool(b) => Ok(ValueView::Bool(b)),
        JsonTree::Number(s) => match reading(s, n) {
            Ok(Some(d)) => Ok(ValueView::Number(d)),
            Ok(None) => Ok(ValueView::Number(nan())),
            Err(e) => Err(e),
        },
        JsonTree::Str(s) => Ok(ValueView::Str(s)),
        JsonTree::Array(a) => match tree_values(a, n) {
            Ok(v) => Ok(ValueView::Array(v)),
            Err(e) => Err(e),
        },
        JsonTree::Object(o) => match tree_entries(o, n) {
            Ok(v) => Ok(ValueView::Object(collected(v))),
            Err(e) => Err(e),
        },
    }
}

/// The values of a list of JSON trees.
pub open spec fn tree_values(s: Seq<JsonTree>, n: NumeralsView) -> Result<Seq<ValueView>, NeedView>
    decreases s,
{
    if s.len() == 0 {
        Ok(Seq::empty())
    } else {
        ahead(tree_value(s[0], n), tree_values(s.skip(1), n))
    }
}

/// The values of named JSON trees.
pub open spec fn tree_entries(s: Seq<(Text, JsonTree)>, n: NumeralsView) -> Result<
    Seq<(Text, ValueView)>,
    NeedView,
>
    decreases s,
{
    if s.len() == 0 {
        Ok(Seq::empty())
    } else {
        ahead(named(s[0].0, tree_value(s[0].1, n)), tree_entries(s.skip(1), n))
    }
}

/// Parse a string to a number.
pub fn parse_number(s: &str, n: &Numerals) -> (r: Result<Double, Need>)
    ensures
        (match r {
            Ok(d) => Ok(d),
            Err(e) => Err(e@),
        }) == text_number(s@, n@),
{
    let t = trim(s);
    if is_empty(t.as_str()) {
        return Ok(Double { bits: 0 });
    }
    if str_eq(t.as_str(), "Infinity") {
        return Ok(Double { bits: INFINITY });
    }
    if str_eq(t.as_str(), "-Infinity") {
        return Ok(Double { bits: INFINITY + SIGN });
    }
    match strip_either(t.as_str(), "0x", "0X") {
        Some(hex) => {
            return Ok(
                match read_signed(hex.as_str(), 16) {
                    Some(i) => from_int(i),
                    None => Double { bits: NAN_BITS },
                },
            );
        },
        None => {},
    }
    match strip_either(t.as_str(), "0o", "0O") {
        Some(oct) => {
            return Ok(
                match read_signed(oct.as_str(), 8) {
                    Some(i) => from_int(i),
                    None => Double { bits: NAN_BITS },
                },
            );
        },
        None => {},
    }
    match read_number(t.as_str(), n) {
        Ok(Some(d)) => Ok(d),
        Ok(None) => Ok(Double { bits: NAN_BITS }),
        Err(e) => Err(e),
    }
}

/// Strip one of two prefixes.
pub fn strip_either(s: &str, a: &str, b: &str) -> (r: Option<String>)
    ensures
        crate::text::opt_text(r) == after_either(s@, a@, b@),
{
    match strip_prefix(s, a) {
        Some(t) => Some(t),
        None => strip_prefix(s, b),
    }
}

/// Build a JSON number, preferring an integer where the value is integral.
pub fn number_to_json(d: Double, n: &Numerals) -> (r: Result<OutsideJson, Need>)
    ensures
        json_result(r) == number_tree(d, n@),
{
    if !d.finite() {
        return Ok(json_null());
    }
    match d.small_int() {
        Some(i) => Ok(json_int(i)),
        None => match n.recorded_showing(d) {
            Some(f) => Ok(
                match json_read(f.1.as_str()) {
                    Ok(v) => v,
                    Err(_) => json_null(),
                },
            ),
            None => Err(Need::Showing(d)),
        },
    }
}

/// A JSON result over views.
pub open spec fn json_result(r: Result<OutsideJson, Need>) -> Result<JsonTree, NeedView> {
    match r {
        Ok(v) => Ok(json_tree(v)),
        Err(e) => Err(e@),
    }
}

/// A value result over views.
pub open spec fn value_result(r: Result<Value, Need>) -> Result<ValueView, NeedView> {
    match r {
        Ok(v) => Ok(v@),
        Err(e) => Err(e@),
    }
}

impl Value {
    /// A copy.
    pub fn copy(&self) -> (r: Value)
        ensures
            r@ == self@,
        decreases self@,
    {
        proof {
            lemma_value_view(*self);
        }
        match self {
            Value::Null => Value::Null,
            Value::Bool(b) => Value::Bool(*b),
            Value::Number(d) => Value::Number(*d),
            Value::Str(s) => Value::Str(s.clone()),
            Value::Array(a) => {
                let mut out: Vec<Value> = Vec::new();
                let mut i: usize = 0;
                while i < a.len()
                    invariant
                        self@ == ValueView::Array(values(a@)),
                        i <= a@.len(),
                        out@.len() == i,
                        forall|k: int| 0 <= k < i ==> (#[trigger] out@[k])@ == a@[k]@,
                    decreases a@.len() - i,
                {
                    assert(decreases_to!(self@ => self@->Array_0));
                    assert(decreases_to!(values(a@) => values(a@)[i as int]));
                    out.push(a[i].copy());
                    i += 1;
                }
                let r = Value::Array(out);
                proof {
                    lemma_value_view(r);
                    lemma_value_view(*self);
                    assert(values(out@) =~= values(a@));
                }
                r
            },
            Value::Object(o) => {
                assert(decreases_to!(self@ => self@->Object_0));
                Value::Object(o.copy())
            },
        }
    }

    /// Coerce to a number: `null` is 0, `true` is 1, `false` is 0, strings are
    /// parsed, arrays and objects are NaN.
    pub fn to_number(&self, n: &Numerals) -> (r: Result<Double, Need>)
        ensures
            (match r {
                Ok(d) => Ok(d),
                Err(e) => Err(e@),
            }) == numeric(self@, n@),
    {
        match self {
            Value::Null => Ok(Double { bits: 0 }),
            Value::Bool(b) => Ok(
                if *b {
                    from_int(1)
                } else {
                    Double { bits: 0 }
                },
            ),
            Value::Number(d) => Ok(*d),
            Value::Str(s) => parse_number(s.as_str(), n),
            Value::Array(_) => Ok(Double { bits: NAN_BITS }),
            Value::Object(_) => Ok(Double { bits: NAN_BITS }),
        }
    }

    /// Coerce to a string for interpolation, `format` and `join`; arrays and
    /// objects render as compact JSON.
    pub fn to_display_string(&self, n: &Numerals) -> (r: Result<String, Need>)
        ensures
            text_result(r) == shown(self@, n@),
    {
        match self {
            Value::Null => {
                let e = String::new();
                assert(e@ =~= Seq::empty());
                Ok(e)
            },
            Value::Bool(b) => Ok(
                if *b {
                    "true".to_owned()
                } else {
                    "false".to_owned()
                },
            ),
            Value::Number(d) => format_number(*d, n),
            Value::Str(s) => Ok(s.clone()),
            _ => match self.to_json(n) {
                Ok(j) => Ok(json_text(&j)),
                Err(e) => Err(e),
            },
        }
    }

    /// Truthiness, as used by `!`, `&&`, `||` and `if:`.
    pub fn is_truthy(&self) -> (r: bool)
        ensures
            r == truthy(self@),
    {
        match self {
            Value::Null => false,
            Value::Bool(b) => *b,
            Value::Number(d) => d.is_truthy(),
            Value::Str(s) => !is_empty(s.as_str()),
            Value::Array(_) => true,
            Value::Object(_) => true,
        }
    }

    /// Convert to JSON. Integral numbers are emitted without a decimal point.
    pub fn to_json(&self, n: &Numerals) -> (r: Result<OutsideJson, Need>)
        ensures
            json_result(r) == tree(self@, n@),
        decreases self@,
    {
        match self {
            Value::Null => Ok(json_null()),
            Value::Bool(b) => Ok(json_bool(*b)),
            Value::Number(d) => number_to_json(*d, n),
            Value::Str(s) => Ok(json_string(s.clone())),
            Value::Array(a) => {
                let ghost all = values(a@);
                let mut out: Vec<OutsideJson> = Vec::new();
                let mut i: usize = 0;
                proof {
                    lemma_value_view(*self);
                    assert(all.skip(0) =~= all);
                    assert(trees_of(out@) =~= Seq::empty());
                    match trees(all, n@) {
                        Ok(t) => {
                            assert(Seq::<JsonTree>::empty() + t =~= t);
                        },
                        Err(_) => {},
                    }
                }
                while i < a.len()
                    invariant
                        all == values(a@),
                        self@ == ValueView::Array(all),
                        i <= a@.len(),
                        trees(all, n@) == after_done(
                            trees_of(out@),
                            trees(all.skip(i as int), n@),
                        ),
                    decreases a@.len() - i,
                {
                    let ghost rest = all.skip(i as int);
                    assert(rest[0] == a@[i as int]@);
                    assert(rest.skip(1) =~= all.skip(i + 1));
                    assert(decreases_to!(self@ => self@->Array_0));
                    assert(decreases_to!(all => all[i as int]));
                    let ghost before = trees_of(out@);
                    match a[i].to_json(n) {
                        Ok(j) => {
                            out.push(j);
                            proof {
                                assert(trees_of(out@) =~= before + seq![json_tree(j)]);
                                match trees(rest.skip(1), n@) {
                                    Ok(t) => {
                                        assert(before + (seq![json_tree(j)] + t) =~= trees_of(
                                            out@,
                                        ) + t);
                                    },
                                    Err(_) => {},
                                }
                            }
                        },
                        Err(e) => {
                            return Err(e);
                        },
                    }
                    i += 1;
                }
                assert(trees(all.skip(i as int), n@) == Ok::<Seq<JsonTree>, NeedView>(
                    Seq::empty(),
                ));
                assert(trees_of(out@) + Seq::<JsonTree>::empty() =~= trees_of(out@));
                Ok(json_array(out))
            },
            Value::Object(o) => {
                let ghost all = o@;
                let total = o.len();
                let mut out: Vec<(String, OutsideJson)> = Vec::new();
                let mut i: usize = 0;
                proof {
                    lemma_value_view(*self);
                    assert(all.skip(0) =~= all);
                    assert(entries_of(out@) =~= Seq::empty());
                    match entry_trees(all, n@) {
                        Ok(t) => {
                            assert(Seq::<(Text, JsonTree)>::empty() + t =~= t);
                        },
                        Err(_) => {},
                    }
                }
                while i < total
                    invariant
                        all == o@,
                        total == all.len(),
                        self@ == ValueView::Object(all),
                        i <= total,
                        entry_trees(all, n@) == after_done(
                            entries_of(out@),
                            entry_trees(all.skip(i as int), n@),
                        ),
                    decreases total - i,
                {
                    let ghost rest = all.skip(i as int);
                    assert(rest.skip(1) =~= all.skip(i + 1));
                    assert(decreases_to!(self@ => self@->Object_0));
                    assert(decreases_to!(all => all[i as int]));
                    assert(decreases_to!(all[i as int] => all[i as int].1));
                    let ghost before = entries_of(out@);
                    match o.at(i) {
                        None => {},
                        Some((key, value)) => match value.to_json(n) {
                            Ok(j) => {
                                let k = key.clone();
                                assert(rest[0] == (k@, value@));
                                out.push((k, j));
                                proof {
                                    assert(entries_of(out@) =~= before + seq![(k@, json_tree(j))]);
                                    match entry_trees(rest.skip(1), n@) {
                                        Ok(t) => {
                                            assert(before + (seq![(k@, json_tree(j))] + t)
                                                =~= entries_of(out@) + t);
                                        },
                                        Err(_) => {},
                                    }
                                }
                            },
                            Err(e) => {
                                return Err(e);
                            },
                        },
                    }
                    i += 1;
                }
                assert(entry_trees(all.skip(i as int), n@) == Ok::<
                    Seq<(Text, JsonTree)>,
                    NeedView,
                >(Seq::empty()));
                assert(entries_of(out@) + Seq::<(Text, JsonTree)>::empty() =~= entries_of(out@));
                Ok(json_object(out))
            },
        }
    }

    /// Convert from JSON.
    pub fn from_json(v: OutsideJson, n: &Numerals) -> (r: Result<Value, Need>)
        ensures
            value_result(r) == tree_value(json_tree(v), n@),
        decreases json_tree(v),
    {
        let ghost whole = json_tree(v);
        match json_parts(v) {
            JsonParts::Null => Ok(Value::Null),
            JsonParts::Bool(b) => Ok(Value::Bool(b)),
            JsonParts::Number(t) => match read_number(t.as_str(), n) {
                Ok(Some(d)) => Ok(Value::Number(d)),
                Ok(None) => Ok(Value::Number(Double { bits: NAN_BITS })),
                Err(e) => Err(e),
            },
            JsonParts::Str(s) => Ok(Value::Str(s)),
            JsonParts::Array(items) => {
                let ghost all = trees_of(items@);
                let ghost given = items@;
                let mut todo = items;
                let mut out: Vec<Value> = Vec::new();
                proof {
                    assert(all.skip(0) =~= all);
                    assert(values(out@) =~= Seq::empty());
                    match tree_values(all, n@) {
                        Ok(t) => {
                            assert(Seq::<ValueView>::empty() + t =~= t);
                        },
                        Err(_) => {},
                    }
                }
                let total = todo.len();
                let mut i: usize = 0;
                while i < total
                    invariant
                        whole == json_tree(v),
                        whole == JsonTree::Array(all),
                        all == trees_of(given),
                        total == given.len(),
                        i <= total,
                        todo@ == given.skip(i as int),
                        tree_values(all, n@) == after_done(
                            values(out@),
                            tree_values(all.skip(i as int), n@),
                        ),
                    decreases total - i,
                {
                    let ghost rest = all.skip(i as int);
                    let item = todo.remove(0);
                    assert(todo@ =~= given.skip(i + 1));
                    assert(rest[0] == json_tree(item));
                    assert(all[i as int] == json_tree(item));
                    assert(rest.skip(1) =~= all.skip(i + 1));
                    assert(decreases_to!(whole => whole->Array_0));
                    assert(decreases_to!(all => all[i as int]));
                    let ghost before = values(out@);
                    match Value::from_json(item, n) {
                        Ok(x) => {
                            out.push(x);
                            proof {
                                assert(values(out@) =~= before + seq![x@]);
                                match tree_values(rest.skip(1), n@) {
                                    Ok(t) => {
                                        assert(before + (seq![x@] + t) =~= values(out@) + t);
                                    },
                                    Err(_) => {},
                                }
                            }
                        },
                        Err(e) => {
                            return Err(e);
                        },
                    }
                    i += 1;
                }
                assert(tree_values(all.skip(i as int), n@) == Ok::<Seq<ValueView>, NeedView>(
                    Seq::empty(),
                ));
                assert(values(out@) + Seq::<ValueView>::empty() =~= values(out@));
                let r = Value::Array(out);
                proof {
                    lemma_value_view(r);
                }
                Ok(r)
            },
            JsonParts::Object(items) => {
                let ghost all = entries_of(items@);
                let ghost given = items@;
                let mut todo = items;
                let mut out: Vec<(String, Value)> = Vec::new();
                proof {
                    assert(all.skip(0) =~= all);
                    assert(entries(out@) =~= Seq::empty());
                    match tree_entries(all, n@) {
                        Ok(t) => {
                            assert(Seq::<(Text, ValueView)>::empty() + t =~= t);
                        },
                        Err(_) => {},
                    }
                }
                let total = todo.len();
                let mut i: usize = 0;
                while i < total
                    invariant
                        whole == json_tree(v),
                        whole == JsonTree::Object(all),
                        all == entries_of(given),
                        total == given.len(),
                        i <= total,
                        todo@ == given.skip(i as int),
                        tree_entries(all, n@) == after_done(
                            entries(out@),
                            tree_entries(all.skip(i as int), n@),
                        ),
                    decreases total - i,
                {
                    let ghost rest = all.skip(i as int);
                    let (k, item) = todo.remove(0);
                    assert(todo@ =~= given.skip(i + 1));
                    assert(rest[0] == (k@, json_tree(item)));
                    assert(all[i as int].1 == json_tree(item));
                    assert(rest.skip(1) =~= all.skip(i + 1));
                    assert(decreases_to!(whole => whole->Object_0));
                    assert(decreases_to!(all => all[i as int]));
                    assert(decreases_to!(all[i as int] => all[i as int].1));
                    let ghost before = entries(out@);
                    match Value::from_json(item, n) {
                        Ok(x) => {
                            let ghost kv = (k@, x@);
                            out.push((k, x));
                            proof {
                                assert(entries(out@) =~= before + seq![kv]);
                                match tree_entries(rest.skip(1), n@) {
                                    Ok(t) => {
                                        assert(before + (seq![kv] + t) =~= entries(out@) + t);
                                    },
                                    Err(_) => {},
                                }
                            }
                        },
                        Err(e) => {
                            return Err(e);
                        },
                    }
                    i += 1;
                }
                assert(tree_entries(all.skip(i as int), n@) == Ok::<
                    Seq<(Text, ValueView)>,
                    NeedView,
                >(Seq::empty()));
                assert(entries(out@) + Seq::<(Text, ValueView)>::empty() =~= entries(out@));
                let r = Value::Object(members_of(out));
                proof {
                    lemma_value_view(r);
                }
                Ok(r)
            },
        }
    }
}

// ---------------------------------------------------------------------------
// Laws
// ---------------------------------------------------------------------------

/// A value made of texts, truth values and small whole numbers, with no key twice
/// in an object.
pub open spec fn is_plain(v: ValueView) -> bool
    decreases v,
{
    match v {
        ValueView::Number(d) => small_int(d) matches Some(i) && d == int_double(i),
        ValueView::Array(a) => all_plain(a),
        ValueView::Object(o) => distinct(o) && entries_plain(o),
        _ => true,
    }
}

/// All values of a list are plain.
pub open spec fn all_plain(s: Seq<ValueView>) -> bool
    decreases s,
{
    s.len() > 0 ==> is_plain(s[0]) && all_plain(s.skip(1))
}

/// All named values are plain.
pub open spec fn entries_plain(s: Seq<(Text, ValueView)>) -> bool
    decreases s,
{
    s.len() > 0 ==> is_plain(s[0].1) && entries_plain(s.skip(1))
}

/// A plain value comes back from JSON as it was, its keys in their order.
pub proof fn law_json_round_trip(v: ValueView, n: NumeralsView)
    requires
        is_plain(v),
    ensures
        tree(v, n) matches Ok(t) && tree_value(t, n) == Ok::<ValueView, NeedView>(v),
    decreases v,
{
    match v {
        ValueView::Number(d) => {
            crate::numeral::lemma_int_reads_back(small_int(d)->Some_0, n);
        },
        ValueView::Array(a) => {
            lemma_items_round_trip(a, n);
        },
        ValueView::Object(o) => {
            lemma_entries_round_trip(o, n);
            let t = entry_trees(o, n)->Ok_0;
            assert(distinct(t)) by {
                assert forall|i: int, j: int| 0 <= i < j < t.len() implies (#[trigger] t[i]).0 != (
                #[trigger] t[j]).0 by {
                    assert(o[i].0 != o[j].0);
                }
            }
            law_distinct_pairs_are_kept(t);
            law_distinct_pairs_are_kept(o);
        },
        _ => {},
    }
}

/// The items of a plain list come back as they were.
proof fn lemma_items_round_trip(s: Seq<ValueView>, n: NumeralsView)
    requires
        all_plain(s),
    ensures
        trees(s, n) matches Ok(t) && tree_values(t, n) == Ok::<Seq<ValueView>, NeedView>(s),
    decreases s,
{
    if s.len() > 0 {
        law_json_round_trip(s[0], n);
        lemma_items_round_trip(s.skip(1), n);
        let t = trees(s, n)->Ok_0;
        assert(t.skip(1) =~= trees(s.skip(1), n)->Ok_0);
        assert(seq![s[0]] + s.skip(1) =~= s);
    } else {
        assert(s =~= Seq::empty());
    }
}

/// The entries of a plain object come back as they were.
proof fn lemma_entries_round_trip(s: Seq<(Text, ValueView)>, n: NumeralsView)
    requires
        entries_plain(s),
    ensures
        entry_trees(s, n) matches Ok(t) && tree_entries(t, n) == Ok::<
            Seq<(Text, ValueView)>,
            NeedView,
        >(s) && t.len() == s.len() && (forall|i: int|
            0 <= i < s.len() ==> (#[trigger] t[i]).0 == s[i].0),
    decreases s,
{
    if s.len() > 0 {
        law_json_round_trip(s[0].1, n);
        lemma_entries_round_trip(s.skip(1), n);
        let t = entry_trees(s, n)->Ok_0;
        let rest = entry_trees(s.skip(1), n)->Ok_0;
        assert(t.skip(1) =~= rest);
        assert(seq![s[0]] + s.skip(1) =~= s);
        assert forall|i: int| 0 <= i < s.len() implies (#[trigger] t[i]).0 == s[i].0 by {
            if i > 0 {
                assert(t[i] == rest[i - 1]);
                assert(s.skip(1)[i - 1] == s[i]);
            }
        }
    } else {
        assert(s =~= Seq::empty());
    }
}

/// What a number is displayed as reads back: the recorded form of a number that
/// has one is a numeral that reads as that number.
pub open spec fn agrees(d: Double, n: NumeralsView) -> bool {
    showing_of(n.showings, d) matches Some(f) ==> is_numeral(f.0) && reading(f.0, n) == Ok::<
        Option<Double>,
        NeedView,
    >(Some(d))
}

/// A displayed number reads back as the number it was; NaN reads back as NaN. For a
/// number that is neither whole and small nor infinite, this rests on the recorded
/// conversions, which must agree with one another.
pub proof fn law_displayed_numbers_read_back(d: Double, n: NumeralsView)
    requires
        agrees(d, n),
        shown(ValueView::Number(d), n) is Ok,
    ensures
        d.is_nan() ==> shown(ValueView::Number(d), n)->Ok_0 == "NaN"@,
        numeric(ValueView::Str(shown(ValueView::Number(d), n)->Ok_0), n) matches Ok(x) && (
        if d.is_nan() {
            x.is_nan()
        } else {
            x.same(d)
        }),
{
    let t = shown(ValueView::Number(d), n)->Ok_0;
    if d.is_nan() {
        lemma_word("NaN"@, n);
    } else if !d.is_finite() {
        lemma_infinities();
    } else {
        match small_int(d) {
            Some(i) => {
                crate::numeral::lemma_int_reads_back(i, n);
                crate::numeral::lemma_int_is_numeral(i);
                lemma_numeral_is_read(t, n);
                crate::double::lemma_same_whole(d, i);
            },
            None => {
                lemma_numeral_is_read(t, n);
            },
        }
    }
}

/// The names of the infinities are read as they stand.
proof fn lemma_infinities()
    ensures
        trimmed("Infinity"@) == "Infinity"@,
        trimmed("-Infinity"@) == "-Infinity"@,
        "Infinity"@ != "-Infinity"@,
        "Infinity"@.len() > 0,
        "-Infinity"@.len() > 0,
{
    reveal_strlit("Infinity");
    reveal_strlit("-Infinity");
    crate::scan::lemma_trimmed_alone("Infinity"@);
    crate::scan::lemma_trimmed_alone("-Infinity"@);
}

/// `NaN` is no number.
proof fn lemma_word(t: Text, n: NumeralsView)
    requires
        t == "NaN"@,
    ensures
        text_number(t, n) == Ok::<Double, NeedView>(nan()),
{
    reveal_strlit("NaN");
    reveal_strlit("Infinity");
    reveal_strlit("-Infinity");
    reveal_strlit("0x");
    reveal_strlit("0X");
    reveal_strlit("0o");
    reveal_strlit("0O");
    crate::scan::lemma_trimmed_alone(t);
    assert(t[0] == 'N');
    assert(t.subrange(0, 2)[0] == 'N');
    lemma_numeral_shape(t);
}

/// A numeral is read as it stands.
proof fn lemma_numeral_is_read(t: Text, n: NumeralsView)
    requires
        is_numeral(t),
    ensures
        text_number(t, n) == (match reading(t, n) {
            Ok(Some(d)) => Ok::<Double, NeedView>(d),
            Ok(None) => Ok(nan()),
            Err(e) => Err(e),
        }),
{
    reveal_strlit("Infinity");
    reveal_strlit("-Infinity");
    reveal_strlit("0x");
    reveal_strlit("0X");
    reveal_strlit("0o");
    reveal_strlit("0O");
    lemma_numeral_shape(t);
    crate::scan::lemma_trimmed_alone(t);
    assert("Infinity"@[0] == 'I');
    assert("-Infinity"@[1] == 'I');
    if t.len() >= 2 {
        assert(t.subrange(0, 2)[1] == t[1]);
    }
}

/// Null, zero, NaN and the empty string are false; aggregates are true.
pub proof fn law_truthiness(a: Seq<ValueView>, o: Seq<(Text, ValueView)>)
    ensures
        !truthy(ValueView::Null),
        !truthy(ValueView::Number(double(0))),
        !truthy(ValueView::Number(nan())),
        !truthy(ValueView::Str(Seq::empty())),
        truthy(ValueView::Array(a)),
        truthy(ValueView::Object(o)),
{
}

/// The number that a text stands for: zero where it is blank, an infinity by name,
/// what it writes in base sixteen or eight behind `0x` or `0o`, and otherwise what
/// it reads as, or no number.
pub proof fn law_what_texts_count(s: Text, h: Text, n: NumeralsView)
    ensures
        trimmed(s).len() == 0 ==> text_number(s, n) == Ok::<Double, NeedView>(double(0)),
        trimmed(s) == "Infinity"@ ==> (text_number(s, n) matches Ok(d) && d.bits == INFINITY),
        trimmed(s) == "-Infinity"@ ==> (text_number(s, n) matches Ok(d) && d.bits == INFINITY
            + SIGN),
        trimmed(s) == seq!['0', 'x'] + h ==> text_number(s, n) == Ok::<Double, NeedView>(
            match signed_value(h, 16) {
                Some(i) => int_double(i),
                None => nan(),
            },
        ),
        trimmed(s) == seq!['0', 'o'] + h ==> text_number(s, n) == Ok::<Double, NeedView>(
            match signed_value(h, 8) {
                Some(i) => int_double(i),
                None => nan(),
            },
        ),
        trimmed(s).len() > 0 && 'a' <= trimmed(s)[0] <= 'z' && trimmed(s)[0] != 'e' ==> (
        text_number(s, n) matches Ok(d) && d.is_nan()),
{
    reveal_strlit("Infinity");
    reveal_strlit("-Infinity");
    reveal_strlit("0x");
    reveal_strlit("0X");
    reveal_strlit("0o");
    reveal_strlit("0O");
    let t = trimmed(s);
    let x = seq!['0', 'x'] + h;
    let o = seq!['0', 'o'] + h;
    assert("0x"@ =~= seq!['0', 'x']);
    assert("0X"@ =~= seq!['0', 'X']);
    assert("0o"@ =~= seq!['0', 'o']);
    crate::text::law_prefixes_and_suffixes(h, "0x"@);
    crate::text::law_prefixes_and_suffixes(h, "0o"@);
    assert("Infinity"@[0] == 'I' && "-Infinity"@[0] == '-');
    assert(x[0] == '0' && o[0] == '0');
    if crate::text::begins(o, "0x"@) {
        assert(o.subrange(0, 2)[1] == 'x');
    }
    if crate::text::begins(o, "0X"@) {
        assert(o.subrange(0, 2)[1] == 'X');
    }
    if t.len() > 0 && 'a' <= t[0] <= 'z' && t[0] != 'e' {
        lemma_not_prefixed(t, "0x"@);
        lemma_not_prefixed(t, "0X"@);
        lemma_not_prefixed(t, "0o"@);
        lemma_not_prefixed(t, "0O"@);
        crate::numeral::lemma_numeral_shape(t);
        if crate::numeral::is_numeral(t) {
            assert(crate::numeral::numeral_char(t[0]));
        }
        lemma_nan_is_nan();
    }
}

proof fn lemma_nan_is_nan()
    ensures
        nan().is_nan(),
{
}

proof fn lemma_not_prefixed(t: Text, p: Text)
    requires
        t.len() > 0,
        p.len() > 0,
        t[0] != p[0],
    ensures
        after_prefix(t, p) is None,
{
    if crate::text::begins(t, p) {
        assert(t.subrange(0, p.len() as int)[0] == p[0]);
    }
}

/// Null is shown as nothing, a boolean as its word, a string as it is, and a list
/// or an object as JSON.
pub proof fn law_how_values_are_shown(v: ValueView, n: NumeralsView)
    ensures
        v is Null ==> shown(v, n) == Ok::<Text, NeedView>(Seq::empty()),
        v == ValueView::Bool(true) ==> shown(v, n) == Ok::<Text, NeedView>("true"@),
        v == ValueView::Bool(false) ==> shown(v, n) == Ok::<Text, NeedView>("false"@),
        v matches ValueView::Str(s) ==> shown(v, n) == Ok::<Text, NeedView>(s),
        v is Array || v is Object ==> (tree(v, n) matches Ok(t) ==> shown(v, n) == Ok::<
            Text,
            NeedView,
        >(json_compact(t))),
{
}

/// A list is a JSON list of its items, in order.
pub proof fn law_lists_as_json(a: Seq<ValueView>, n: NumeralsView)
    ensures
        tree(ValueView::Array(a), n) matches Ok(t) ==> (t matches JsonTree::Array(ts) && ts.len()
            == a.len() && forall|i: int|
            0 <= i < a.len() ==> tree(a[i], n) == Ok::<JsonTree, NeedView>(#[trigger] ts[i])),
{
    lemma_trees(a, n);
}

proof fn lemma_trees(a: Seq<ValueView>, n: NumeralsView)
    ensures
        trees(a, n) matches Ok(ts) ==> ts.len() == a.len() && forall|i: int|
            0 <= i < a.len() ==> tree(a[i], n) == Ok::<JsonTree, NeedView>(#[trigger] ts[i]),
    decreases a.len(),
{
    if a.len() > 0 {
        let t = a.skip(1);
        lemma_trees(t, n);
        if let Ok(ts) = trees(a, n) {
            let w = trees(t, n)->Ok_0;
            assert(ts =~= seq![tree(a[0], n)->Ok_0] + w);
            assert forall|i: int| 0 <= i < a.len() implies tree(a[i], n) == Ok::<
                JsonTree,
                NeedView,
            >(#[trigger] ts[i]) by {
                if i > 0 {
                    assert(ts[i] == w[i - 1]);
                    assert(t[i - 1] == a[i]);
                }
            }
        }
    }
}

/// JSON values read as the values of their kind, item by item.
pub proof fn law_json_reads_in_kind(t: JsonTree, n: NumeralsView)
    ensures
        t is Null ==> tree_value(t, n) == Ok::<ValueView, NeedView>(ValueView::Null),
        t matches JsonTree::Bool(b) ==> tree_value(t, n) == Ok::<ValueView, NeedView>(
            ValueView::Bool(b),
        ),
        t matches JsonTree::Str(s) ==> tree_value(t, n) == Ok::<ValueView, NeedView>(
            ValueView::Str(s),
        ),
        t matches JsonTree::Array(a) ==> (tree_value(t, n) matches Ok(v) ==> (
        v matches ValueView::Array(vs) && vs.len() == a.len() && forall|i: int|
            0 <= i < a.len() ==> tree_value(a[i], n) == Ok::<ValueView, NeedView>(
                #[trigger] vs[i],
            ))),
{
    if let JsonTree::Array(a) = t {
        lemma_tree_values(a, n);
    }
}

proof fn lemma_tree_values(a: Seq<JsonTree>, n: NumeralsView)
    ensures
        tree_values(a, n) matches Ok(vs) ==> vs.len() == a.len() && forall|i: int|
            0 <= i < a.len() ==> tree_value(a[i], n) == Ok::<ValueView, NeedView>(
                #[trigger] vs[i],
            ),
    decreases a.len(),
{
    if a.len() > 0 {
        let t = a.skip(1);
        lemma_tree_values(t, n);
        if let Ok(vs) = tree_values(a, n) {
            let w = tree_values(t, n)->Ok_0;
            assert(vs =~= seq![tree_value(a[0], n)->Ok_0] + w);
            assert forall|i: int| 0 <= i < a.len() implies tree_value(a[i], n) == Ok::<
                ValueView,
                NeedView,
            >(#[trigger] vs[i]) by {
                if i > 0 {
                    assert(vs[i] == w[i - 1]);
                    assert(t[i - 1] == a[i]);
                }
            }
        }
    }
}

/// Values are equal in kind: numbers by value, strings as they stand, lists item
/// by item, and objects by what each of their keys holds.
pub proof fn law_equal_values(x: ValueView, y: ValueView, i: int)
    ensures
        x matches ValueView::Bool(a) ==> (y matches ValueView::Bool(b) ==> (same_values(x, y)
            <==> a == b)),
        x matches ValueView::Number(a) ==> (y matches ValueView::Number(b) ==> (same_values(x, y)
            <==> a.same(b))),
        x matches ValueView::Str(a) ==> (y matches ValueView::Str(b) ==> (same_values(x, y) <==> a
            == b)),
        x matches ValueView::Array(a) ==> (y matches ValueView::Array(b) ==> (same_values(x, y)
            ==> a.len() == b.len() && (0 <= i < a.len() ==> same_values(a[i], b[i])))),
        x matches ValueView::Array(a) ==> (y matches ValueView::Array(b) ==> (a.len() == b.len()
            && (forall|k: int| 0 <= k < a.len() ==> same_values(#[trigger] a[k], b[k]))
            ==> same_values(x, y))),
        x matches ValueView::Object(a) ==> (y matches ValueView::Object(b) ==> (same_values(x, y)
            ==> a.len() == b.len() && (0 <= i < a.len() ==> (lookup(b, a[i].0) matches Some(w)
            && same_values(a[i].1, w))))),
        same_values(ValueView::Null, ValueView::Null),
        (x is Null) != (y is Null) || (x is Bool) != (y is Bool) || (x is Number) != (y is Number)
            || (x is Str) != (y is Str) || (x is Array) != (y is Array) || (x is Object) != (
        y is Object) ==> !same_values(x, y),
{
    reveal_with_fuel(same_values, 2);
}

/// An object is a JSON object with each of its entries under its key.
pub proof fn law_objects_as_json(o: Seq<(Text, ValueView)>, n: NumeralsView, i: int)
    requires
        distinct(o),
        0 <= i < o.len(),
    ensures
        tree(ValueView::Object(o), n) matches Ok(t) ==> (t matches JsonTree::Object(ts) && ts.len()
            == o.len() && ts[i].0 == o[i].0 && tree(o[i].1, n) == Ok::<JsonTree, NeedView>(
            ts[i].1,
        )),
{
    lemma_entry_trees(o, n);
    if let Ok(ts) = entry_trees(o, n) {
        assert forall|a: int, b: int| 0 <= a < b < ts.len() implies (#[trigger] ts[a]).0 != (
        #[trigger] ts[b]).0 by {
            assert(o[a].0 != o[b].0);
        }
        crate::table::law_distinct_pairs_are_kept(ts);
    }
}

proof fn lemma_entry_trees(o: Seq<(Text, ValueView)>, n: NumeralsView)
    ensures
        entry_trees(o, n) matches Ok(ts) ==> ts.len() == o.len() && forall|i: int|
            0 <= i < o.len() ==> (#[trigger] ts[i]).0 == o[i].0 && tree(o[i].1, n) == Ok::<
                JsonTree,
                NeedView,
            >(ts[i].1),
    decreases o.len(),
{
    if o.len() > 0 {
        let t = o.skip(1);
        lemma_entry_trees(t, n);
        if let Ok(ts) = entry_trees(o, n) {
            let w = entry_trees(t, n)->Ok_0;
            assert(ts =~= seq![(o[0].0, tree(o[0].1, n)->Ok_0)] + w);
            assert forall|i: int| 0 <= i < o.len() implies (#[trigger] ts[i]).0 == o[i].0 && tree(
                o[i].1,
                n,
            ) == Ok::<JsonTree, NeedView>(ts[i].1) by {
                if i > 0 {
                    assert(ts[i] == w[i - 1]);
                    assert(t[i - 1] == o[i]);
                }
            }
        }
    }
}

/// A number that is an integer of moderate size is that integer in JSON, and one
/// that is infinite or none is null.
pub proof fn law_numbers_as_json(d: Double, i: int, n: NumeralsView)
    ensures
        !d.is_finite() ==> tree(ValueView::Number(d), n) == Ok::<JsonTree, NeedView>(
            JsonTree::Null,
        ),
        d.is_finite() && d.whole() == Some(i) && -1_000_000_000_000_000 < i < 1_000_000_000_000_000
            ==> tree(ValueView::Number(d), n) == Ok::<JsonTree, NeedView>(
            JsonTree::Number(int_text(i)),
        ),
{
}

} // verus!
