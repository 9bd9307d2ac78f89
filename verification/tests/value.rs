use stepci::double::{from_int, Double};
use stepci::members::{members_of, Members};
use stepci::numeral::{format_number, read_number, Need, Numerals};
use stepci::numtext::{i64_text, nat_text, read_signed, read_unsigned, usize_text};
use stepci::value::Value;

fn learn(n: &mut Numerals, need: Need) {
    match need {
        Need::Reading(t) => {
            let bits = t.parse::<f64>().unwrap().to_bits();
            n.learn_reading(t, Double { bits });
        }
        Need::Showing(d) => {
            let f = f64::from_bits(d.bits);
            let json = serde_json::Number::from_f64(f).unwrap().to_string();
            n.learn_showing(d, f.to_string(), json, format!("{f:?}"));
        }
    }
}

fn to_number(v: Value) -> f64 {
    let mut n = Numerals::new();
    loop {
        match v.to_number(&n) {
            Ok(d) => return f64::from_bits(d.bits),
            Err(need) => learn(&mut n, need),
        }
    }
}

fn shown(v: &Value) -> String {
    let mut n = Numerals::new();
    loop {
        match v.to_display_string(&n) {
            Ok(t) => return t,
            Err(need) => learn(&mut n, need),
        }
    }
}

fn number(f: f64) -> Value {
    Value::Number(Double { bits: f.to_bits() })
}

fn text(s: &str) -> Value {
    Value::Str(s.to_string())
}

#[test]
fn to_number_coercions() {
    assert_eq!(to_number(Value::Null), 0.0);
    assert_eq!(to_number(Value::Bool(true)), 1.0);
    assert_eq!(to_number(Value::Bool(false)), 0.0);
    assert_eq!(to_number(text("")), 0.0);
    assert_eq!(to_number(text("  42 ")), 42.0);
    assert_eq!(to_number(text("0xff")), 255.0);
    assert!(to_number(text("nope")).is_nan());
    assert!(to_number(Value::Array(vec![])).is_nan());
}

#[test]
fn number_coercion_matches_github_specials() {
    assert_eq!(to_number(text("Infinity")), f64::INFINITY);
    assert_eq!(to_number(text("-Infinity")), f64::NEG_INFINITY);
    assert!(to_number(text("inf")).is_nan());
    assert!(to_number(text("infinity")).is_nan());
    assert!(to_number(text("nan")).is_nan());
    assert_eq!(to_number(text("0o17")), 15.0);
}

#[test]
fn truthiness() {
    assert!(!Value::Null.is_truthy());
    assert!(!number(0.0).is_truthy());
    assert!(!number(f64::NAN).is_truthy());
    assert!(number(3.0).is_truthy());
    assert!(!text("").is_truthy());
    assert!(text("x").is_truthy());
    assert!(Value::Array(vec![]).is_truthy());
}

#[test]
fn integral_numbers_stringify_without_decimals() {
    assert_eq!(shown(&number(1.0)), "1");
    assert_eq!(shown(&number(255.0)), "255");
    assert_eq!(shown(&number(1.5)), "1.5");
    assert_eq!(shown(&Value::Null), "");
}

#[test]
fn json_round_trip_preserves_shape_and_order() {
    let json: serde_json::Value = serde_json::from_str(r#"{"b": 1, "a": [true, "x"]}"#).unwrap();
    let n = Numerals::new();
    let v = Value::from_json(json, &n).unwrap();
    let s = serde_json::to_string(&v.to_json(&n).unwrap()).unwrap();
    assert_eq!(s, r#"{"b":1,"a":[true,"x"]}"#);
}

#[test]
fn json_numbers_keep_their_value() {
    let json: serde_json::Value = serde_json::from_str("[0.5, -7, 1e300, null]").unwrap();
    let mut n = Numerals::new();
    let v = loop {
        match Value::from_json(json.clone(), &n) {
            Ok(v) => break v,
            Err(need) => learn(&mut n, need),
        }
    };
    assert_eq!(
        v,
        Value::Array(vec![number(0.5), number(-7.0), number(1e300), Value::Null])
    );
    let back = loop {
        match v.to_json(&n) {
            Ok(j) => break j,
            Err(need) => learn(&mut n, need),
        }
    };
    assert_eq!(back.to_string(), "[0.5,-7,1e+300,null]");
}

#[test]
fn what_is_not_finite_is_null_in_json() {
    let n = Numerals::new();
    assert!(number(f64::NAN).to_json(&n).unwrap().is_null());
    assert!(number(f64::INFINITY).to_json(&n).unwrap().is_null());
}

#[test]
fn whole_numerals_read_as_the_nearest_double() {
    let n = Numerals::new();
    for t in ["0", "-0", "7", "+7", "007", "9007199254740992", "-123456789", "5.000"] {
        let want = t.parse::<f64>().unwrap();
        let got = read_number(t, &n).unwrap().unwrap();
        assert_eq!(f64::from_bits(got.bits), want, "{t}");
    }
    assert!(read_number("seven", &n).unwrap().is_none());
    assert!(read_number("", &n).unwrap().is_none());
    assert!(matches!(read_number("1e3", &n), Err(Need::Reading(_))));
}

#[test]
fn integers_become_doubles() {
    for i in [
        0i64,
        1,
        -1,
        2,
        255,
        1 << 52,
        (1 << 53) - 1,
        (1 << 53) + 1,
        (1 << 62) + 12345,
        i64::MAX,
        i64::MIN,
        -987654321987654321,
    ] {
        assert_eq!(f64::from_bits(from_int(i).bits), i as f64, "{i}");
    }
}

#[test]
fn doubles_compare_as_numbers() {
    let samples = [
        0.0,
        -0.0,
        1.0,
        -1.0,
        0.5,
        1e300,
        -1e300,
        5e-324,
        f64::INFINITY,
        f64::NEG_INFINITY,
        f64::NAN,
    ];
    for a in samples {
        for b in samples {
            let x = Double { bits: a.to_bits() };
            let y = Double { bits: b.to_bits() };
            assert_eq!(x.equals(&y), a == b, "{a} == {b}");
            assert_eq!(x.less(&y), a < b, "{a} < {b}");
        }
        let x = Double { bits: a.to_bits() };
        assert_eq!(x.nan(), a.is_nan());
        assert_eq!(x.finite(), a.is_finite());
        assert_eq!(x.is_truthy(), a != 0.0 && !a.is_nan());
    }
}

#[test]
fn doubles_index_lists() {
    let at = |f: f64, len: usize| Double { bits: f.to_bits() }.index_below(len);
    assert_eq!(at(0.0, 3), Some(0));
    assert_eq!(at(2.0, 3), Some(2));
    assert_eq!(at(3.0, 3), None);
    assert_eq!(at(1.5, 3), None);
    assert_eq!(at(-1.0, 3), None);
    assert_eq!(at(f64::NAN, 3), None);
}

#[test]
fn numbers_are_written_plainly() {
    let mut n = Numerals::new();
    for f in [0.1, 1e15, 123456789.5, -2.25, 1e-7] {
        let d = Double { bits: f64::to_bits(f) };
        let t = loop {
            match format_number(d, &n) {
                Ok(t) => break t,
                Err(need) => learn(&mut n, need),
            }
        };
        assert_eq!(t, f.to_string(), "{f}");
    }
}

#[test]
fn integers_are_read_and_written() {
    assert_eq!(usize_text(0), "0");
    assert_eq!(usize_text(12345), "12345");
    assert_eq!(i64_text(-42), "-42");
    assert_eq!(i64_text(i64::MIN), i64::MIN.to_string());
    assert_eq!(nat_text(255, 16), "ff");
    assert_eq!(nat_text(u128::MAX, 10), u128::MAX.to_string());
    assert_eq!(read_unsigned("42", 100), Some(42));
    assert_eq!(read_unsigned("101", 100), None);
    assert_eq!(read_unsigned("4 2", 100), None);
    assert_eq!(read_signed("-ff", 16), Some(-255));
    assert_eq!(read_signed("7fffffffffffffff", 16), Some(i64::MAX));
    assert_eq!(read_signed("8000000000000000", 16), None);
}

fn object(list: &[(&str, Value)]) -> Value {
    Value::Object(members_of(
        list.iter().map(|(k, v)| (k.to_string(), v.clone())).collect(),
    ))
}

#[test]
fn values_are_equal_as_numbers_and_as_maps() {
    assert!(number(f64::NAN) != number(f64::NAN));
    assert!(number(0.0) == number(-0.0));
    assert!(number(1.0) != number(2.0));
    assert!(number(1.0) != text("1"));
    let list = |v: Vec<Value>| Value::Array(v);
    assert!(list(vec![number(0.0), Value::Null]) == list(vec![number(-0.0), Value::Null]));
    assert!(list(vec![number(f64::NAN)]) != list(vec![number(f64::NAN)]));
    assert!(list(vec![Value::Null]) != list(vec![]));
    let ab = object(&[("a", number(1.0)), ("b", text("x"))]);
    let ba = object(&[("b", text("x")), ("a", number(1.0))]);
    assert!(ab == ba);
    assert!(ab != object(&[("a", number(1.0)), ("b", text("y"))]));
    assert!(ab != object(&[("a", number(1.0)), ("c", text("x"))]));
    assert!(ab != object(&[("a", number(1.0))]));
}

#[test]
fn members_keep_their_order_and_their_names_once() {
    let mut m = Members::new();
    m.insert("b".to_string(), number(1.0));
    m.insert("a".to_string(), number(2.0));
    m.insert("b".to_string(), number(3.0));
    assert_eq!(m.len(), 2);
    assert_eq!(m.at(0), Some((&"b".to_string(), &number(3.0))));
    assert_eq!(m.at(1), Some((&"a".to_string(), &number(2.0))));
    assert_eq!(m.at(2), None);
    assert_eq!(m.get("a"), Some(&number(2.0)));
    assert_eq!(m.get("c"), None);
    let copy = m.clone();
    m.insert("c".to_string(), Value::Null);
    assert_eq!((copy.len(), m.len()), (2, 3));
    assert_eq!(Members::default().len(), 0);
}

#[test]
fn displayed_numbers_read_back() {
    let mut n = Numerals::new();
    let samples = [0.0, -0.0, 42.0, -7.5, 0.1, 1e21, f64::INFINITY, f64::NEG_INFINITY, f64::NAN];
    for f in samples {
        let t = loop {
            match number(f).to_display_string(&n) {
                Ok(t) => break t,
                Err(need) => learn(&mut n, need),
            }
        };
        let back = to_number(text(&t));
        assert!(back == f || (back.is_nan() && f.is_nan()), "{f}: {t}");
    }
}
