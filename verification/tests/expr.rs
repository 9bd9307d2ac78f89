use stepci::double::Double;
use stepci::expr::error::ExprError;
use stepci::expr::eval::Context;
use stepci::expr::{
    evaluate, evaluate_text, find_close, interpolate, references_status_function, JobStatus,
};
use stepci::members::Members;
use stepci::numeral::{Need, Numerals};
use stepci::text::chars_of;
use stepci::value::Value;

fn learn(n: &mut Numerals, need: Need) {
    match need {
        Need::Reading(t) => {
            let bits = t.parse::<f64>().unwrap().to_bits();
            n.learn_reading(t, Double { bits });
        }
        Need::Showing(d) => {
            let f = f64::from_bits(d.bits);
            let json = serde_json::Number::from_f64(f).unwrap().to_string();
            n.learn_showing(d, f.to_string(), json, format!("{f:?}"));
        }
    }
}

fn text(s: &str) -> Value {
    Value::Str(s.to_string())
}

fn number(f: f64) -> Value {
    Value::Number(Double { bits: f.to_bits() })
}

fn ctx() -> Context {
    let mut github = Members::new();
    github.insert("event_name".to_string(), text("push"));
    github.insert("ref".to_string(), text("refs/heads/main"));
    let mut vars = Members::new();
    vars.insert("github".to_string(), Value::Object(github));
    Context::new(vars)
}

fn try_ev(src: &str, c: &mut Context) -> Result<Value, ExprError> {
    loop {
        match evaluate(src, c) {
            Err(ExprError::Need(n)) => learn(&mut c.numerals, n),
            other => return other,
        }
    }
}

fn ev(src: &str) -> Value {
    match try_ev(src, &mut ctx()) {
        Ok(v) => v,
        Err(e) => panic!("eval `{src}` failed: {}", message(&e)),
    }
}

fn message(e: &ExprError) -> String {
    let mut n = Numerals::new();
    loop {
        match e.message(&n) {
            Ok(m) => return m,
            Err(need) => learn(&mut n, need),
        }
    }
}

fn failure(src: &str) -> String {
    message(&try_ev(src, &mut ctx()).unwrap_err())
}

fn fill(template: &str) -> Result<String, String> {
    let mut c = ctx();
    loop {
        match interpolate(template, &c) {
            Err(ExprError::Need(n)) => learn(&mut c.numerals, n),
            Err(e) => return Err(message(&e)),
            Ok(t) => return Ok(t),
        }
    }
}

#[test]
fn literals_and_numbers() {
    assert_eq!(ev("true"), Value::Bool(true));
    assert_eq!(ev("null"), Value::Null);
    assert_eq!(ev("42"), number(42.0));
    assert_eq!(ev("0xff"), number(255.0));
    assert_eq!(ev("-3"), number(-3.0));
    assert_eq!(ev("'it''s ok'"), text("it's ok"));
}

#[test]
fn context_lookup_and_missing_is_null() {
    assert_eq!(ev("github.event_name"), text("push"));
    assert_eq!(ev("github.nope"), Value::Null);
    assert_eq!(ev("totally.unknown"), Value::Null);
    assert_eq!(ev("github['ref']"), text("refs/heads/main"));
}

#[test]
fn equality_is_case_insensitive_for_strings() {
    assert_eq!(ev("'PUSH' == 'push'"), Value::Bool(true));
    assert_eq!(ev("github.event_name == 'PUSH'"), Value::Bool(true));
    assert_eq!(ev("'a' != 'b'"), Value::Bool(true));
}

#[test]
fn loose_numeric_comparison() {
    assert_eq!(ev("1 < 2"), Value::Bool(true));
    assert_eq!(ev("'3' == 3"), Value::Bool(true));
    assert_eq!(ev("true == 1"), Value::Bool(true));
    assert_eq!(ev("null == 0"), Value::Bool(true));
    assert_eq!(ev("'x' == 0"), Value::Bool(false));
}

#[test]
fn and_or_return_operands_and_short_circuit() {
    assert_eq!(ev("'' || 'fallback'"), text("fallback"));
    assert_eq!(ev("'set' || 'fallback'"), text("set"));
    assert_eq!(ev("true && 'yes'"), text("yes"));
    // `hashFiles` is an error where it is reached.
    assert_eq!(ev("false && hashFiles('x')"), Value::Bool(false));
    assert_eq!(ev("'keep' || hashFiles('x')"), text("keep"));
}

#[test]
fn aggregates_are_never_equal() {
    assert_eq!(
        ev("fromJSON('[1,2]') == fromJSON('[1,2]')"),
        Value::Bool(false)
    );
    assert_eq!(
        ev("fromJSON('{\"a\":1}') == fromJSON('{\"a\":1}')"),
        Value::Bool(false)
    );
}

#[test]
fn relational_strings_and_bools() {
    assert_eq!(ev("'a' < 'b'"), Value::Bool(true));
    assert_eq!(ev("'B' > 'a'"), Value::Bool(true));
    assert_eq!(ev("'a' <= 'a'"), Value::Bool(true));
    assert_eq!(ev("false < true"), Value::Bool(true));
    assert_eq!(ev("2 > 10"), Value::Bool(false));
}

#[test]
fn format_with_huge_index_errors_not_panics() {
    let err = failure("format('{99999999999999999999}', 'a')");
    assert!(err.contains("not supplied"), "got: {err}");
}

#[test]
fn deeply_nested_expression_errors_instead_of_overflowing() {
    let deep = format!("{}true{}", "!".repeat(5000), "");
    assert!(failure(&deep).contains("nested too deeply"));
    let parens = format!("{}1{}", "(".repeat(5000), ")".repeat(5000));
    assert!(try_ev(&parens, &mut ctx()).is_err());
}

#[test]
fn not_and_precedence() {
    assert_eq!(ev("!false"), Value::Bool(true));
    assert_eq!(ev("!'' == true"), Value::Bool(true));
    assert_eq!(ev("1 < 2 && 2 < 3"), Value::Bool(true));
}

#[test]
fn functions_contains_startswith_endswith() {
    assert_eq!(ev("contains('hello world', 'World')"), Value::Bool(true));
    assert_eq!(ev("contains(fromJSON('[1,2,3]'), 2)"), Value::Bool(true));
    assert_eq!(
        ev("startsWith('refs/heads/main', 'refs/')"),
        Value::Bool(true)
    );
    assert_eq!(ev("endsWith('main.rs', '.RS')"), Value::Bool(true));
}

#[test]
fn function_format() {
    assert_eq!(ev("format('{0}/{1}', 'a', 'b')"), text("a/b"));
    assert_eq!(ev("format('{{literal}} {0}', 'x')"), text("{literal} x"));
    assert!(failure("format('{1}', 'only-zero')").contains("was not supplied"));
}

#[test]
fn function_join_and_json() {
    assert_eq!(ev("join(fromJSON('[\"a\",\"b\"]'), '-')"), text("a-b"));
    assert_eq!(ev("join(fromJSON('[1,2,3]'))"), text("1,2,3"));
    assert_eq!(ev("fromJSON('{\"n\": 5}').n"), number(5.0));
    assert_eq!(ev("toJSON(1)"), text("1"));
}

#[test]
fn status_functions() {
    let mut c = ctx();
    c.status = JobStatus::Failure;
    assert_eq!(evaluate("success()", &c).unwrap(), Value::Bool(false));
    assert_eq!(evaluate("failure()", &c).unwrap(), Value::Bool(true));
    assert_eq!(evaluate("always()", &c).unwrap(), Value::Bool(true));
    assert_eq!(evaluate("cancelled()", &c).unwrap(), Value::Bool(false));
}

#[test]
fn interpolation_mixes_literal_and_expressions() {
    assert_eq!(
        fill("on ${{ github.event_name }} at ${{ 1 == 1 }}").unwrap(),
        "on push at true"
    );
    // A `}}` inside a string literal does not end the expression.
    assert_eq!(fill("${{ contains('a}}b', '}}') }}").unwrap(), "true");
    assert_eq!(fill("plain text").unwrap(), "plain text");
}

#[test]
fn errors_are_actionable() {
    assert!(failure("bogus(1)").contains("unknown function"));
    assert!(failure("hashFiles('*')").contains("not supported"));
    assert!(failure("1 +").contains("unexpected character"));
    assert!(failure("(1 == 1").contains("expected `)`"));
    assert!(fill("${{ 1 == 1").is_err());
}

#[test]
fn every_error_says_what_is_wrong() {
    assert_eq!(failure("'open"), "unterminated string literal in expression");
    assert_eq!(
        failure("1.2.3"),
        "invalid number literal `1.2.3` in expression"
    );
    assert_eq!(
        failure("1 2"),
        "unexpected trailing tokens in expression (near Number(2.0))"
    );
    assert_eq!(
        failure("1 2.5"),
        "unexpected trailing tokens in expression (near Number(2.5))"
    );
    assert_eq!(
        failure("1 )"),
        "unexpected trailing tokens in expression (near RParen)"
    );
    assert_eq!(
        failure("github.'x'"),
        "expected a property name after `.`, found Some(Str(\"x\"))"
    );
    assert_eq!(
        failure("github['ref'"),
        "expected `]` to close an index expression"
    );
    assert_eq!(failure("1 =="), "expected a value in expression, found None");
    assert_eq!(
        failure("contains('a' 'b')"),
        "expected `,` or `)` in function arguments"
    );
    assert_eq!(
        failure("github.*"),
        "object filter expressions (`.*`) are not supported yet"
    );
    assert_eq!(failure("join()"), "join expects 1 or 2 arguments, got 0");
    assert_eq!(
        failure("contains('a')"),
        "contains expects 2 argument(s), got 1"
    );
    assert!(failure("fromJSON('{')").starts_with("fromJSON: invalid JSON: "));
    assert_eq!(failure("format()"), "format expects at least 1 argument");
    assert_eq!(
        failure("format('{x}', 1)"),
        "format: malformed placeholder in `{x}`"
    );
    assert_eq!(
        failure("format('a}b')"),
        "format: unescaped `}` in `a}b` (use `}}`)"
    );
    assert_eq!(fill("a ${{ b").unwrap_err(), "unterminated `${{` expression");
}

#[test]
fn the_depth_limit_is_exact() {
    for n in [100, 127] {
        let fits = format!("{}1{}", "(".repeat(n), ")".repeat(n));
        assert_eq!(ev(&fits), number(1.0));
    }
    assert_eq!(ev(&format!("{}true", "!".repeat(127))), Value::Bool(false));
    for n in [128, 200] {
        assert_eq!(
            failure(&format!("{}1{}", "(".repeat(n), ")".repeat(n))),
            "expression nested too deeply (limit 128)"
        );
        assert_eq!(
            failure(&format!("{}true", "!".repeat(n))),
            "expression nested too deeply (limit 128)"
        );
    }
}

#[test]
fn errors_name_numbers_by_their_value() {
    assert!(failure("1 2.50").contains("Number(2.5)"));
    assert!(failure("1 0x10").contains("Number(16.0)"));
    assert!(failure("1 -0").contains("Number(-0.0)"));
    assert!(failure("1 1e30").contains("Number(1e30)"));
}

#[test]
fn a_missing_conversion_is_named_and_then_used() {
    let mut c = ctx();
    match evaluate("1.5", &c) {
        Err(ExprError::Need(Need::Reading(t))) => assert_eq!(t, "1.5"),
        other => panic!("got {other:?}"),
    }
    c.numerals.learn_reading(
        "1.5".to_string(),
        Double {
            bits: 1.5f64.to_bits(),
        },
    );
    assert_eq!(evaluate("1.5", &c).unwrap(), number(1.5));
    assert_eq!(fill("${{ 1.5 }}|${{ 0.1 }}|${{ 1e21 }}").unwrap(), "1.5|0.1|1000000000000000000000");
    assert_eq!(ev("1.5 < 2"), Value::Bool(true));
    assert_eq!(ev("'1.5' == 1.5"), Value::Bool(true));
}

#[test]
fn json_is_written_and_read() {
    assert_eq!(
        ev("toJSON(github)"),
        text("{\n  \"event_name\": \"push\",\n  \"ref\": \"refs/heads/main\"\n}")
    );
    assert_eq!(fill("${{ github }}").unwrap(), r#"{"event_name":"push","ref":"refs/heads/main"}"#);
    assert_eq!(ev("fromJSON(toJSON(github)).ref"), text("refs/heads/main"));
    assert_eq!(ev("fromJSON('[1, [2]]')[1][0]"), number(2.0));
    assert_eq!(ev("fromJSON('[1]')[7]"), Value::Null);
}

#[test]
fn nan_stands_in_no_relation() {
    for op in ["<", "<=", ">", ">=", "=="] {
        assert_eq!(ev(&format!("'x' {op} 1")), Value::Bool(false), "{op}");
    }
    assert_eq!(ev("'x' != 1"), Value::Bool(true));
}

#[test]
fn literal_text_in_front_is_kept() {
    assert_eq!(fill("a}}b ${{ 'x' }}").unwrap(), "a}}b x");
    assert_eq!(fill("cost: $5 ${{ 1 }}").unwrap(), "cost: $5 1");
}

#[test]
fn a_closing_brace_pair_in_a_string_is_passed_over() {
    let s = chars_of("'a}}' }} x");
    assert_eq!(find_close(&s, 0), Some(6));
    assert_eq!(find_close(&chars_of("'}}"), 0), None);
}

#[test]
fn status_functions_are_found_by_their_calls() {
    let n = Numerals::new();
    assert!(references_status_function("Cancelled()", &n).unwrap());
    assert!(!references_status_function("failure.x", &n).unwrap());
    assert!(references_status_function("1 +", &n).is_err());
}

#[test]
fn a_span_shows_as_text() {
    let c = ctx();
    assert_eq!(evaluate_text("null", &c).unwrap(), "");
    assert_eq!(evaluate_text("true", &c).unwrap(), "true");
    assert_eq!(evaluate_text("3", &c).unwrap(), "3");
}

#[test]
fn a_context_is_copied_and_starts_empty() {
    let c = ctx();
    let mut d = c.clone();
    assert_eq!(evaluate("github.ref", &d).unwrap(), text("refs/heads/main"));
    d.vars.insert("github".to_string(), Value::Null);
    d.status = JobStatus::Failure;
    assert_eq!(evaluate("github.ref", &d).unwrap(), Value::Null);
    assert_eq!(evaluate("github.ref", &c).unwrap(), text("refs/heads/main"));
    assert_eq!(evaluate("success()", &c).unwrap(), Value::Bool(true));
    let empty = Context::default();
    assert_eq!(empty.vars.len(), 0);
    assert_eq!(empty.status, JobStatus::Success);
    assert_eq!(evaluate("github.ref", &empty).unwrap(), Value::Null);
}
