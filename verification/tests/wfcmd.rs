use stepci::wfcmd::parse;

#[test]
fn set_output_with_name_param() {
    let c = parse("::set-output name=result::hello world").unwrap();
    assert_eq!(c.name, "set-output");
    assert_eq!(c.param("name"), Some("result"));
    assert_eq!(c.message, "hello world");
}

#[test]
fn add_mask_has_no_params() {
    let c = parse("::add-mask::s3cr3t").unwrap();
    assert_eq!(c.name, "add-mask");
    assert!(c.params.is_empty());
    assert_eq!(c.message, "s3cr3t");
}

#[test]
fn endgroup_has_empty_message() {
    let c = parse("::endgroup::").unwrap();
    assert_eq!(c.name, "endgroup");
    assert_eq!(c.message, "");
}

#[test]
fn message_may_contain_double_colons() {
    let c = parse("::set-output name=x::a::b::c").unwrap();
    assert_eq!(c.param("name"), Some("x"));
    assert_eq!(c.message, "a::b::c");
}

#[test]
fn percent_escapes_are_decoded() {
    // A newline in the value, and a literal `%` and `:` in a property.
    let c = parse("::set-output name=a%3Ab::line1%0Aline2%25done").unwrap();
    assert_eq!(c.param("name"), Some("a:b"));
    assert_eq!(c.message, "line1\nline2%done");
}

#[test]
fn multiple_params_and_file_line() {
    let c = parse("::error file=app.js,line=10,col=5::Something broke").unwrap();
    assert_eq!(c.name, "error");
    assert_eq!(c.param("file"), Some("app.js"));
    assert_eq!(c.param("line"), Some("10"));
    assert_eq!(c.param("col"), Some("5"));
    assert_eq!(c.message, "Something broke");
}

#[test]
fn non_commands_return_none() {
    assert!(parse("regular output").is_none());
    assert!(parse("std::vector<int> v;").is_none()); // no leading `::`
    assert!(parse("::just-a-prefix").is_none()); // no closing `::`
    assert!(parse("::::").is_none()); // empty command name
    assert!(parse("::debug::").is_some()); // minimal well-formed command
}

#[test]
fn escaped_escapes_stay_as_they_were() {
    let c = parse("::notice::100%250A done").unwrap();
    assert_eq!(c.message, "100%0A done");
    let p = parse("::x a=1%2C2,b,c = 3::m").unwrap();
    assert_eq!(
        p.params,
        vec![
            ("a".to_string(), "1,2".to_string()),
            ("c".to_string(), " 3".to_string())
        ]
    );
    assert_eq!(p.param("b"), None);
}

#[test]
fn escaped_commands_read_back() {
    let c = parse("::notice title=50%25%3A a%2Cb::100%25 %0D%0A%250A").unwrap();
    assert_eq!(c.name, "notice");
    assert_eq!(c.param("title"), Some("50%: a,b"));
    assert_eq!(c.message, "100% \r\n%0A");
}

#[test]
fn names_and_keys_are_decoded() {
    let c = parse("::n%25 k%25=v::").unwrap();
    assert_eq!(c.name, "n%");
    assert_eq!(c.params, vec![("k%".to_string(), "v".to_string())]);
    assert_eq!(c.message, "");
}

#[test]
fn every_parameter_reads_back() {
    let c = parse("::e a%3D=1%2C2,b%2Cc=%3A,d=100%25::m").unwrap();
    assert_eq!(
        c.params,
        vec![
            ("a%3D".to_string(), "1,2".to_string()),
            ("b,c".to_string(), ":".to_string()),
            ("d".to_string(), "100%".to_string())
        ]
    );
}
