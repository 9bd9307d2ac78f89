use stepci::secrets::{
    load_secrets, parse_dotenv, resolve, split_secret, tool_output, unquote, Resolution, SecretError,
};

#[test]
fn dotenv_handles_comments_quotes_and_export() {
    let kv = parse_dotenv(
        "# a comment\nexport TOKEN=abc123\nQUOTED=\"a b c\"\nSINGLE='x y'\n\nEMPTY=\n",
    )
    .unwrap();
    assert_eq!(
        kv,
        vec![
            ("TOKEN".into(), "abc123".into()),
            ("QUOTED".into(), "a b c".into()),
            ("SINGLE".into(), "x y".into()),
            ("EMPTY".into(), "".into()),
        ]
    );
}

#[test]
fn dotenv_rejects_a_line_without_equals() {
    assert!(parse_dotenv("VALID=1\nnonsense\n").is_err());
}

#[test]
fn split_inline_value_and_env_lookup() {
    let env = vec![(
        "STEPCI_TEST_SECRET_UNIQUE".to_string(),
        "sekret".to_string(),
    )];
    assert_eq!(
        split_secret("A=b=c", &env).unwrap(),
        ("A".to_string(), "b=c".to_string())
    );
    // A bare name reads from the environment.
    assert_eq!(
        split_secret("STEPCI_TEST_SECRET_UNIQUE", &env).unwrap(),
        (
            "STEPCI_TEST_SECRET_UNIQUE".to_string(),
            "sekret".to_string()
        )
    );
    assert!(split_secret("STEPCI_NOT_SET_ANYWHERE_XYZ", &env).is_err());
}

#[test]
fn resolve_passes_through_literal_values() {
    match resolve("plain-value").unwrap() {
        Resolution::Literal(v) => assert_eq!(v, "plain-value"),
        other => panic!("expected a literal, got {other:?}"),
    }
}

#[test]
fn vault_reference_requires_a_field() {
    // Missing `#field` is rejected before we ever shell out.
    assert!(resolve("vault://secret/data/app").is_err());
}

#[test]
fn references_name_the_tool_that_resolves_them() {
    match resolve("op://vault/item/field").unwrap() {
        Resolution::Tool { bin, args, about } => {
            assert_eq!(bin, "op");
            assert_eq!(args, vec!["read", "--no-newline", "op://vault/item/field"]);
            assert_eq!(about, "resolving a 1Password (op://) reference");
        }
        other => panic!("expected a tool, got {other:?}"),
    }
    match resolve("vault://-x/a#b#token").unwrap() {
        Resolution::Tool { bin, args, .. } => {
            assert_eq!(bin, "vault");
            assert_eq!(args, vec!["kv", "get", "-field=token", "--", "-x/a#b"]);
        }
        other => panic!("expected a tool, got {other:?}"),
    }
}

#[test]
fn a_tool_gives_its_output_without_line_ends() {
    assert_eq!(tool_output("op", true, "s3\n\r\n", "").unwrap(), "s3");
    assert_eq!(
        tool_output("op", false, "", " not signed in \n")
            .unwrap_err()
            .message(),
        "`op` failed: not signed in"
    );
}

#[test]
fn each_secret_error_has_its_message() {
    assert_eq!(
        parse_dotenv("\n# c\nnonsense").unwrap_err().message(),
        "secret file line 3: expected `KEY=VALUE`"
    );
    assert_eq!(
        parse_dotenv("=v").unwrap_err().message(),
        "secret file line 1: empty key"
    );
    let env = vec![];
    assert_eq!(
        split_secret(" =v", &env).unwrap_err().message(),
        "--secret ` =v`: empty name"
    );
    assert!(matches!(
        split_secret("  ", &env).unwrap_err(),
        SecretError::Nothing
    ));
    assert_eq!(
        split_secret("N", &env).unwrap_err().message(),
        "--secret N: environment variable `N` is not set"
    );
    assert_eq!(
        resolve("vault://x").unwrap_err().message(),
        "Vault reference must be `vault://<path>#<field>`, got `vault://x`"
    );
}

#[test]
fn one_pair_of_quotes_comes_off() {
    assert_eq!(unquote("\"a\""), "a");
    assert_eq!(unquote("''a''"), "'a'");
    assert_eq!(unquote("\"a'"), "\"a'");
    assert_eq!(unquote("\""), "\"");
    assert_eq!(unquote("\"\""), "");
}

#[test]
fn flags_override_the_secret_file() {
    let pair = |k: &str, v: &str| (k.to_string(), v.to_string());
    let m = load_secrets(
        &vec![pair("A", "file"), pair("B", "file")],
        &vec![pair("B", "flag"), pair("C", "one"), pair("C", "two")],
    );
    let got: Vec<(String, String)> = m.into_iter().collect();
    assert_eq!(got, vec![pair("A", "file"), pair("B", "flag"), pair("C", "two")]);
}
