use stepci::envfile::{parse_key_values, parse_path_additions, EnvFileError};

#[test]
fn plain_assignments() {
    let kv = parse_key_values("A=1\nB=hello world\n\nC=\n").unwrap();
    assert_eq!(
        kv,
        vec![
            ("A".into(), "1".into()),
            ("B".into(), "hello world".into()),
            ("C".into(), "".into()),
        ]
    );
}

#[test]
fn value_may_contain_equals() {
    let kv = parse_key_values("QUERY=a=b=c").unwrap();
    assert_eq!(kv, vec![("QUERY".into(), "a=b=c".into())]);
}

#[test]
fn heredoc_multiline() {
    let kv = parse_key_values("JSON<<EOF\n{\n  \"x\": 1\n}\nEOF\nNEXT=ok\n").unwrap();
    assert_eq!(kv[0], ("JSON".into(), "{\n  \"x\": 1\n}".into()));
    assert_eq!(kv[1], ("NEXT".into(), "ok".into()));
}

#[test]
fn equals_before_shift_is_an_assignment_not_heredoc() {
    let kv = parse_key_values("EXPR=a<<b").unwrap();
    assert_eq!(kv, vec![("EXPR".into(), "a<<b".into())]);
}

#[test]
fn unterminated_heredoc_errors() {
    let err = parse_key_values("K<<END\nline\n").unwrap_err();
    assert!(err.message().contains("unterminated heredoc"));
}

#[test]
fn path_additions_skip_blank_lines() {
    assert_eq!(
        parse_path_additions("/a/bin\n\n/b/bin\n"),
        vec!["/a/bin".to_string(), "/b/bin".to_string()]
    );
}

#[test]
fn each_env_file_error_names_its_line() {
    let bad = parse_key_values("<<END\nx\nEND\n").unwrap_err();
    assert!(matches!(bad, EnvFileError::BadHeredoc(_)));
    assert_eq!(bad.message(), "invalid heredoc line: `<<END`");
    let open = parse_key_values("K<<END\nx").unwrap_err();
    assert_eq!(
        open.message(),
        "unterminated heredoc for `K` (missing closing `END`)"
    );
    let key = parse_key_values(" =x").unwrap_err();
    assert_eq!(key.message(), "invalid line (empty key): ` =x`");
    let none = parse_key_values("ok=1\nnonsense").unwrap_err();
    assert_eq!(
        none.message(),
        "invalid line in env file (expected `KEY=VALUE` or a heredoc): `nonsense`"
    );
}

#[test]
fn env_file_lines_may_end_in_carriage_returns() {
    let kv = parse_key_values("A=1\r\nB<<E\r\nx\r\ny\r\nE\r\n").unwrap();
    assert_eq!(
        kv,
        vec![("A".into(), "1".into()), ("B".into(), "x\ny".into())]
    );
}

#[test]
fn appended_env_lines_follow_in_order() {
    let a = "A=1\nM<<E\nx\nE\n";
    let b = "A=2\nZ=3\n";
    let mut both = parse_key_values(a).unwrap();
    both.extend(parse_key_values(b).unwrap());
    assert_eq!(parse_key_values(&format!("{a}{b}")).unwrap(), both);
    assert_eq!(both.len(), 4);
}

#[test]
fn items_of_both_forms_read_back_together() {
    let kv = parse_key_values("A<B=1\nC<D<<E\nx=1\n\ny<<z\nE\nF=\nG<<E\nE\n").unwrap();
    assert_eq!(
        kv,
        vec![
            ("A<B".into(), "1".into()),
            ("C<D".into(), "x=1\n\ny<<z".into()),
            ("F".into(), "".into()),
            ("G".into(), "".into()),
        ]
    );
}
