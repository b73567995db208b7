use fbs_rpc::{ParseError, RpcMethod};

fn strings(v: &[&str]) -> Vec<String> {
    v.iter().map(|s| s.to_string()).collect()
}

#[test]
fn parse_two_arguments_kept_verbatim() {
    let m = RpcMethod::parse("name(a, b): T;").unwrap();
    assert_eq!(m.name, "name");
    assert_eq!(m.arguments, strings(&["a", " b"]));
    assert_eq!(m.return_type, "T");
}

#[test]
fn parse_zero_arguments_gives_one_empty() {
    let m = RpcMethod::parse("bar(): int;").unwrap();
    assert_eq!(
        m,
        RpcMethod { name: "bar".to_string(), arguments: strings(&[""]), return_type: "int".to_string() }
    );
}

#[test]
fn parse_without_colon() {
    assert_eq!(RpcMethod::parse("foo(a, b)"), Err(ParseError::NoReturnType("foo(a, b)".to_string())));
    assert_eq!(RpcMethod::parse(""), Err(ParseError::NoReturnType(String::new())));
}

#[test]
fn parse_without_paren() {
    assert_eq!(RpcMethod::parse("foo: int;"), Err(ParseError::InvalidMethodArgs("foo".to_string())));
}

#[test]
fn parse_paren_after_colon_is_no_argument_list() {
    assert_eq!(RpcMethod::parse("foo: bar(x);"), Err(ParseError::InvalidMethodArgs("foo".to_string())));
}

#[test]
fn parse_unclosed_arguments() {
    assert_eq!(RpcMethod::parse("foo(a: int;"), Err(ParseError::InvalidMethodArgs("foo(a".to_string())));
    assert_eq!(RpcMethod::parse("foo(a) x: int;"), Err(ParseError::InvalidMethodArgs("foo(a) x".to_string())));
}

#[test]
fn parse_trims_name_arguments_and_return_type() {
    let m = RpcMethod::parse("  f (x) : T ;").unwrap();
    assert_eq!(m.name, "f");
    assert_eq!(m.arguments, strings(&["x"]));
    assert_eq!(m.return_type, "T ");
}

#[test]
fn parse_strips_one_semicolon() {
    let m = RpcMethod::parse("f(): T;;").unwrap();
    assert_eq!(m.return_type, "T;");
    let m = RpcMethod::parse("f(): T").unwrap();
    assert_eq!(m.return_type, "T");
}

#[test]
fn parse_return_type_keeps_later_colons() {
    let m = RpcMethod::parse("f(a): ns:T;").unwrap();
    assert_eq!(m.return_type, "ns:T");
    assert_eq!(m.arguments, strings(&["a"]));
}

#[test]
fn parse_strips_one_closing_paren() {
    let m = RpcMethod::parse("f((a)), b)): T;").unwrap();
    assert_eq!(m.name, "f");
    assert_eq!(m.arguments, strings(&["(a))", " b)"]));
}

#[test]
fn parse_empty_arguments_between_commas() {
    let m = RpcMethod::parse("f(,a,,): T;").unwrap();
    assert_eq!(m.arguments, strings(&["", "a", "", ""]));
}

#[test]
fn parse_unicode_whitespace_is_trimmed() {
    let m = RpcMethod::parse("\u{3000}f(x)\u{a0}:\u{2009}T;").unwrap();
    assert_eq!(m.name, "f");
    assert_eq!(m.return_type, "T");
}

#[test]
fn parse_is_repeatable() {
    for line in ["name(a, b): T;", "foo", "foo: T", "foo(a: T", "x(): y;"] {
        assert_eq!(RpcMethod::parse(line), RpcMethod::parse(line));
    }
}
