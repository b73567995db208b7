use fbs_rpc::{ParseError, ParserIter, RpcMethod, RpcService};

fn method(name: &str, args: &[&str], ret: &str) -> RpcMethod {
    RpcMethod {
        name: name.to_string(),
        arguments: args.iter().map(|s| s.to_string()).collect(),
        return_type: ret.to_string(),
    }
}

fn scan_all(text: &str) -> Vec<Result<RpcService, ParseError>> {
    let mut p = ParserIter::from_text(text);
    let mut out = Vec::new();
    while let Some(item) = p.next() {
        out.push(item);
    }
    out
}

#[test]
fn scanner_single_service() {
    let items = scan_all("rpc_service Foo {\nbar(): int;\n}\n");
    assert_eq!(
        items,
        vec![Ok(RpcService { name: "Foo".to_string(), methods: vec![method("bar", &[""], "int")] })]
    );
}

#[test]
fn scanner_missing_bracket() {
    let items = scan_all("rpc_service Foo\nbar(): int;\n}\n");
    assert_eq!(items, vec![Err(ParseError::NoStartingBracket)]);
}

#[test]
fn scanner_malformed_method_discards_block() {
    let items = scan_all("rpc_service Foo {\na(): int;\nbad line\nc(): int;\n}\n");
    assert_eq!(items, vec![Err(ParseError::NoReturnType("bad line".to_string()))]);
}

#[test]
fn scanner_resumes_after_error() {
    let text = "rpc_service A\nrpc_service B {\nx(y): Z;\n}\nrpc_service C {\nbroken(: T;\n}\nrpc_service D {\n}\n";
    let items = scan_all(text);
    assert_eq!(
        items,
        vec![
            Err(ParseError::NoStartingBracket),
            Ok(RpcService { name: "B".to_string(), methods: vec![method("x", &["y"], "Z")] }),
            Err(ParseError::InvalidMethodArgs("broken(".to_string())),
            Ok(RpcService { name: "D".to_string(), methods: vec![] }),
        ]
    );
}

#[test]
fn scanner_skips_unrelated_lines() {
    let text = "namespace x;\ntable T { a: int; }\n  rpc_service Svc {  \n  get(Req): Resp;  \n\tput(a,b): Ack;\n  }  \nroot_type T;\n";
    let items = scan_all(text);
    assert_eq!(
        items,
        vec![Ok(RpcService {
            name: "Svc".to_string(),
            methods: vec![method("get", &["Req"], "Resp"), method("put", &["a", "b"], "Ack")],
        })]
    );
}

#[test]
fn scanner_unterminated_block_yields_what_it_has() {
    let items = scan_all("rpc_service Foo {\na(): int;");
    assert_eq!(
        items,
        vec![Ok(RpcService { name: "Foo".to_string(), methods: vec![method("a", &[""], "int")] })]
    );
}

#[test]
fn scanner_empty_input() {
    assert!(scan_all("").is_empty());
    assert!(scan_all("no services here\n}\n").is_empty());
}

#[test]
fn scanner_header_keyword_is_a_prefix() {
    let items = scan_all("rpc_serviceX{\n}\nrpc_service\n");
    assert_eq!(
        items,
        vec![Ok(RpcService { name: "X".to_string(), methods: vec![] }), Err(ParseError::NoStartingBracket)]
    );
}

#[test]
fn scanner_consumes_each_line_at_most_once() {
    let lines: Vec<String> = ["x", "rpc_service A {", "f(): T;", "}", "y", "rpc_service B", "z"]
        .iter()
        .map(|s| s.to_string())
        .collect();
    let mut p = ParserIter::new(lines);
    assert_eq!(p.lines_supplied(), 7);
    assert_eq!(p.lines_consumed(), 0);
    assert!(matches!(p.next(), Some(Ok(_))));
    assert_eq!(p.lines_consumed(), 4);
    assert_eq!(p.next(), Some(Err(ParseError::NoStartingBracket)));
    assert_eq!(p.lines_consumed(), 6);
    assert_eq!(p.next(), None);
    assert_eq!(p.lines_consumed(), 7);
    assert_eq!(p.next(), None);
    assert_eq!(p.lines_consumed(), 7);
}
