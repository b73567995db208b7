use fbs_rpc::defines::to_const_name;
use fbs_rpc::{RpcMethod, RpcService};

fn service(names: &[&str]) -> RpcService {
    RpcService {
        name: "S".to_string(),
        methods: names
            .iter()
            .map(|n| RpcMethod { name: n.to_string(), arguments: vec![String::new()], return_type: "T".to_string() })
            .collect(),
    }
}

fn pairs(v: &[(&str, &str)]) -> Vec<(String, String)> {
    v.iter().map(|(a, b)| (a.to_string(), b.to_string())).collect()
}

#[test]
fn defines_one_entry_per_method_in_order() {
    let s = service(&["get_user", "getUser", "ping2Pong", "ALLCAPS", "x"]);
    let d = s.as_rpc_method_defines();
    assert_eq!(
        d.entries(),
        pairs(&[
            ("GET_USER", "get_user"),
            ("GET_USER", "getUser"),
            ("PING2_PONG", "ping2Pong"),
            ("ALLCAPS", "ALLCAPS"),
            ("X", "x"),
        ])
    );
}

#[test]
fn defines_of_empty_service() {
    let s = service(&[]);
    assert!(s.as_rpc_method_defines().entries().is_empty());
}

#[test]
fn defines_keep_other_characters() {
    let s = service(&["déjà_vu", "a-b"]);
    assert_eq!(s.as_rpc_method_defines().entries(), pairs(&[("DéJà_VU", "déjà_vu"), ("A-B", "a-b")]));
}

#[test]
fn const_name_of_plain_names() {
    assert_eq!(to_const_name("fooBarBaz"), "FOO_BAR_BAZ");
    assert_eq!(to_const_name(""), "");
}
