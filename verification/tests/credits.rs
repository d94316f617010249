//! Classification, costs and the reading of request bodies.

use ninehelius::config::CostsConfig;
use ninehelius::credits::{
    batch_of, classify, methods, parse_body, primary_class, request_cost, single_of, CostTable,
    MethodClass, Parsed,
};

fn table() -> CostTable {
    CostTable::from_config(&CostsConfig::default())
}

fn single(method: &str) -> Parsed {
    Parsed::Single { method: method.into() }
}

fn batch(methods: &[&str]) -> Parsed {
    Parsed::Batch { methods: methods.iter().map(|m| m.to_string()).collect() }
}

#[test]
fn classifies_methods() {
    assert_eq!(classify("getBalance"), MethodClass::StandardRpc);
    assert_eq!(classify("sendTransaction"), MethodClass::SendTransaction);
    assert_eq!(classify("getProgramAccounts"), MethodClass::GetProgramAccounts);
    assert_eq!(classify("getAssetsByOwner"), MethodClass::Das);
    assert_eq!(classify("getValidityProofs"), MethodClass::Zk);
}

#[test]
fn costs_follow_table() {
    let t = table();
    assert_eq!(t.cost_of("getBalance"), 1);
    assert_eq!(t.cost_of("getProgramAccounts"), 10);
    assert_eq!(t.cost_of("getAssetsByOwner"), 10);
    assert_eq!(t.cost_of("getValidityProofs"), 100); // built-in override
}

#[test]
fn config_override_wins() {
    let mut c = CostsConfig::default();
    c.overrides.insert("getBalance".into(), 7);
    let t = CostTable::from_config(&c);
    assert_eq!(t.cost_of("getBalance"), 7);
}

#[test]
fn config_override_wins_over_builtin_exceptions() {
    let mut c = CostsConfig::default();
    c.overrides.insert("getValidityProof".into(), 3);
    c.overrides.insert("getAsset".into(), 4);
    let t = CostTable::from_config(&c);
    assert_eq!(t.cost_of("getValidityProof"), 3);
    assert_eq!(t.cost_of("getValidityProofs"), 100);
    assert_eq!(t.cost_of("getAsset"), 4);
    assert_eq!(t.cost_of("getAssetBatch"), 10);
}

#[test]
fn parses_single() {
    let p = parse_body("/", br#"{"jsonrpc":"2.0","id":1,"method":"getSlot"}"#);
    assert_eq!(
        p,
        Parsed::Single {
            method: "getSlot".into()
        }
    );
}

#[test]
fn parses_batch_and_sums_cost() {
    let body = br#"[{"method":"getBalance"},{"method":"getProgramAccounts"}]"#;
    let p = parse_body("/", body);
    assert_eq!(request_cost(&p, &table()), 11);
    assert_eq!(primary_class(&p), MethodClass::GetProgramAccounts);
}

#[test]
fn batch_picks_most_restrictive_class() {
    let body = br#"[{"method":"getBalance"},{"method":"sendTransaction"}]"#;
    let p = parse_body("/", body);
    assert_eq!(primary_class(&p), MethodClass::SendTransaction);
}

#[test]
fn rest_path_is_non_jsonrpc() {
    let p = parse_body("/v0/transactions", b"{}");
    assert_eq!(p, Parsed::NonJsonRpc);
    assert_eq!(request_cost(&p, &table()), 100);
}

#[test]
fn leading_whitespace_ok() {
    let p = parse_body("/", b"  \n {\"method\":\"getSlot\"}");
    assert_eq!(
        p,
        Parsed::Single {
            method: "getSlot".into()
        }
    );
}

#[test]
fn rest_paths_need_their_trailing_slash() {
    let body = br#"{"method":"getSlot"}"#;
    assert_eq!(parse_body("/v1/wallet", body), Parsed::NonJsonRpc);
    assert_eq!(parse_body("/v1", body), single("getSlot"));
    assert_eq!(parse_body("/v2/", body), single("getSlot"));
    assert_eq!(parse_body("x/v0/", body), single("getSlot"));
}

#[test]
fn bodies_without_a_call_are_non_jsonrpc() {
    for body in [
        &b""[..],
        b"   ",
        b"null",
        b"7",
        b"\"getSlot\"",
        b"{}",
        b"{\"method\":null}",
        b"{\"method\":7}",
        b"{\"method\":[\"getSlot\"]}",
        b"{\"method\":\"getSlot\"",
        b"{\"method\":\"getSlot\"} x",
        b"{\"method\":\"getSlot\",}",
        b"{method:\"getSlot\"}",
        b"{\"method\":\"get\nSlot\"}",
        b"[]",
        b"[{}]",
        b"[{\"method\":null}]",
        b"[{\"method\":\"getSlot\"},7]",
        b"[{\"method\":\"getSlot\"},]",
        b"[{\"method\":\"getSlot\"}",
        b"[{\"method\":\"getSlot\"},{\"method\":7}]",
        b"\x0c{\"method\":\"getSlot\"}",
        b"{\"method\":\"\xff\"}",
    ] {
        assert_eq!(parse_body("/", body), Parsed::NonJsonRpc, "{body:?}");
    }
}

#[test]
fn nested_members_are_not_mistaken_for_the_call() {
    let body = br#"{"params":{"method":"a","x":[1,{"method":"b"}]},"s":"},\"method\":\"c\"","method":"getSlot"}"#;
    assert_eq!(parse_body("/", body), single("getSlot"));
    let body = br#"[{"params":[{"method":"a"},"]"],"method":"getSlot"} , {"id":2,"method":"getAsset"}]"#;
    assert_eq!(parse_body("/", body), batch(&["getSlot", "getAsset"]));
}

#[test]
fn escapes_are_decoded_in_names_and_values() {
    assert_eq!(
        parse_body("/", br#"{"meth\u006fd":"get\u0053lot"}"#),
        single("getSlot")
    );
    assert_eq!(parse_body("/", br#"{"method":"a\"b"}"#), single("a\"b"));
    assert_eq!(parse_body("/", br#"{"m\"ethod":1,"method":"ok"}"#), single("ok"));
}

#[test]
fn a_member_that_occurs_twice_is_refused() {
    assert_eq!(parse_body("/", br#"{"method":"a","method":"b"}"#), Parsed::NonJsonRpc);
    assert_eq!(parse_body("/", br#"{"method":null,"method":"b"}"#), Parsed::NonJsonRpc);
    assert_eq!(parse_body("/", br#"{"id":1,"id":2,"method":"b"}"#), single("b"));
}

#[test]
fn a_call_may_be_listed_by_position() {
    assert_eq!(parse_body("/", br#"[["getSlot"]]"#), batch(&["getSlot"]));
    assert_eq!(parse_body("/", br#"[["getSlot",1]]"#), Parsed::NonJsonRpc);
    assert_eq!(parse_body("/", br#"[[]]"#), Parsed::NonJsonRpc);
    assert_eq!(parse_body("/", br#"[[null],["getSlot"]]"#), batch(&["getSlot"]));
}

#[test]
fn calls_without_a_method_are_left_out_of_a_batch() {
    let body = br#"[{"id":1},{"method":"getSlot"},{"method":null}]"#;
    assert_eq!(parse_body("/", body), batch(&["getSlot"]));
}

#[test]
fn white_space_around_everything() {
    let body = b" { \"id\" : 1 , \"method\" : \"getSlot\" } \r\n";
    assert_eq!(parse_body("/", body), single("getSlot"));
    let body = b"\t[ { \"method\" : \"a\" } , { \"method\" : \"b\" } ]\n";
    assert_eq!(parse_body("/", body), batch(&["a", "b"]));
}

#[test]
fn decoded_calls_are_reduced() {
    assert_eq!(single_of(Some(Some("getSlot".into()))), single("getSlot"));
    assert_eq!(single_of(Some(None)), Parsed::NonJsonRpc);
    assert_eq!(single_of(None), Parsed::NonJsonRpc);
    assert_eq!(batch_of(None), Parsed::NonJsonRpc);
    assert_eq!(batch_of(Some(vec![None])), Parsed::NonJsonRpc);
    assert_eq!(
        batch_of(Some(vec![Some("a".into()), None, Some("b".into())])),
        batch(&["a", "b"])
    );
}

#[test]
fn method_labels() {
    assert_eq!(methods(&single("getSlot")), vec!["getSlot"]);
    assert_eq!(methods(&batch(&["a", "b", "a"])), vec!["a", "b", "a"]);
    assert_eq!(methods(&Parsed::NonJsonRpc), vec!["other"]);
}

#[test]
fn every_class_has_its_members_and_cost() {
    for m in ["getAsset", "searchAssets", "getTokenAccounts", "getNftEditions"] {
        assert_eq!(classify(m), MethodClass::Das);
        assert_eq!(table().cost_of(m), 10);
    }
    for m in ["getCompressedAccount", "getCompressedBalance", "getMultipleCompressedAccounts"] {
        assert_eq!(classify(m), MethodClass::Zk);
        assert_eq!(table().cost_of(m), 10);
    }
    assert_eq!(classify("getasset"), MethodClass::StandardRpc);
    assert_eq!(classify(""), MethodClass::StandardRpc);
    assert_eq!(table().cost_of("sendTransaction"), 1);
}

#[test]
fn ties_in_a_batch_go_to_the_first() {
    assert_eq!(primary_class(&batch(&["getAsset", "getCompressedAccount"])), MethodClass::Das);
    assert_eq!(primary_class(&batch(&["getCompressedAccount", "getAsset"])), MethodClass::Zk);
    assert_eq!(primary_class(&batch(&[])), MethodClass::StandardRpc);
    assert_eq!(primary_class(&Parsed::NonJsonRpc), MethodClass::StandardRpc);
}

#[test]
fn batch_costs_add_up() {
    let t = table();
    let whole = batch(&["getBalance", "getAsset", "getValidityProofs", "sendTransaction"]);
    assert_eq!(request_cost(&whole, &t), 112);
    assert_eq!(
        request_cost(&batch(&["getBalance", "getAsset"]), &t)
            + request_cost(&batch(&["getValidityProofs", "sendTransaction"]), &t),
        112
    );
}
