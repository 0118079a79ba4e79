use mcp_compliance::json::{encode_json, parse_json, Json};
use mcp_compliance::rpc::{JsonRpcRequest, JsonRpcResponse};

#[test]
fn test_encode_request_exact_line() {
    let req = JsonRpcRequest {
        jsonrpc: "2.0".to_owned(),
        id: Some(Json::Int(1)),
        method: "initialize".to_owned(),
        params: None,
    };
    let line = req.encode();
    assert_eq!(
        line,
        "{\"jsonrpc\":\"2.0\",\"id\":1,\"method\":\"initialize\",\"params\":null}"
    );
}

#[test]
fn test_request_round_trip() {
    let req = JsonRpcRequest {
        jsonrpc: "2.0".to_owned(),
        id: Some(Json::Int(2)),
        method: "tools/call".to_owned(),
        params: Some(Json::Obj(vec![
            ("name".to_owned(), Json::Str("add".to_owned())),
            (
                "arguments".to_owned(),
                Json::Obj(vec![
                    ("a".to_owned(), Json::Int(10)),
                    ("b".to_owned(), Json::Int(20)),
                ]),
            ),
        ])),
    };
    let line = req.encode();
    let back = JsonRpcRequest::decode(&line).expect("round trip decodes");
    assert_eq!(back.method, "tools/call");
    assert_eq!(back.id, Some(Json::Int(2)));
    assert_eq!(
        back.params,
        Some(Json::Obj(vec![
            ("name".to_owned(), Json::Str("add".to_owned())),
            (
                "arguments".to_owned(),
                Json::Obj(vec![
                    ("a".to_owned(), Json::Int(10)),
                    ("b".to_owned(), Json::Int(20)),
                ]),
            ),
        ]))
    );
}

#[test]
fn test_parse_structures() {
    let v = parse_json(" { \"a\" : [ 1 , -2 , true , null , \"x\\n\" ] } ").expect("parses");
    match v {
        Json::Obj(fields) => {
            assert_eq!(fields.len(), 1);
            assert_eq!(fields[0].0, "a");
            match &fields[0].1 {
                Json::Arr(items) => {
                    assert_eq!(items.len(), 5);
                    assert_eq!(items[0], Json::Int(1));
                    assert_eq!(items[1], Json::Int(-2));
                    assert_eq!(items[2], Json::Bool(true));
                    assert_eq!(items[3], Json::Null);
                    assert_eq!(items[4], Json::Str("x\n".to_owned()));
                }
                other => panic!("expected array, got {:?}", other),
            }
        }
        other => panic!("expected object, got {:?}", other),
    }
}

#[test]
fn test_parse_rejects_malformed() {
    assert!(parse_json("").is_none());
    assert!(parse_json("   ").is_none());
    assert!(parse_json("{").is_none());
    assert!(parse_json("{\"a\":}").is_none());
    assert!(parse_json("12x").is_none());
    assert!(parse_json("{\"a\":01}").is_none());
    assert!(parse_json("99999999999999999999999999").is_none());
    assert!(parse_json("[1,]").is_none());
}

#[test]
fn test_int_rendering_extremes() {
    assert_eq!(encode_json(&Json::Int(i64::MIN)), "-9223372036854775808");
    assert_eq!(encode_json(&Json::Int(i64::MAX)), "9223372036854775807");
    assert_eq!(encode_json(&Json::Int(0)), "0");
    let back = parse_json("-9223372036854775808");
    assert_eq!(back, Some(Json::Int(i64::MIN)));
}

#[test]
fn test_string_escapes_round_trip() {
    let v = Json::Str("a\"b\\c\nd\te\r".to_owned());
    let line = encode_json(&v);
    assert!(!line.contains('\n'));
    assert_eq!(parse_json(&line), Some(v));
}

#[test]
fn test_encoded_line_agrees_with_serde() {
    let req = JsonRpcRequest {
        jsonrpc: "2.0".to_owned(),
        id: Some(Json::Int(7)),
        method: "tools/list".to_owned(),
        params: None,
    };
    let line = req.encode();
    let v: serde_json::Value = serde_json::from_str(&line).expect("valid JSON per serde");
    assert_eq!(v["jsonrpc"], "2.0");
    assert_eq!(v["id"], 7);
    assert_eq!(v["method"], "tools/list");
    assert!(v["params"].is_null());
}

#[test]
fn test_response_decode_requires_exactly_one() {
    assert!(JsonRpcResponse::decode("{\"jsonrpc\":\"2.0\",\"id\":1,\"result\":null,\"error\":null}").is_none());
    let ok = JsonRpcResponse::decode("{\"jsonrpc\":\"2.0\",\"id\":1,\"result\":{},\"error\":null}")
        .expect("result alone is well formed");
    assert!(ok.result.is_some() && ok.error.is_none());
    let err = JsonRpcResponse::decode(
        "{\"jsonrpc\":\"2.0\",\"id\":null,\"error\":{\"code\":-32700,\"message\":\"Parse error\",\"data\":null}}",
    )
    .expect("error alone is well formed");
    assert!(err.result.is_none());
    assert_eq!(err.error.as_ref().map(|e| e.code), Some(-32700));
}

#[test]
fn test_unicode_escapes_are_outside_the_grammar() {
    // The codec's grammar covers the escapes it emits; a unicode escape is
    // rejected as unparseable rather than read as the wrong character.
    assert!(parse_json("\"\\u0041\"").is_none());
    assert!(parse_json("\"\\x\"").is_none());
}

#[test]
fn test_duplicate_keys_last_binding_wins() {
    let v = parse_json("{\"a\":1,\"a\":2}").expect("parses");
    assert_eq!(v.get("a"), Some(&Json::Int(2)));
}
