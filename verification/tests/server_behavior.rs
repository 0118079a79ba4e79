use mcp_compliance::json::Json;
use mcp_compliance::rpc::{JsonRpcRequest, JsonRpcResponse};
use mcp_compliance::server::server_step;

fn call_line(method: &str, params: Option<Json>, id: i64) -> String {
    JsonRpcRequest {
        jsonrpc: "2.0".to_owned(),
        id: Some(Json::Int(id)),
        method: method.to_owned(),
        params,
    }
    .encode()
}

fn tool_call(name: &str, args: Vec<(String, Json)>) -> Option<Json> {
    Some(Json::Obj(vec![
        ("name".to_owned(), Json::Str(name.to_owned())),
        ("arguments".to_owned(), Json::Obj(args)),
    ]))
}

fn text_and_flag(resp: &JsonRpcResponse) -> (String, bool) {
    let result = resp.result.as_ref().expect("result present");
    let content = result.get("content").expect("content present");
    let first = content.first_elem().expect("one content entry");
    let text = first.get("text").and_then(|t| t.str_value()).expect("text present");
    let is_err = result.get("isError").and_then(|b| b.bool_value()).expect("flag present");
    (text.clone(), is_err)
}

#[test]
fn test_initialize_payload() {
    let out = server_step("CalcServer", &call_line("initialize", None, 1)).expect("a reply");
    let v: serde_json::Value = serde_json::from_str(&out).expect("valid JSON");
    assert_eq!(v["result"]["protocolVersion"], "2025-06-18");
    assert_eq!(v["result"]["serverInfo"]["name"], "CalcServer");
    assert_eq!(v["result"]["capabilities"]["tools"]["listChanged"], true);
    assert_eq!(v["id"], 1);
}

#[test]
fn test_add_computes_sum() {
    let params = tool_call(
        "add",
        vec![
            ("a".to_owned(), Json::Int(10)),
            ("b".to_owned(), Json::Int(20)),
        ],
    );
    let out = server_step("CalcServer", &call_line("tools/call", params, 2)).expect("a reply");
    let resp = JsonRpcResponse::decode(&out).expect("well formed");
    let (text, is_err) = text_and_flag(&resp);
    assert_eq!(text, "30");
    assert!(!is_err);
}

#[test]
fn test_add_negative_and_default_arguments() {
    let params = tool_call(
        "add",
        vec![
            ("a".to_owned(), Json::Int(-5)),
            ("b".to_owned(), Json::Int(3)),
        ],
    );
    let out = server_step("CalcServer", &call_line("tools/call", params, 3)).expect("a reply");
    let resp = JsonRpcResponse::decode(&out).expect("well formed");
    assert_eq!(text_and_flag(&resp).0, "-2");

    let params = tool_call("add", vec![("a".to_owned(), Json::Int(4))]);
    let out = server_step("CalcServer", &call_line("tools/call", params, 4)).expect("a reply");
    let resp = JsonRpcResponse::decode(&out).expect("well formed");
    assert_eq!(text_and_flag(&resp).0, "4");
}

#[test]
fn test_always_error_flags_tool_error() {
    let params = tool_call("always_error", vec![]);
    let out = server_step("ErrorServer", &call_line("tools/call", params, 5)).expect("a reply");
    let resp = JsonRpcResponse::decode(&out).expect("well formed");
    let (text, is_err) = text_and_flag(&resp);
    assert!(is_err);
    assert_eq!(text, "This tool always fails as designed");
}

#[test]
fn test_tools_list_per_identity() {
    let out = server_step("CalcServer", &call_line("tools/list", None, 6)).expect("a reply");
    let v: serde_json::Value = serde_json::from_str(&out).expect("valid JSON");
    assert_eq!(v["result"]["tools"][0]["name"], "add");

    let out = server_step("FileServer", &call_line("tools/list", None, 7)).expect("a reply");
    let v: serde_json::Value = serde_json::from_str(&out).expect("valid JSON");
    assert_eq!(v["result"]["tools"][0]["name"], "write_file");

    let out = server_step("ErrorServer", &call_line("tools/list", None, 8)).expect("a reply");
    let v: serde_json::Value = serde_json::from_str(&out).expect("valid JSON");
    assert_eq!(v["result"]["tools"][0]["name"], "always_error");
}

#[test]
fn test_tools_list_unknown_identity_is_empty() {
    let out = server_step("NoSuchServer", &call_line("tools/list", None, 9)).expect("a reply");
    let v: serde_json::Value = serde_json::from_str(&out).expect("valid JSON");
    assert!(v["result"]["tools"].as_array().expect("a list").is_empty());
    assert!(v.get("error").map(|e| e.is_null()).unwrap_or(true));
}

#[test]
fn test_unknown_tool_is_tool_level_error() {
    let params = tool_call("bogus", vec![]);
    let out = server_step("CalcServer", &call_line("tools/call", params, 10)).expect("a reply");
    let resp = JsonRpcResponse::decode(&out).expect("well formed");
    assert!(resp.result.is_some());
    assert!(resp.error.is_none());
    let (text, is_err) = text_and_flag(&resp);
    assert!(is_err);
    assert_eq!(text, "Unknown tool: bogus");
}

#[test]
fn test_invalid_line_gets_parse_error() {
    let out = server_step("CalcServer", "this is not json").expect("a reply");
    let v: serde_json::Value = serde_json::from_str(&out).expect("valid JSON");
    assert_eq!(v["error"]["code"], -32700);
    assert!(v["id"].is_null());
}

#[test]
fn test_blank_line_is_skipped() {
    assert!(server_step("CalcServer", "").is_none());
    assert!(server_step("CalcServer", "   \t ").is_none());
}

#[test]
fn test_unknown_method_is_internal_error() {
    let out = server_step("CalcServer", &call_line("bogus/method", None, 11)).expect("a reply");
    let v: serde_json::Value = serde_json::from_str(&out).expect("valid JSON");
    assert_eq!(v["error"]["code"], -32603);
    assert_eq!(v["error"]["message"], "Unknown method: bogus/method");
    assert_eq!(v["id"], 11);
}
