//! The reference server: a deterministic answer for each protocol request,
//! keyed by the server's identity string.
//!
//! [`handle_request`] computes exactly what [`handle_spec`] states; the
//! per-line behaviour of a serving loop — skip blank lines, answer malformed
//! ones with a parse error, answer handler failures with an internal error —
//! is [`server_step`], specified by [`server_reply`].

use vstd::prelude::*;

use crate::json::{
    arr0, arr1, arr2, int_string, int_text, json_text, jstr, jv_get, line_parse, obj0, obj1,
    obj2, obj3, skip_ws, str_eq, Json, JsonV,
};
use crate::rpc::{
    req_of_jv, resp_jv, ErrV, JsonRpcError, JsonRpcRequest, JsonRpcResponse, ReqV, RespV,
};

verus! {

/// The payload answering `initialize`.
pub open spec fn init_result_jv(name: Seq<char>) -> JsonV {
    JsonV::Obj(
        seq![
            ("protocolVersion"@, JsonV::Str("2025-06-18"@)),
            (
                "capabilities"@,
                JsonV::Obj(
                    seq![
                        ("tools"@, JsonV::Obj(seq![("listChanged"@, JsonV::Bool(true))])),
                        (
                            "resources"@,
                            JsonV::Obj(
                                seq![
                                    ("subscribe"@, JsonV::Bool(true)),
                                    ("listChanged"@, JsonV::Bool(true)),
                                ],
                            ),
                        ),
                        ("prompts"@, JsonV::Obj(seq![("listChanged"@, JsonV::Bool(true))])),
                    ],
                ),
            ),
            (
                "serverInfo"@,
                JsonV::Obj(
                    seq![("name"@, JsonV::Str(name)), ("version"@, JsonV::Str("1.0.0"@))],
                ),
            ),
        ],
    )
}

/// A tool descriptor: a name, a description, and an input schema.
pub open spec fn tool_descriptor_jv(name: Seq<char>, description: Seq<char>, schema: JsonV) -> JsonV {
    JsonV::Obj(
        seq![
            ("name"@, JsonV::Str(name)),
            ("description"@, JsonV::Str(description)),
            ("inputSchema"@, schema),
        ],
    )
}

/// The schema of the calculator's two-operand `add` tool.
pub open spec fn add_schema_jv() -> JsonV {
    JsonV::Obj(
        seq![
            ("type"@, JsonV::Str("object"@)),
            (
                "properties"@,
                JsonV::Obj(
                    seq![
                        ("a"@, JsonV::Obj(seq![("type"@, JsonV::Str("number"@))])),
                        ("b"@, JsonV::Obj(seq![("type"@, JsonV::Str("number"@))])),
                    ],
                ),
            ),
            ("required"@, JsonV::Arr(seq![JsonV::Str("a"@), JsonV::Str("b"@)])),
        ],
    )
}

/// The schema of the file writer's `write_file` tool.
pub open spec fn write_file_schema_jv() -> JsonV {
    JsonV::Obj(
        seq![
            ("type"@, JsonV::Str("object"@)),
            (
                "properties"@,
                JsonV::Obj(
                    seq![
                        ("path"@, JsonV::Obj(seq![("type"@, JsonV::Str("string"@))])),
                        ("content"@, JsonV::Obj(seq![("type"@, JsonV::Str("string"@))])),
                    ],
                ),
            ),
            ("required"@, JsonV::Arr(seq![JsonV::Str("path"@), JsonV::Str("content"@)])),
        ],
    )
}

/// The schema of the error producer's `always_error` tool.
pub open spec fn always_error_schema_jv() -> JsonV {
    JsonV::Obj(
        seq![
            ("type"@, JsonV::Str("object"@)),
            ("properties"@, JsonV::Obj(Seq::<(Seq<char>, JsonV)>::empty())),
            ("additionalProperties"@, JsonV::Bool(false)),
        ],
    )
}

/// The tools an identity exposes; an unrecognized identity exposes none.
pub open spec fn tools_of(name: Seq<char>) -> Seq<JsonV> {
    if name == "CalcServer"@ {
        seq![
            tool_descriptor_jv(
                "add"@,
                "Adds two numbers a and b together and returns the sum"@,
                add_schema_jv(),
            ),
        ]
    } else if name == "FileServer"@ {
        seq![
            tool_descriptor_jv(
                "write_file"@,
                "Writes content to a file at the specified path"@,
                write_file_schema_jv(),
            ),
        ]
    } else if name == "ErrorServer"@ {
        seq![
            tool_descriptor_jv(
                "always_error"@,
                "Always returns a tool execution error"@,
                always_error_schema_jv(),
            ),
        ]
    } else {
        Seq::empty()
    }
}

/// The payload answering `tools/list`.
pub open spec fn tools_list_result_jv(name: Seq<char>) -> JsonV {
    JsonV::Obj(seq![("tools"@, JsonV::Arr(tools_of(name)))])
}

/// A tool outcome: one piece of text content and the tool-level error flag.
pub open spec fn tool_text_result_jv(text: Seq<char>, is_err: bool) -> JsonV {
    JsonV::Obj(
        seq![
            (
                "content"@,
                JsonV::Arr(
                    seq![
                        JsonV::Obj(
                            seq![("type"@, JsonV::Str("text"@)), ("text"@, JsonV::Str(text))],
                        ),
                    ],
                ),
            ),
            ("isError"@, JsonV::Bool(is_err)),
        ],
    )
}

/// A numeric argument; anything absent or non-numeric counts as zero.
pub open spec fn arg_int(args: Option<JsonV>, key: Seq<char>) -> int {
    match args {
        Some(a) => match jv_get(a, key) {
            Some(JsonV::Int(n)) => n,
            _ => 0,
        },
        None => 0,
    }
}

/// The payload answering `tools/call`, dispatched on identity and tool name.
/// An unknown combination is a tool-level error, not a protocol-level one.
pub open spec fn call_tool_jv(name: Seq<char>, tool: Seq<char>, args: Option<JsonV>) -> JsonV {
    if name == "CalcServer"@ && tool == "add"@ {
        tool_text_result_jv(int_text(arg_int(args, "a"@) + arg_int(args, "b"@)), false)
    } else if name == "ErrorServer"@ && tool == "always_error"@ {
        tool_text_result_jv("This tool always fails as designed"@, true)
    } else {
        tool_text_result_jv("Unknown tool: "@ + tool, true)
    }
}

/// What the server answers a request with: a result payload, or the message
/// of a handler-level failure.
pub open spec fn handle_spec(name: Seq<char>, req: ReqV) -> Result<JsonV, Seq<char>> {
    if req.method == "initialize"@ {
        Ok(init_result_jv(name))
    } else if req.method == "tools/list"@ {
        Ok(tools_list_result_jv(name))
    } else if req.method == "tools/call"@ {
        match req.params {
            Some(p) => match jv_get(p, "name"@) {
                Some(JsonV::Str(tool)) => Ok(call_tool_jv(name, tool, jv_get(p, "arguments"@))),
                _ => Err("Invalid tool call parameters"@),
            },
            None => Err("Missing tool call parameters"@),
        }
    } else {
        Err("Unknown method: "@ + req.method)
    }
}

/// Answer one request.
pub fn handle_request(server_name: &str, req: &JsonRpcRequest) -> (r: Result<Json, String>)
    ensures
        match r {
            Ok(j) => handle_spec(server_name@, req@) == Ok::<JsonV, Seq<char>>(j@),
            Err(m) => handle_spec(server_name@, req@) == Err::<JsonV, Seq<char>>(m@),
        },
{
    if str_eq(req.method.as_str(), "initialize") {
        let server_info = obj2("name", jstr(server_name), "version", jstr("1.0.0"));
        let capabilities = obj3(
            "tools",
            obj1("listChanged", Json::Bool(true)),
            "resources",
            obj2("subscribe", Json::Bool(true), "listChanged", Json::Bool(true)),
            "prompts",
            obj1("listChanged", Json::Bool(true)),
        );
        let r = obj3(
            "protocolVersion",
            jstr("2025-06-18"),
            "capabilities",
            capabilities,
            "serverInfo",
            server_info,
        );
        proof {
            assert(r@ =~~= init_result_jv(server_name@));
        }
        Ok(r)
    } else if str_eq(req.method.as_str(), "tools/list") {
        let tools: Json = if str_eq(server_name, "CalcServer") {
            let schema = obj3(
                "type",
                jstr("object"),
                "properties",
                obj2(
                    "a",
                    obj1("type", jstr("number")),
                    "b",
                    obj1("type", jstr("number")),
                ),
                "required",
                arr2(jstr("a"), jstr("b")),
            );
            arr1(
                obj3(
                    "name",
                    jstr("add"),
                    "description",
                    jstr("Adds two numbers a and b together and returns the sum"),
                    "inputSchema",
                    schema,
                ),
            )
        } else if str_eq(server_name, "FileServer") {
            let schema = obj3(
                "type",
                jstr("object"),
                "properties",
                obj2(
                    "path",
                    obj1("type", jstr("string")),
                    "content",
                    obj1("type", jstr("string")),
                ),
                "required",
                arr2(jstr("path"), jstr("content")),
            );
            arr1(
                obj3(
                    "name",
                    jstr("write_file"),
                    "description",
                    jstr("Writes content to a file at the specified path"),
                    "inputSchema",
                    schema,
                ),
            )
        } else if str_eq(server_name, "ErrorServer") {
            let schema = obj3(
                "type",
                jstr("object"),
                "properties",
                obj0(),
                "additionalProperties",
                Json::Bool(false),
            );
            arr1(
                obj3(
                    "name",
                    jstr("always_error"),
                    "description",
                    jstr("Always returns a tool execution error"),
                    "inputSchema",
                    schema,
                ),
            )
        } else {
            arr0()
        };
        let r = obj1("tools", tools);
        proof {
            assert(r@ =~~= tools_list_result_jv(server_name@));
        }
        Ok(r)
    } else if str_eq(req.method.as_str(), "tools/call") {
        match &req.params {
            Some(p) => {
                let tool: String = match p.get("name") {
                    Some(x) => match x.str_value() {
                        Some(s) => s.clone(),
                        None => {
                            return Err("Invalid tool call parameters".to_owned());
                        },
                    },
                    None => {
                        return Err("Invalid tool call parameters".to_owned());
                    },
                };
                let args = p.get("arguments");
                if str_eq(server_name, "CalcServer") && str_eq(tool.as_str(), "add") {
                    let a: i64 = match args {
                        Some(x) => match x.get("a") {
                            Some(v) => match v.int_value() {
                                Some(n) => n,
                                None => 0,
                            },
                            None => 0,
                        },
                        None => 0,
                    };
                    let b: i64 = match args {
                        Some(x) => match x.get("b") {
                            Some(v) => match v.int_value() {
                                Some(n) => n,
                                None => 0,
                            },
                            None => 0,
                        },
                        None => 0,
                    };
                    let text = int_string(a as i128 + b as i128);
                    let r = obj2(
                        "content",
                        arr1(obj2("type", jstr("text"), "text", Json::Str(text))),
                        "isError",
                        Json::Bool(false),
                    );
                    proof {
                        assert(a as int + b as int == arg_int(jv_get(p@, "arguments"@), "a"@)
                            + arg_int(jv_get(p@, "arguments"@), "b"@));
                        assert(r@ =~~= call_tool_jv(server_name@, tool@, jv_get(p@, "arguments"@)));
                    }
                    Ok(r)
                } else if str_eq(server_name, "ErrorServer") && str_eq(
                    tool.as_str(),
                    "always_error",
                ) {
                    let r = obj2(
                        "content",
                        arr1(
                            obj2(
                                "type",
                                jstr("text"),
                                "text",
                                jstr("This tool always fails as designed"),
                            ),
                        ),
                        "isError",
                        Json::Bool(true),
                    );
                    proof {
                        assert(r@ =~~= call_tool_jv(server_name@, tool@, jv_get(p@, "arguments"@)));
                    }
                    Ok(r)
                } else {
                    let mut text: String = "Unknown tool: ".to_owned();
                    text.append(tool.as_str());
                    let r = obj2(
                        "content",
                        arr1(obj2("type", jstr("text"), "text", Json::Str(text))),
                        "isError",
                        Json::Bool(true),
                    );
                    proof {
                        assert(r@ =~~= call_tool_jv(server_name@, tool@, jv_get(p@, "arguments"@)));
                    }
                    Ok(r)
                }
            },
            None => Err("Missing tool call parameters".to_owned()),
        }
    } else {
        let mut m: String = "Unknown method: ".to_owned();
        m.append(req.method.as_str());
        Err(m)
    }
}

/// A line holding only whitespace is skipped by the serving loop.
pub open spec fn is_blank(line: Seq<char>) -> bool {
    skip_ws(line, 0) == line.len()
}

/// The request a line carries, if it parses and has a request's shape.
pub open spec fn parsed_request(line: Seq<char>) -> Option<ReqV> {
    match line_parse(line) {
        Some(v) => req_of_jv(v),
        None => None,
    }
}

/// The response the server gives to one line of input: nothing for a blank
/// line; a parse error, correlated to a null id, for a line that carries no
/// request; the handler's result or internal error otherwise, correlated to
/// the request's id.
pub open spec fn server_reply(name: Seq<char>, line: Seq<char>) -> Option<RespV> {
    if is_blank(line) {
        None
    } else {
        Some(
            match parsed_request(line) {
                Some(req) => match handle_spec(name, req) {
                    Ok(v) => RespV {
                        jsonrpc: "2.0"@,
                        id: req.id,
                        result: Some(v),
                        error: None,
                    },
                    Err(m) => RespV {
                        jsonrpc: "2.0"@,
                        id: req.id,
                        result: None,
                        error: Some(ErrV { code: -32603, message: m, data: None }),
                    },
                },
                None => RespV {
                    jsonrpc: "2.0"@,
                    id: None,
                    result: None,
                    error: Some(ErrV { code: -32700, message: "Parse error"@, data: None }),
                },
            },
        )
    }
}

/// Answer one line of input with one line of output, if any is owed.
pub fn server_step(server_name: &str, line: &str) -> (r: Option<String>)
    ensures
        match r {
            Some(out) => server_reply(server_name@, line@) matches Some(rv) && out@ == json_text(
                resp_jv(rv),
            ),
            None => server_reply(server_name@, line@) is None,
        },
{
    let cs = crate::json::str_to_chars(line);
    let j = crate::json::skip_ws_at(&cs, 0);
    if j == cs.len() {
        return None;
    }
    let resp: JsonRpcResponse = match JsonRpcRequest::decode(line) {
        Some(req) => match handle_request(server_name, &req) {
            Ok(v) => JsonRpcResponse {
                jsonrpc: "2.0".to_owned(),
                id: req.id,
                result: Some(v),
                error: None,
            },
            Err(m) => JsonRpcResponse {
                jsonrpc: "2.0".to_owned(),
                id: req.id,
                result: None,
                error: Some(JsonRpcError { code: -32603, message: m, data: None }),
            },
        },
        None => JsonRpcResponse {
            jsonrpc: "2.0".to_owned(),
            id: None,
            result: None,
            error: Some(
                JsonRpcError { code: -32700, message: "Parse error".to_owned(), data: None },
            ),
        },
    };
    proof {
        reveal_strlit("2.0");
        reveal_strlit("Parse error");
    }
    Some(resp.encode())
}

/// The calculator's `add` answers every numeric pair with the decimal text
/// of its sum and no tool-level error.
pub proof fn lemma_add_returns_sum(a: i64, b: i64, req: ReqV, p: JsonV)
    requires
        req.method == "tools/call"@,
        req.params == Some(p),
        jv_get(p, "name"@) == Some(JsonV::Str("add"@)),
        arg_int(jv_get(p, "arguments"@), "a"@) == a as int,
        arg_int(jv_get(p, "arguments"@), "b"@) == b as int,
    ensures
        handle_spec("CalcServer"@, req) == Ok::<JsonV, Seq<char>>(
            tool_text_result_jv(int_text(a as int + b as int), false),
        ),
{
    reveal_strlit("tools/call");
    reveal_strlit("initialize");
    reveal_strlit("tools/list");
    reveal_strlit("CalcServer");
    reveal_strlit("add");
    assert(("tools/call"@)[0] != ("initialize"@)[0]);
    assert(("tools/call"@)[6] != ("tools/list"@)[6]);
    assert("tools/call"@ != "initialize"@);
    assert("tools/call"@ != "tools/list"@);
}

/// The error identity's `always_error` answers with a tool-level error
/// whatever the arguments are, absent ones included.
pub proof fn lemma_always_error(req: ReqV, p: JsonV)
    requires
        req.method == "tools/call"@,
        req.params == Some(p),
        jv_get(p, "name"@) == Some(JsonV::Str("always_error"@)),
    ensures
        handle_spec("ErrorServer"@, req) == Ok::<JsonV, Seq<char>>(
            tool_text_result_jv("This tool always fails as designed"@, true),
        ),
{
    reveal_strlit("tools/call");
    reveal_strlit("initialize");
    reveal_strlit("tools/list");
    reveal_strlit("ErrorServer");
    reveal_strlit("CalcServer");
    reveal_strlit("always_error");
    assert(("tools/call"@)[0] != ("initialize"@)[0]);
    assert(("tools/call"@)[6] != ("tools/list"@)[6]);
    assert("tools/call"@ != "initialize"@);
    assert("tools/call"@ != "tools/list"@);
    assert("ErrorServer"@.len() != "CalcServer"@.len());
    assert("ErrorServer"@ != "CalcServer"@);
}

/// Listing tools for an unrecognized identity yields an empty tool list,
/// not an error.
pub proof fn lemma_tools_list_unknown(name: Seq<char>, req: ReqV)
    requires
        req.method == "tools/list"@,
        name != "CalcServer"@,
        name != "FileServer"@,
        name != "ErrorServer"@,
    ensures
        handle_spec(name, req) == Ok::<JsonV, Seq<char>>(
            JsonV::Obj(seq![("tools"@, JsonV::Arr(Seq::<JsonV>::empty()))]),
        ),
{
    reveal_strlit("tools/list");
    reveal_strlit("initialize");
    assert(("tools/list"@)[0] != ("initialize"@)[0]);
    assert("tools/list"@ != "initialize"@);
}

/// Calling an unknown tool on a known identity yields a well-formed tool
/// result flagged as a tool-level error — never a protocol-level error.
pub proof fn lemma_unknown_tool(name: Seq<char>, tool: Seq<char>, req: ReqV, p: JsonV)
    requires
        req.method == "tools/call"@,
        req.params == Some(p),
        jv_get(p, "name"@) == Some(JsonV::Str(tool)),
        !(name == "CalcServer"@ && tool == "add"@),
        !(name == "ErrorServer"@ && tool == "always_error"@),
    ensures
        handle_spec(name, req) == Ok::<JsonV, Seq<char>>(
            tool_text_result_jv("Unknown tool: "@ + tool, true),
        ),
{
    reveal_strlit("tools/call");
    reveal_strlit("initialize");
    reveal_strlit("tools/list");
    assert(("tools/call"@)[0] != ("initialize"@)[0]);
    assert(("tools/call"@)[6] != ("tools/list"@)[6]);
    assert("tools/call"@ != "initialize"@);
    assert("tools/call"@ != "tools/list"@);
}

/// A non-blank line that does not parse is answered with a parse error:
/// code -32700, correlated to a null id.
pub proof fn lemma_invalid_line_reply(name: Seq<char>, line: Seq<char>)
    requires
        !is_blank(line),
        line_parse(line) is None,
    ensures
        server_reply(name, line) matches Some(rv) && (rv.result is None && rv.id is None && (
        rv.error matches Some(e) && e.code == -32700)),
{
}

} // verus!
