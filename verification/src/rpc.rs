//! JSON-RPC envelopes and their line codec.
//!
//! A request or response is carried as a single line holding one JSON object.
//! Encoding renders the canonical text of that object; decoding parses a line
//! and reads the envelope's fields, ignoring unknown ones, with the last
//! binding of a repeated key winning, and treating a `null` field as absent.

use vstd::prelude::*;

use crate::json::{
    encode_json, json_text, json_view, json_view_fields, lemma_json_view_fields, line_clean,
    line_parse, obj_lookup, parse_json, Json, JsonV,
};

verus! {

/// A protocol request.
#[derive(Debug)]
pub struct JsonRpcRequest {
    pub jsonrpc: String,
    pub id: Option<Json>,
    pub method: String,
    pub params: Option<Json>,
}

/// A protocol error payload.
#[derive(Debug)]
pub struct JsonRpcError {
    pub code: i64,
    pub message: String,
    pub data: Option<Json>,
}

/// A protocol response.
#[derive(Debug)]
pub struct JsonRpcResponse {
    pub jsonrpc: String,
    pub id: Option<Json>,
    pub result: Option<Json>,
    pub error: Option<JsonRpcError>,
}

/// The denotation of a request.
pub struct ReqV {
    pub jsonrpc: Seq<char>,
    pub id: Option<JsonV>,
    pub method: Seq<char>,
    pub params: Option<JsonV>,
}

/// The denotation of an error payload.
pub struct ErrV {
    pub code: int,
    pub message: Seq<char>,
    pub data: Option<JsonV>,
}

/// The denotation of a response.
pub struct RespV {
    pub jsonrpc: Seq<char>,
    pub id: Option<JsonV>,
    pub result: Option<JsonV>,
    pub error: Option<ErrV>,
}

/// The denotation of an optional structured value.
pub open spec fn opt_jv(o: Option<Json>) -> Option<JsonV> {
    match o {
        Some(j) => Some(j@),
        None => None,
    }
}

impl View for JsonRpcRequest {
    type V = ReqV;

    open spec fn view(&self) -> ReqV {
        ReqV {
            jsonrpc: self.jsonrpc@,
            id: opt_jv(self.id),
            method: self.method@,
            params: opt_jv(self.params),
        }
    }
}

impl View for JsonRpcError {
    type V = ErrV;

    open spec fn view(&self) -> ErrV {
        ErrV { code: self.code as int, message: self.message@, data: opt_jv(self.data) }
    }
}

impl View for JsonRpcResponse {
    type V = RespV;

    open spec fn view(&self) -> RespV {
        RespV {
            jsonrpc: self.jsonrpc@,
            id: opt_jv(self.id),
            result: opt_jv(self.result),
            error: match self.error {
                Some(e) => Some(e@),
                None => None,
            },
        }
    }
}

/// A response is well formed when it carries exactly one of result and error.
pub open spec fn resp_wf(r: RespV) -> bool {
    (r.result is Some) != (r.error is Some)
}

pub open spec fn key_jsonrpc() -> Seq<char> {
    seq!['j', 's', 'o', 'n', 'r', 'p', 'c']
}

pub open spec fn key_id() -> Seq<char> {
    seq!['i', 'd']
}

pub open spec fn key_method() -> Seq<char> {
    seq!['m', 'e', 't', 'h', 'o', 'd']
}

pub open spec fn key_params() -> Seq<char> {
    seq!['p', 'a', 'r', 'a', 'm', 's']
}

pub open spec fn key_result() -> Seq<char> {
    seq!['r', 'e', 's', 'u', 'l', 't']
}

pub open spec fn key_error() -> Seq<char> {
    seq!['e', 'r', 'r', 'o', 'r']
}

pub open spec fn key_code() -> Seq<char> {
    seq!['c', 'o', 'd', 'e']
}

pub open spec fn key_message() -> Seq<char> {
    seq!['m', 'e', 's', 's', 'a', 'g', 'e']
}

pub open spec fn key_data() -> Seq<char> {
    seq!['d', 'a', 't', 'a']
}

/// An optional value as a field: `null` stands for absence.
pub open spec fn opt_or_null(o: Option<JsonV>) -> JsonV {
    match o {
        Some(v) => v,
        None => JsonV::Null,
    }
}

/// Absence read back from a field: `null` stands for absence.
pub open spec fn null_to_none(o: Option<JsonV>) -> Option<JsonV> {
    match o {
        Some(JsonV::Null) => None,
        Some(v) => Some(v),
        None => None,
    }
}

/// The object a request is carried as.
pub open spec fn req_jv(r: ReqV) -> JsonV {
    JsonV::Obj(
        seq![
            (key_jsonrpc(), JsonV::Str(r.jsonrpc)),
            (key_id(), opt_or_null(r.id)),
            (key_method(), JsonV::Str(r.method)),
            (key_params(), opt_or_null(r.params)),
        ],
    )
}

/// The object an error payload is carried as.
pub open spec fn err_jv(e: ErrV) -> JsonV {
    JsonV::Obj(
        seq![
            (key_code(), JsonV::Int(e.code)),
            (key_message(), JsonV::Str(e.message)),
            (key_data(), opt_or_null(e.data)),
        ],
    )
}

/// The object a response is carried as.
pub open spec fn resp_jv(r: RespV) -> JsonV {
    JsonV::Obj(
        seq![
            (key_jsonrpc(), JsonV::Str(r.jsonrpc)),
            (key_id(), opt_or_null(r.id)),
            (key_result(), opt_or_null(r.result)),
            (
                key_error(),
                match r.error {
                    Some(e) => err_jv(e),
                    None => JsonV::Null,
                },
            ),
        ],
    )
}

/// The request a value denotes, if it has a request's shape.
pub open spec fn req_of_jv(v: JsonV) -> Option<ReqV> {
    match v {
        JsonV::Obj(fs) => match (obj_lookup(fs, key_jsonrpc()), obj_lookup(fs, key_method())) {
            (Some(JsonV::Str(ver)), Some(JsonV::Str(m))) => Some(
                ReqV {
                    jsonrpc: ver,
                    id: null_to_none(obj_lookup(fs, key_id())),
                    method: m,
                    params: null_to_none(obj_lookup(fs, key_params())),
                },
            ),
            _ => None,
        },
        _ => None,
    }
}

/// The error payload a value denotes, if it has an error's shape.
pub open spec fn err_of_jv(v: JsonV) -> Option<ErrV> {
    match v {
        JsonV::Obj(fs) => match (obj_lookup(fs, key_code()), obj_lookup(fs, key_message())) {
            (Some(JsonV::Int(c)), Some(JsonV::Str(m))) => Some(
                ErrV { code: c, message: m, data: null_to_none(obj_lookup(fs, key_data())) },
            ),
            _ => None,
        },
        _ => None,
    }
}

/// The response a value denotes, if it has a well-formed response's shape:
/// exactly one of result and error is present.
pub open spec fn resp_of_jv(v: JsonV) -> Option<RespV> {
    match v {
        JsonV::Obj(fs) => match obj_lookup(fs, key_jsonrpc()) {
            Some(JsonV::Str(ver)) => {
                let result = null_to_none(obj_lookup(fs, key_result()));
                match null_to_none(obj_lookup(fs, key_error())) {
                    Some(ev) => match err_of_jv(ev) {
                        Some(e) => if result is None {
                            Some(
                                RespV {
                                    jsonrpc: ver,
                                    id: null_to_none(obj_lookup(fs, key_id())),
                                    result: None,
                                    error: Some(e),
                                },
                            )
                        } else {
                            None
                        },
                        None => None,
                    },
                    None => if result is Some {
                        Some(
                            RespV {
                                jsonrpc: ver,
                                id: null_to_none(obj_lookup(fs, key_id())),
                                result,
                                error: None,
                            },
                        )
                    } else {
                        None
                    },
                }
            },
            _ => None,
        },
        _ => None,
    }
}

/// An optional value as an owned field value, `null` standing for absence.
fn opt_field_value(o: &Option<Json>) -> (r: Json)
    ensures
        r@ == opt_or_null(opt_jv(*o)),
{
    match o {
        Some(j) => j.deep_clone(),
        None => Json::Null,
    }
}

impl JsonRpcRequest {
    /// One line of text carrying this request; no line break is embedded.
    pub fn encode(&self) -> (line: String)
        ensures
            line@ == json_text(req_jv(self@)),
            line_clean(line@),
    {
        proof {
            crate::json::lemma_json_text_single_line(req_jv(self@));
        }
        let mut fields: Vec<(String, Json)> = Vec::new();
        fields.push(("jsonrpc".to_owned(), Json::Str(self.jsonrpc.clone())));
        fields.push(("id".to_owned(), opt_field_value(&self.id)));
        fields.push(("method".to_owned(), Json::Str(self.method.clone())));
        fields.push(("params".to_owned(), opt_field_value(&self.params)));
        let ghost gf = fields@;
        let obj = Json::Obj(fields);
        proof {
            reveal_strlit("jsonrpc");
            reveal_strlit("id");
            reveal_strlit("method");
            reveal_strlit("params");
            assert("jsonrpc"@ =~= key_jsonrpc());
            assert("id"@ =~= key_id());
            assert("method"@ =~= key_method());
            assert("params"@ =~= key_params());
            lemma_json_view_fields(gf);
            assert(gf.len() == 4);
            assert(json_view_fields(gf).len() == 4);
            assert(json_view_fields(gf)[0] == (gf[0].0@, json_view(gf[0].1)));
            assert(gf[0].0@ == key_jsonrpc());
            assert(json_view(gf[0].1) == JsonV::Str(self.jsonrpc@));
            assert(json_view_fields(gf)[1] == (gf[1].0@, json_view(gf[1].1)));
            assert(gf[1].0@ == key_id());
            assert(json_view(gf[1].1) == opt_or_null(opt_jv(self.id)));
            assert(json_view_fields(gf)[2] == (gf[2].0@, json_view(gf[2].1)));
            assert(gf[2].0@ == key_method());
            assert(json_view(gf[2].1) == JsonV::Str(self.method@));
            assert(json_view_fields(gf)[3] == (gf[3].0@, json_view(gf[3].1)));
            assert(gf[3].0@ == key_params());
            assert(json_view(gf[3].1) == opt_or_null(opt_jv(self.params)));
            assert(json_view_fields(gf) =~~= req_jv(self@)->Obj_0);
            assert(obj@ == JsonV::Obj(json_view_fields(gf)));
            assert(obj@ =~~= req_jv(self@));
        }
        encode_json(&obj)
    }

    /// Decode a line carrying a request.
    pub fn decode(line: &str) -> (r: Option<JsonRpcRequest>)
        ensures
            match r {
                Some(req) => line_parse(line@) matches Some(v) && req_of_jv(v) == Some(req@),
                None => line_parse(line@) is None || (line_parse(line@) matches Some(v)
                    && req_of_jv(v) is None),
            },
    {
        proof {
            reveal_strlit("jsonrpc");
            reveal_strlit("id");
            reveal_strlit("method");
            reveal_strlit("params");
            assert("jsonrpc"@ =~= key_jsonrpc());
            assert("id"@ =~= key_id());
            assert("method"@ =~= key_method());
            assert("params"@ =~= key_params());
        }
        match parse_json(line) {
            Some(j) => {
                let ver = match j.get("jsonrpc") {
                    Some(x) => match x.str_value() {
                        Some(s) => s.clone(),
                        None => {
                            return None;
                        },
                    },
                    None => {
                        return None;
                    },
                };
                let meth = match j.get("method") {
                    Some(x) => match x.str_value() {
                        Some(s) => s.clone(),
                        None => {
                            return None;
                        },
                    },
                    None => {
                        return None;
                    },
                };
                let idv = match j.get("id") {
                    Some(x) => match x {
                        Json::Null => None,
                        _ => Some(x.deep_clone()),
                    },
                    None => None,
                };
                let pv = match j.get("params") {
                    Some(x) => match x {
                        Json::Null => None,
                        _ => Some(x.deep_clone()),
                    },
                    None => None,
                };
                Some(JsonRpcRequest { jsonrpc: ver, id: idv, method: meth, params: pv })
            },
            None => None,
        }
    }
}

impl JsonRpcResponse {
    /// One line of text carrying this response; no line break is embedded.
    pub fn encode(&self) -> (line: String)
        ensures
            line@ == json_text(resp_jv(self@)),
            line_clean(line@),
    {
        proof {
            crate::json::lemma_json_text_single_line(resp_jv(self@));
        }
        let errv: Json = match &self.error {
            Some(e) => {
                let mut efields: Vec<(String, Json)> = Vec::new();
                efields.push(("code".to_owned(), Json::Int(e.code)));
                efields.push(("message".to_owned(), Json::Str(e.message.clone())));
                efields.push(("data".to_owned(), opt_field_value(&e.data)));
                let ghost ge = efields@;
                let eobj = Json::Obj(efields);
                proof {
                    reveal_strlit("code");
                    reveal_strlit("message");
                    reveal_strlit("data");
                    assert("code"@ =~= key_code());
                    assert("message"@ =~= key_message());
                    assert("data"@ =~= key_data());
                    lemma_json_view_fields(ge);
                    assert(json_view_fields(ge)[0] == (ge[0].0@, json_view(ge[0].1)));
                    assert(json_view_fields(ge)[1] == (ge[1].0@, json_view(ge[1].1)));
                    assert(json_view_fields(ge)[2] == (ge[2].0@, json_view(ge[2].1)));
                    assert(json_view_fields(ge) =~~= err_jv(e@)->Obj_0);
                    assert(eobj@ == JsonV::Obj(json_view_fields(ge)));
                    assert(eobj@ =~~= err_jv(e@));
                }
                eobj
            },
            None => Json::Null,
        };
        let mut fields: Vec<(String, Json)> = Vec::new();
        fields.push(("jsonrpc".to_owned(), Json::Str(self.jsonrpc.clone())));
        fields.push(("id".to_owned(), opt_field_value(&self.id)));
        fields.push(("result".to_owned(), opt_field_value(&self.result)));
        fields.push(("error".to_owned(), errv));
        let ghost gf = fields@;
        let obj = Json::Obj(fields);
        proof {
            reveal_strlit("jsonrpc");
            reveal_strlit("id");
            reveal_strlit("result");
            reveal_strlit("error");
            assert("jsonrpc"@ =~= key_jsonrpc());
            assert("id"@ =~= key_id());
            assert("result"@ =~= key_result());
            assert("error"@ =~= key_error());
            lemma_json_view_fields(gf);
            assert(json_view_fields(gf)[0] == (gf[0].0@, json_view(gf[0].1)));
            assert(json_view_fields(gf)[1] == (gf[1].0@, json_view(gf[1].1)));
            assert(json_view_fields(gf)[2] == (gf[2].0@, json_view(gf[2].1)));
            assert(json_view_fields(gf)[3] == (gf[3].0@, json_view(gf[3].1)));
            assert(json_view_fields(gf) =~~= resp_jv(self@)->Obj_0);
            assert(obj@ == JsonV::Obj(json_view_fields(gf)));
            assert(obj@ =~~= resp_jv(self@));
        }
        encode_json(&obj)
    }

    /// Decode a line carrying a response; only a well-formed response — one
    /// carrying exactly one of result and error — is accepted.
    pub fn decode(line: &str) -> (r: Option<JsonRpcResponse>)
        ensures
            match r {
                Some(resp) => line_parse(line@) matches Some(v) && resp_of_jv(v) == Some(resp@)
                    && resp_wf(resp@),
                None => line_parse(line@) is None || (line_parse(line@) matches Some(v)
                    && resp_of_jv(v) is None),
            },
    {
        proof {
            reveal_strlit("jsonrpc");
            reveal_strlit("id");
            reveal_strlit("result");
            reveal_strlit("error");
            reveal_strlit("code");
            reveal_strlit("message");
            reveal_strlit("data");
            assert("jsonrpc"@ =~= key_jsonrpc());
            assert("id"@ =~= key_id());
            assert("result"@ =~= key_result());
            assert("error"@ =~= key_error());
            assert("code"@ =~= key_code());
            assert("message"@ =~= key_message());
            assert("data"@ =~= key_data());
        }
        match parse_json(line) {
            Some(j) => {
                let ver = match j.get("jsonrpc") {
                    Some(x) => match x.str_value() {
                        Some(s) => s.clone(),
                        None => {
                            return None;
                        },
                    },
                    None => {
                        return None;
                    },
                };
                let idv = match j.get("id") {
                    Some(x) => match x {
                        Json::Null => None,
                        _ => Some(x.deep_clone()),
                    },
                    None => None,
                };
                let resv = match j.get("result") {
                    Some(x) => match x {
                        Json::Null => None,
                        _ => Some(x.deep_clone()),
                    },
                    None => None,
                };
                let errv = match j.get("error") {
                    Some(x) => match x {
                        Json::Null => None,
                        _ => {
                            let code = match x.get("code") {
                                Some(c) => match c.int_value() {
                                    Some(n) => n,
                                    None => {
                                        return None;
                                    },
                                },
                                None => {
                                    return None;
                                },
                            };
                            let msg = match x.get("message") {
                                Some(m) => match m.str_value() {
                                    Some(s) => s.clone(),
                                    None => {
                                        return None;
                                    },
                                },
                                None => {
                                    return None;
                                },
                            };
                            let dv = match x.get("data") {
                                Some(d) => match d {
                                    Json::Null => None,
                                    _ => Some(d.deep_clone()),
                                },
                                None => None,
                            };
                            Some(JsonRpcError { code, message: msg, data: dv })
                        },
                    },
                    None => None,
                };
                match (resv, errv) {
                    (Some(rv), None) => Some(
                        JsonRpcResponse {
                            jsonrpc: ver,
                            id: idv,
                            result: Some(rv),
                            error: None,
                        },
                    ),
                    (None, Some(ev)) => Some(
                        JsonRpcResponse {
                            jsonrpc: ver,
                            id: idv,
                            result: None,
                            error: Some(ev),
                        },
                    ),
                    _ => None,
                }
            },
            None => None,
        }
    }
}


/// Round trip: encoding a request and decoding the line reproduces the
/// request's version, id, method and parameters exactly.  An id or a
/// parameter field holding an explicit `null` is left out, since the wire
/// does not distinguish a `null` field from an absent one.
pub proof fn lemma_request_round_trip(r: ReqV)
    requires
        crate::json::jv_in_range(req_jv(r)),
        r.id != Some(JsonV::Null),
        r.params != Some(JsonV::Null),
    ensures
        line_parse(json_text(req_jv(r))) == Some(req_jv(r)),
        req_of_jv(req_jv(r)) == Some(r),
{
    crate::json::lemma_canonical_line_parses(req_jv(r));
    let fs = req_jv(r)->Obj_0;
    assert(fs.len() == 4);
    assert(key_params()[0] != key_method()[0]);
    assert(key_params() != key_method());
    assert(key_params().len() != key_id().len());
    assert(key_params().len() != key_jsonrpc().len());
    assert(key_method().len() != key_id().len());
    assert(key_method().len() != key_jsonrpc().len());
    assert(key_id().len() != key_jsonrpc().len());
    let d3 = fs.drop_last();
    let d2 = d3.drop_last();
    let d1 = d2.drop_last();
    assert(fs.last() == (key_params(), opt_or_null(r.params)));
    assert(d3.last() == (key_method(), JsonV::Str(r.method)));
    assert(d2.last() == (key_id(), opt_or_null(r.id)));
    assert(d1.last() == (key_jsonrpc(), JsonV::Str(r.jsonrpc)));
    assert(obj_lookup(fs, key_params()) == Some(opt_or_null(r.params)));
    assert(obj_lookup(d3, key_method()) == Some(JsonV::Str(r.method)));
    assert(obj_lookup(fs, key_method()) == Some(JsonV::Str(r.method)));
    assert(obj_lookup(d2, key_id()) == Some(opt_or_null(r.id)));
    assert(obj_lookup(d3, key_id()) == Some(opt_or_null(r.id)));
    assert(obj_lookup(fs, key_id()) == Some(opt_or_null(r.id)));
    assert(obj_lookup(d1, key_jsonrpc()) == Some(JsonV::Str(r.jsonrpc)));
    assert(obj_lookup(d2, key_jsonrpc()) == Some(JsonV::Str(r.jsonrpc)));
    assert(obj_lookup(d3, key_jsonrpc()) == Some(JsonV::Str(r.jsonrpc)));
    assert(obj_lookup(fs, key_jsonrpc()) == Some(JsonV::Str(r.jsonrpc)));
    assert(null_to_none(Some(opt_or_null(r.id))) == r.id);
    assert(null_to_none(Some(opt_or_null(r.params))) == r.params);
}


/// The carrier object of any request value is in the model's range, so the
/// round trip applies to every request the codec can encode.
pub proof fn lemma_request_view_in_range(req: &JsonRpcRequest)
    ensures
        crate::json::jv_in_range(req_jv(req@)),
{
    let fs = req_jv(req@)->Obj_0;
    match req.id {
        Some(j) => crate::json::lemma_json_view_in_range(j),
        None => {},
    }
    match req.params {
        Some(j) => crate::json::lemma_json_view_in_range(j),
        None => {},
    }
    assert forall|k: int| 0 <= k < fs.len() implies crate::json::jv_in_range(
        (#[trigger] fs[k]).1,
    ) by {
        assert(fs[0].1 == JsonV::Str(req.jsonrpc@));
        assert(fs[2].1 == JsonV::Str(req.method@));
    }
}

} // verus!
