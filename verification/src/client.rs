//! The scenario executor: the decisions of one conformance run.
//!
//! A run sends an initialize handshake, then the scenario's own request, and
//! judges the reply.  The executor is a state machine fed with events — the
//! start of the run, and each line read from the server — and answering with
//! actions — a line to send, a request for another line, or the terminal
//! outcome.  All input and output is plain text; whatever performs it drives
//! this machine.

use vstd::prelude::*;

use crate::json::{
    json_text, jstr, jv_get, line_parse, obj2, skip_ws, skip_ws_at, str_to_chars, Json, JsonV,
};
use crate::rpc::{req_jv, resp_of_jv, JsonRpcRequest, JsonRpcResponse, ReqV, RespV};

verus! {

/// The terminal outcome of one scenario run.  A scenario with no implemented
/// logic reports [`Outcome::NotImplemented`]: an informational outcome kept
/// distinct from passing and from failing.
#[derive(Debug, PartialEq, Eq)]
pub enum Outcome {
    Passed,
    Failed(String),
    NotImplemented,
}

/// The denotation of an outcome.
pub enum OutcomeV {
    Passed,
    Failed(Seq<char>),
    NotImplemented,
}

impl View for Outcome {
    type V = OutcomeV;

    open spec fn view(&self) -> OutcomeV {
        match self {
            Outcome::Passed => OutcomeV::Passed,
            Outcome::Failed(m) => OutcomeV::Failed(m@),
            Outcome::NotImplemented => OutcomeV::NotImplemented,
        }
    }
}

/// How a tool reply is judged against an expected text: the structural
/// checks nest result, content field, first entry, text field, in that
/// order, and the first missing piece names the failure.
pub open spec fn add_check_spec(r: RespV, expected: Seq<char>) -> OutcomeV {
    match r.result {
        None => OutcomeV::Failed("No result in response"@),
        Some(res) => match jv_get(res, "content"@) {
            None => OutcomeV::Failed("No content field in result"@),
            Some(content) => match content {
                JsonV::Arr(items) => if items.len() == 0 {
                    OutcomeV::Failed("No content in response"@)
                } else {
                    match jv_get(items[0], "text"@) {
                        Some(JsonV::Str(t)) => if t == expected {
                            OutcomeV::Passed
                        } else {
                            OutcomeV::Failed("expected "@ + expected + ", got "@ + t)
                        },
                        _ => OutcomeV::Failed("No text field in content"@),
                    }
                },
                _ => OutcomeV::Failed("No content in response"@),
            },
        },
    }
}

/// Judge a tool reply against the text it is expected to carry.
pub fn check_add_response(resp: &JsonRpcResponse, expected: &str) -> (o: Outcome)
    ensures
        o@ == add_check_spec(resp@, expected@),
{
    match &resp.result {
        None => Outcome::Failed("No result in response".to_owned()),
        Some(res) => match res.get("content") {
            None => Outcome::Failed("No content field in result".to_owned()),
            Some(content) => match content.first_elem() {
                None => Outcome::Failed("No content in response".to_owned()),
                Some(first) => match first.get("text") {
                    Some(tv) => match tv.str_value() {
                        Some(t) => {
                            if crate::json::str_eq(t.as_str(), expected) {
                                Outcome::Passed
                            } else {
                                let mut m: String = "expected ".to_owned();
                                m.append(expected);
                                m.append(", got ");
                                m.append(t.as_str());
                                proof {
                                    assert(m@ =~= "expected "@ + expected@ + ", got "@ + t@);
                                }
                                Outcome::Failed(m)
                            }
                        },
                        None => Outcome::Failed("No text field in content".to_owned()),
                    },
                    None => Outcome::Failed("No text field in content".to_owned()),
                },
            },
        },
    }
}

/// The initialize request every run opens with.
pub open spec fn init_req_v() -> ReqV {
    ReqV {
        jsonrpc: "2.0"@,
        id: Some(JsonV::Int(1)),
        method: "initialize"@,
        params: Some(
            JsonV::Obj(
                seq![
                    ("protocolVersion"@, JsonV::Str("2025-06-18"@)),
                    ("capabilities"@, JsonV::Obj(Seq::<(Seq<char>, JsonV)>::empty())),
                    (
                        "clientInfo"@,
                        JsonV::Obj(
                            seq![
                                ("name"@, JsonV::Str("RustTestClient"@)),
                                ("version"@, JsonV::Str("1.0.0"@)),
                            ],
                        ),
                    ),
                ],
            ),
        ),
    }
}

/// Build the initialize request.
pub fn initialize_request() -> (r: JsonRpcRequest)
    ensures
        r@ == init_req_v(),
{
    let client_info = obj2("name", jstr("RustTestClient"), "version", jstr("1.0.0"));
    let params = obj3_params(client_info);
    let r = JsonRpcRequest {
        jsonrpc: "2.0".to_owned(),
        id: Some(Json::Int(1)),
        method: "initialize".to_owned(),
        params: Some(params),
    };
    r
}

/// The parameter object of the initialize request.
fn obj3_params(client_info: Json) -> (r: Json)
    ensures
        r@ == JsonV::Obj(
            seq![
                ("protocolVersion"@, JsonV::Str("2025-06-18"@)),
                ("capabilities"@, JsonV::Obj(Seq::<(Seq<char>, JsonV)>::empty())),
                ("clientInfo"@, client_info@),
            ],
        ),
{
    crate::json::obj3(
        "protocolVersion",
        jstr("2025-06-18"),
        "capabilities",
        crate::json::obj0(),
        "clientInfo",
        client_info,
    )
}

/// The follow-up request a scenario sends, where one is implemented: the
/// additive tool check calls the calculator's `add` with fixed operands.
pub open spec fn scenario_req_v(id: int) -> Option<ReqV> {
    if id == 1 {
        Some(
            ReqV {
                jsonrpc: "2.0"@,
                id: Some(JsonV::Int(2)),
                method: "tools/call"@,
                params: Some(
                    JsonV::Obj(
                        seq![
                            ("name"@, JsonV::Str("add"@)),
                            (
                                "arguments"@,
                                JsonV::Obj(
                                    seq![("a"@, JsonV::Int(10)), ("b"@, JsonV::Int(20))],
                                ),
                            ),
                        ],
                    ),
                ),
            },
        )
    } else {
        None
    }
}

/// Build the scenario's follow-up request, where one is implemented.
pub fn scenario_request(scenario_id: u32) -> (r: Option<JsonRpcRequest>)
    ensures
        match r {
            Some(req) => scenario_req_v(scenario_id as int) == Some(req@),
            None => scenario_req_v(scenario_id as int) is None,
        },
{
    if scenario_id == 1 {
        let args = obj2("a", Json::Int(10), "b", Json::Int(20));
        let params = obj2("name", jstr("add"), "arguments", args);
        Some(
            JsonRpcRequest {
                jsonrpc: "2.0".to_owned(),
                id: Some(Json::Int(2)),
                method: "tools/call".to_owned(),
                params: Some(params),
            },
        )
    } else {
        None
    }
}

/// The text a scenario expects back from its tool call.
pub open spec fn scenario_expected(id: int) -> Seq<char> {
    "30"@
}

/// Judge a scenario's tool reply: the one implemented scenario checks the
/// additive result; any other reports not-implemented.
pub open spec fn scenario_check_spec(id: int, r: RespV) -> OutcomeV {
    if id == 1 {
        add_check_spec(r, scenario_expected(id))
    } else {
        OutcomeV::NotImplemented
    }
}

/// A line counts as a structured message when, after leading whitespace, it
/// opens a JSON object; every other line is framing noise to be skipped.
pub open spec fn is_message_line(line: Seq<char>) -> bool {
    skip_ws(line, 0) < line.len() && line[skip_ws(line, 0)] == '{'
}

/// Test whether a line is a structured message.
pub fn message_line(line: &str) -> (b: bool)
    ensures
        b == is_message_line(line@),
{
    let cs = str_to_chars(line);
    let j = skip_ws_at(&cs, 0);
    j < cs.len() && cs[j] == '{'
}

/// The states of one scenario run.
#[derive(Debug, PartialEq, Eq, Structural)]
pub enum RunState {
    Start,
    AwaitInitResponse,
    AwaitToolResponse,
    Done,
}

/// What a run asks of its driver next.
#[derive(Debug)]
pub enum RunAction {
    SendLine(String),
    AwaitLine,
    Finish(Outcome),
}

/// The denotation of an action.
pub enum ActionV {
    SendLine(Seq<char>),
    AwaitLine,
    Finish(OutcomeV),
}

impl View for RunAction {
    type V = ActionV;

    open spec fn view(&self) -> ActionV {
        match self {
            RunAction::SendLine(s) => ActionV::SendLine(s@),
            RunAction::AwaitLine => ActionV::AwaitLine,
            RunAction::Finish(o) => ActionV::Finish(o@),
        }
    }
}

/// An event fed to a run: its start, or one line read from the server.
#[derive(Debug)]
pub enum RunEvent {
    Started,
    Line(String),
}

/// The denotation of an event.
pub enum EventV {
    Started,
    Line(Seq<char>),
}

impl View for RunEvent {
    type V = EventV;

    open spec fn view(&self) -> EventV {
        match self {
            RunEvent::Started => EventV::Started,
            RunEvent::Line(l) => EventV::Line(l@),
        }
    }
}

/// The response a line carries, if it parses and is well formed.
pub open spec fn line_resp(l: Seq<char>) -> Option<RespV> {
    match line_parse(l) {
        Some(v) => resp_of_jv(v),
        None => None,
    }
}

/// One transition of a scenario run.
pub open spec fn step_spec(id: int, st: RunState, ev: EventV) -> (RunState, ActionV) {
    match (st, ev) {
        (RunState::Start, EventV::Started) => (
            RunState::AwaitInitResponse,
            ActionV::SendLine(json_text(req_jv(init_req_v()))),
        ),
        (RunState::AwaitInitResponse, EventV::Line(l)) => {
            if !is_message_line(l) {
                (RunState::AwaitInitResponse, ActionV::AwaitLine)
            } else {
                match scenario_req_v(id) {
                    Some(r) => (RunState::AwaitToolResponse, ActionV::SendLine(json_text(req_jv(r)))),
                    None => (RunState::Done, ActionV::Finish(OutcomeV::NotImplemented)),
                }
            }
        },
        (RunState::AwaitToolResponse, EventV::Line(l)) => {
            if !is_message_line(l) {
                (RunState::AwaitToolResponse, ActionV::AwaitLine)
            } else {
                match line_resp(l) {
                    Some(r) => (RunState::Done, ActionV::Finish(scenario_check_spec(id, r))),
                    None => (
                        RunState::Done,
                        ActionV::Finish(OutcomeV::Failed("Undecodable response"@)),
                    ),
                }
            }
        },
        _ => (st, ActionV::AwaitLine),
    }
}

/// One scenario run in progress.
#[derive(Debug)]
pub struct ScenarioRun {
    pub scenario_id: u32,
    pub state: RunState,
}

impl ScenarioRun {
    /// A run of the given scenario, not yet started.
    pub fn new(scenario_id: u32) -> (r: ScenarioRun)
        ensures
            r.scenario_id == scenario_id,
            r.state == RunState::Start,
    {
        ScenarioRun { scenario_id, state: RunState::Start }
    }

    /// Feed one event; the run moves and answers with its next action.
    pub fn step(&mut self, ev: &RunEvent) -> (a: RunAction)
        ensures
            final(self).scenario_id == old(self).scenario_id,
            (final(self).state, a@) == step_spec(
                old(self).scenario_id as int,
                old(self).state,
                ev@,
            ),
    {
        match (&self.state, ev) {
            (RunState::Start, RunEvent::Started) => {
                self.state = RunState::AwaitInitResponse;
                RunAction::SendLine(initialize_request().encode())
            },
            (RunState::AwaitInitResponse, RunEvent::Line(l)) => {
                if !message_line(l.as_str()) {
                    RunAction::AwaitLine
                } else {
                    match scenario_request(self.scenario_id) {
                        Some(req) => {
                            self.state = RunState::AwaitToolResponse;
                            RunAction::SendLine(req.encode())
                        },
                        None => {
                            self.state = RunState::Done;
                            RunAction::Finish(Outcome::NotImplemented)
                        },
                    }
                }
            },
            (RunState::AwaitToolResponse, RunEvent::Line(l)) => {
                if !message_line(l.as_str()) {
                    RunAction::AwaitLine
                } else {
                    match JsonRpcResponse::decode(l.as_str()) {
                        Some(resp) => {
                            self.state = RunState::Done;
                            if self.scenario_id == 1 {
                                RunAction::Finish(check_add_response(&resp, "30"))
                            } else {
                                RunAction::Finish(Outcome::NotImplemented)
                            }
                        },
                        None => {
                            self.state = RunState::Done;
                            RunAction::Finish(Outcome::Failed("Undecodable response".to_owned()))
                        },
                    }
                }
            },
            _ => RunAction::AwaitLine,
        }
    }
}

/// A scenario with no implemented logic finishes as not-implemented — not
/// as a pass and not as a failure.
pub proof fn lemma_unimplemented_scenario(id: int, l: Seq<char>)
    requires
        id != 1,
        is_message_line(l),
    ensures
        step_spec(id, RunState::AwaitInitResponse, EventV::Line(l)) == (
            RunState::Done,
            ActionV::Finish(OutcomeV::NotImplemented),
        ),
        forall|r: RespV| scenario_check_spec(id, r) == OutcomeV::NotImplemented,
{
}

} // verus!
