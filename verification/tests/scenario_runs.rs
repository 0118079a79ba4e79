use mcp_compliance::client::{check_add_response, Outcome, RunAction, RunEvent, ScenarioRun};
use mcp_compliance::json::Json;
use mcp_compliance::rpc::{JsonRpcRequest, JsonRpcResponse};
use mcp_compliance::server::server_step;

/// Drive one scenario run against the reference server, in process.
fn drive(scenario_id: u32, server_name: &str, noise: bool) -> Outcome {
    let mut run = ScenarioRun::new(scenario_id);
    let mut action = run.step(&RunEvent::Started);
    let mut guard = 0;
    loop {
        guard += 1;
        assert!(guard < 32, "run did not settle");
        match action {
            RunAction::SendLine(line) => {
                let reply = server_step(server_name, &line).expect("server answers");
                if noise {
                    let a = run.step(&RunEvent::Line("starting server...".to_owned()));
                    assert!(matches!(a, RunAction::AwaitLine));
                }
                action = run.step(&RunEvent::Line(reply));
            }
            RunAction::AwaitLine => panic!("nothing left to feed"),
            RunAction::Finish(o) => return o,
        }
    }
}

#[test]
fn test_scenario_one_passes_end_to_end() {
    assert_eq!(drive(1, "CalcServer", false), Outcome::Passed);
}

#[test]
fn test_scenario_one_passes_with_banner_noise() {
    assert_eq!(drive(1, "CalcServer", true), Outcome::Passed);
}

#[test]
fn test_mismatched_sum_reports_expected_and_got() {
    let req = JsonRpcRequest {
        jsonrpc: "2.0".to_owned(),
        id: Some(Json::Int(2)),
        method: "tools/call".to_owned(),
        params: Some(Json::Obj(vec![
            ("name".to_owned(), Json::Str("add".to_owned())),
            (
                "arguments".to_owned(),
                Json::Obj(vec![
                    ("a".to_owned(), Json::Int(10)),
                    ("b".to_owned(), Json::Int(21)),
                ]),
            ),
        ])),
    };
    let out = server_step("CalcServer", &req.encode()).expect("a reply");
    let resp = JsonRpcResponse::decode(&out).expect("well formed");
    let outcome = check_add_response(&resp, "30");
    assert_eq!(outcome, Outcome::Failed("expected 30, got 31".to_owned()));
}

#[test]
fn test_unimplemented_scenario_reports_not_implemented() {
    let o = drive(7, "CalcServer", false);
    assert_eq!(o, Outcome::NotImplemented);
    assert_ne!(o, Outcome::Passed);
}

#[test]
fn test_structural_check_messages() {
    let resp = JsonRpcResponse::decode("{\"jsonrpc\":\"2.0\",\"id\":2,\"result\":{}}")
        .expect("well formed");
    assert_eq!(
        check_add_response(&resp, "30"),
        Outcome::Failed("No content field in result".to_owned())
    );
    let resp = JsonRpcResponse::decode("{\"jsonrpc\":\"2.0\",\"id\":2,\"result\":{\"content\":[]}}")
        .expect("well formed");
    assert_eq!(
        check_add_response(&resp, "30"),
        Outcome::Failed("No content in response".to_owned())
    );
    let resp = JsonRpcResponse::decode(
        "{\"jsonrpc\":\"2.0\",\"id\":2,\"result\":{\"content\":[{\"type\":\"text\"}]}}",
    )
    .expect("well formed");
    assert_eq!(
        check_add_response(&resp, "30"),
        Outcome::Failed("No text field in content".to_owned())
    );
}
