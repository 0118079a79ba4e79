use mcp_compliance::catalog::{catalog_from_json, find_scenario, scenario_has_client, Scenarios};
use mcp_compliance::json::parse_json;

fn descriptor() -> String {
    let server = "{\"description\":\"d\",\"tools\":{\"t\":{\"description\":\"td\"}},\
\"resources\":{},\"resourceTemplates\":{\"rt\":{\"description\":\"rtd\",\"params\":{\"p\":{\"description\":\"pd\"}}}},\
\"prompts\":{},\"promptTemplates\":{}}";
    format!(
        "{{\"servers\":{{\"CalcServer\":{s},\"FileServer\":{s},\"ErrorServer\":{s}}},\
\"scenarios\":[{{\"id\":1,\"description\":\"additive tool check\",\"client_ids\":[\"client1\"],\
\"server_name\":\"CalcServer\"}},{{\"id\":2,\"description\":\"error tool check\",\
\"client_ids\":[\"client1\",\"client2\"],\"server_name\":\"ErrorServer\",\"http_only\":true}}]}}",
        s = server
    )
}

fn load() -> Scenarios {
    let v = parse_json(&descriptor()).expect("descriptor parses");
    catalog_from_json(&v).expect("descriptor is valid")
}

#[test]
fn test_load_scenarios() {
    let scenarios = load();
    let names: Vec<&str> = scenarios.servers.iter().map(|p| p.0.as_str()).collect();
    assert!(names.contains(&"CalcServer"));
    assert!(names.contains(&"FileServer"));
    assert!(names.contains(&"ErrorServer"));
    assert!(!scenarios.scenarios.is_empty());
}

#[test]
fn test_scenario_structure() {
    let scenarios = load();
    for scenario in &scenarios.scenarios {
        assert!(scenario.id > 0);
        assert!(!scenario.description.is_empty());
        assert!(!scenario.client_ids.is_empty());
        assert!(scenarios.servers.iter().any(|p| p.0 == scenario.server_name));
    }
}

#[test]
fn test_http_only_defaults_to_false() {
    let c = load();
    assert!(!c.scenarios[0].http_only);
    assert!(c.scenarios[1].http_only);
}

#[test]
fn test_find_scenario_and_clients() {
    let c = load();
    let s = find_scenario(&c, 1).expect("scenario 1 exists");
    assert_eq!(s.server_name, "CalcServer");
    assert!(scenario_has_client(s, "client1"));
    assert!(!scenario_has_client(s, "nobody"));
    assert!(find_scenario(&c, 99).is_none());
}

#[test]
fn test_unresolved_server_name_is_rejected() {
    let bad = descriptor().replace("\"server_name\":\"CalcServer\"", "\"server_name\":\"Ghost\"");
    let v = parse_json(&bad).expect("still parses");
    assert!(catalog_from_json(&v).is_err());
}

#[test]
fn test_nonpositive_id_is_rejected() {
    let bad = descriptor().replace("\"id\":1", "\"id\":0");
    let v = parse_json(&bad).expect("still parses");
    assert!(catalog_from_json(&v).is_err());
}

#[test]
fn test_malformed_server_definition_is_rejected() {
    let bad = descriptor().replace("\"description\":\"td\"", "\"note\":\"td\"");
    let v = parse_json(&bad).expect("still parses");
    assert!(catalog_from_json(&v).is_err());
}

#[test]
fn test_missing_servers_map_is_rejected() {
    let v = parse_json("{\"scenarios\":[]}").expect("parses");
    assert!(catalog_from_json(&v).is_err());
}

#[test]
fn test_empty_client_ids_is_rejected() {
    let bad = descriptor().replace("[\"client1\"]", "[]");
    let v = parse_json(&bad).expect("still parses");
    assert!(catalog_from_json(&v).is_err());
}
