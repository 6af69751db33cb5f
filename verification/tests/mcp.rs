use rustdesk_rmm::json::{json_text, parse_json, Json};
use rustdesk_rmm::rmm::mcp::{
    alerts_json, call_tool, calls_write_tools, complete_tool_call, handle, is_blank, option_set_text,
    parse_error, peers_json, read_request,
    status_json, tool_list, write_allowed, Handled, Peer, ToolAction,
};

const AGENT_WRITE_OPTION: &str = "rmm-agent-write";

fn parse(text: &str) -> Json {
    parse_json(text).unwrap()
}

fn respond(h: Option<Handled>) -> Json {
    match h {
        Some(Handled::Respond(j)) => j,
        _ => panic!("expected a response"),
    }
}

fn field<'a>(j: &'a Json, key: &str) -> &'a Json {
    j.get(key).unwrap()
}

fn text(j: &Json) -> &str {
    j.as_str().unwrap().as_str()
}

/// The result of a `tools/call` request, completing any action it asks for
/// with an empty success.
fn call(name: &str, args: &str, write: bool) -> Json {
    let req = parse(&format!(
        r#"{{"jsonrpc": "2.0", "id": 1, "method": "tools/call", "params": {{"name": "{name}", "arguments": {args}}}}}"#
    ));
    let response = match handle(&req, write, "1.4.0") {
        Some(Handled::Respond(j)) => j,
        Some(Handled::Perform(id, _)) => complete_tool_call(id, Ok(String::new())),
        None => panic!("no response"),
    };
    field(&response, "result").copy()
}

#[test]
fn notifications_get_no_response() {
    let req = parse(r#"{"jsonrpc": "2.0", "method": "notifications/initialized"}"#);
    assert!(handle(&req, false, "1.4.0").is_none());
}

#[test]
fn lists_all_tools() {
    let req = parse(r#"{"jsonrpc": "2.0", "id": 1, "method": "tools/list"}"#);
    let resp = respond(handle(&req, false, "1.4.0"));
    match field(field(&resp, "result"), "tools") {
        Json::Array(tools) => assert_eq!(tools.len(), 7),
        other => panic!("tools is not an array: {other:?}"),
    }
}

#[test]
fn write_tools_blocked_without_gate() {
    let res = call("run_script", r#"{"name": "x"}"#, false);
    assert_eq!(field(&res, "isError"), &Json::Bool(true));
    match field(&res, "content") {
        Json::Array(parts) => assert!(text(field(&parts[0], "text")).contains("disabled")),
        other => panic!("content is not an array: {other:?}"),
    }
}

#[test]
fn agent_cannot_open_its_own_gate_or_touch_other_options() {
    for key in [AGENT_WRITE_OPTION, "custom-rendezvous-server"] {
        let res = call("set_option", &format!(r#"{{"name": "{key}", "value": "Y"}}"#), true);
        assert_eq!(field(&res, "isError"), &Json::Bool(true), "{key}");
    }
}

#[test]
fn unknown_method_is_an_error() {
    let req = parse(r#"{"jsonrpc": "2.0", "id": 7, "method": "nope"}"#);
    let resp = respond(handle(&req, false, "1.4.0"));
    assert_eq!(field(field(&resp, "error"), "code"), &Json::Int(-32601));
    assert_eq!(text(field(field(&resp, "error"), "message")), "Method not found: nope");
    assert_eq!(field(&resp, "id"), &Json::Int(7));
}

#[test]
fn initialize_echoes_the_requested_protocol_version() {
    let req = parse(
        r#"{"jsonrpc": "2.0", "id": "a", "method": "initialize", "params": {"protocolVersion": "2024-11-05"}}"#,
    );
    let resp = respond(handle(&req, false, "1.4.0"));
    let result = field(&resp, "result");
    assert_eq!(text(field(result, "protocolVersion")), "2024-11-05");
    assert_eq!(text(field(field(result, "serverInfo"), "version")), "1.4.0");
    assert_eq!(text(field(field(result, "serverInfo"), "name")), "rustdesk");
    assert_eq!(field(&resp, "id"), &Json::Str("a".to_owned()));
    assert_eq!(text(field(&resp, "jsonrpc")), "2.0");
}

#[test]
fn initialize_defaults_the_protocol_version() {
    let req = parse(r#"{"jsonrpc": "2.0", "id": 2, "method": "initialize"}"#);
    let resp = respond(handle(&req, false, "1.4.0"));
    assert_eq!(text(field(field(&resp, "result"), "protocolVersion")), "2025-06-18");
}

#[test]
fn ping_answers_with_an_empty_object() {
    let req = parse(r#"{"jsonrpc": "2.0", "id": 3, "method": "ping"}"#);
    let resp = respond(handle(&req, false, "1.4.0"));
    assert_eq!(field(&resp, "result"), &Json::Object(Vec::new()));
}

#[test]
fn read_tools_need_no_gate() {
    for (name, expected) in [
        ("get_status", ToolAction::GetStatus),
        ("get_inventory", ToolAction::GetInventory),
        ("get_alerts", ToolAction::GetAlerts),
        ("list_scripts", ToolAction::ListScripts),
        ("list_peers", ToolAction::ListPeers),
    ] {
        let got = call_tool(name, &Json::Object(Vec::new()), false).unwrap();
        assert_eq!(std::mem::discriminant(&got), std::mem::discriminant(&expected), "{name}");
    }
}

#[test]
fn open_gate_lets_write_tools_through() {
    match call_tool("run_script", &parse(r#"{"name": "cleanup"}"#), true) {
        Ok(ToolAction::RunScript(name)) => assert_eq!(name, "cleanup"),
        _ => panic!("run_script was refused"),
    }
    match call_tool("set_option", &parse(r#"{"name": "rmm-cpu-threshold", "value": "90"}"#), true) {
        Ok(ToolAction::SetOption(name, value)) => {
            assert_eq!(name, "rmm-cpu-threshold");
            assert_eq!(value, "90");
        }
        _ => panic!("set_option was refused"),
    }
}

#[test]
fn refusals_name_their_reason() {
    assert_eq!(
        call_tool("set_option", &parse(r#"{"name": "rmm-agent-write", "value": "Y"}"#), true).err(),
        Some("Only rmm-* options other than rmm-agent-write can be set".to_owned())
    );
    assert_eq!(
        call_tool("run_script", &parse(r#"{}"#), true).err(),
        Some("Missing string argument 'name'".to_owned())
    );
    assert_eq!(
        call_tool("set_option", &parse(r#"{"name": "rmm-x"}"#), true).err(),
        Some("Missing string argument 'value'".to_owned())
    );
    assert_eq!(
        call_tool("frobnicate", &parse(r#"{}"#), true).err(),
        Some("Unknown tool: frobnicate".to_owned())
    );
    assert_eq!(
        call_tool("run_script", &parse(r#"{"name": "x"}"#), false).err(),
        Some("Write tools are disabled. A human must run: rustdesk --option rmm-agent-write Y".to_owned())
    );
}

#[test]
fn tool_results_and_failures_are_wrapped() {
    let ok = complete_tool_call(Json::Int(5), Ok("out".to_owned()));
    let result = field(&ok, "result");
    assert_eq!(field(result, "isError"), &Json::Bool(false));
    let err = complete_tool_call(Json::Int(5), Err("No such script: x".to_owned()));
    assert_eq!(field(field(&err, "result"), "isError"), &Json::Bool(true));
    match field(result, "content") {
        Json::Array(parts) => {
            assert_eq!(text(field(&parts[0], "type")), "text");
            assert_eq!(text(field(&parts[0], "text")), "out");
        }
        other => panic!("content is not an array: {other:?}"),
    }
}

#[test]
fn write_gate_needs_exactly_y_and_cli_settings() {
    let on = vec![(AGENT_WRITE_OPTION.to_owned(), "Y".to_owned())];
    let other = vec![(AGENT_WRITE_OPTION.to_owned(), "y".to_owned())];
    assert!(write_allowed(false, &on));
    assert!(!write_allowed(true, &on));
    assert!(!write_allowed(false, &other));
    assert!(!write_allowed(false, &Vec::new()));
}

#[test]
fn parse_errors_have_a_null_id() {
    let resp = parse_error("expected value at line 1 column 1");
    assert_eq!(field(&resp, "id"), &Json::Null);
    assert_eq!(field(field(&resp, "error"), "code"), &Json::Int(-32700));
    assert_eq!(
        text(field(field(&resp, "error"), "message")),
        "Parse error: expected value at line 1 column 1"
    );
}

#[test]
fn blank_lines_are_skipped() {
    assert!(is_blank(""));
    assert!(is_blank(" \t\r\u{3000}"));
    assert!(!is_blank(" {} "));
}

#[test]
fn alerts_report_only_rmm_options_and_the_recorded_alerts() {
    let recorded: Vec<String> = (0..25).rev().map(|i| format!("{i} alert")).collect();
    let options = vec![
        ("rmm-cpu-threshold".to_owned(), "90".to_owned()),
        ("custom-rendezvous-server".to_owned(), "example.com".to_owned()),
        ("rmm-recent-alerts".to_owned(), serde_json::to_string(&recorded).unwrap()),
    ];
    let report = alerts_json(&options);
    match field(&report, "config") {
        Json::Object(fields) => {
            assert_eq!(fields.len(), 2);
            assert_eq!(fields[0].0, "rmm-cpu-threshold");
            assert_eq!(fields[1].0, "rmm-recent-alerts");
        }
        other => panic!("config is not an object: {other:?}"),
    }
    match field(&report, "recent_alerts") {
        Json::Array(lines) => {
            assert_eq!(lines.len(), 20);
            assert_eq!(text(&lines[0]), "24 alert");
            assert_eq!(text(&lines[19]), "5 alert");
        }
        other => panic!("recent_alerts is not an array: {other:?}"),
    }
    let none = alerts_json(&vec![("rmm-recent-alerts".to_owned(), "not json".to_owned())]);
    assert_eq!(field(&none, "recent_alerts"), &Json::Array(Vec::new()));
}

#[test]
fn input_lines_are_read_as_requests() {
    assert!(read_request("   ").is_none());
    match read_request(r#"{"jsonrpc": "2.0", "id": 1, "method": "ping"}"#) {
        Some(Ok(req)) => assert_eq!(text(field(&req, "method")), "ping"),
        _ => panic!("a request was expected"),
    }
    match read_request("{oops") {
        Some(Err(resp)) => {
            assert_eq!(field(&resp, "id"), &Json::Null);
            assert_eq!(field(field(&resp, "error"), "code"), &Json::Int(-32700));
            assert!(text(field(field(&resp, "error"), "message")).starts_with("Parse error: "));
        }
        _ => panic!("a parse error was expected"),
    }
}

#[test]
fn responses_are_written_as_compact_json() {
    let resp = complete_tool_call(Json::Int(1), Ok(option_set_text()));
    assert_eq!(
        json_text(&resp),
        r#"{"id":1,"jsonrpc":"2.0","result":{"content":[{"text":"Done!","type":"text"}],"isError":false}}"#
    );
    assert_eq!(option_set_text(), "Done!");
}

#[test]
fn status_and_peers_reports() {
    let status = status_json("123456789", "1.4.0");
    assert_eq!(text(field(&status, "id")), "123456789");
    let peers = peers_json(&vec![Peer {
        id: "42".to_owned(),
        username: "ann".to_owned(),
        hostname: "box".to_owned(),
        platform: "Linux".to_owned(),
    }]);
    match peers {
        Json::Array(items) => {
            assert_eq!(items.len(), 1);
            assert_eq!(text(field(&items[0], "hostname")), "box");
        }
        other => panic!("peers is not an array: {other:?}"),
    }
    assert_eq!(tool_list().len(), 7);
}

#[test]
fn only_write_tool_calls_need_the_gate() {
    assert!(calls_write_tools(&parse(
        r#"{"jsonrpc": "2.0", "id": 1, "method": "tools/call", "params": {"name": "set_option"}}"#
    )));
    assert!(calls_write_tools(&parse(
        r#"{"id": 1, "method": "tools/call", "params": {"name": "run_script"}}"#
    )));
    assert!(!calls_write_tools(&parse(
        r#"{"id": 1, "method": "tools/call", "params": {"name": "get_status"}}"#
    )));
    assert!(!calls_write_tools(&parse(r#"{"method": "tools/call", "params": {"name": "run_script"}}"#)));
    assert!(!calls_write_tools(&parse(r#"{"id": 1, "method": "tools/list"}"#)));
}

#[test]
fn every_listed_tool_has_an_object_schema_and_is_known() {
    for tool in tool_list() {
        let name = text(field(&tool, "name")).to_owned();
        let schema = field(&tool, "inputSchema");
        assert_eq!(text(field(schema, "type")), "object");
        let properties = field(schema, "properties");
        match field(schema, "required") {
            Json::Array(required) => {
                for key in required {
                    assert!(properties.get(text(key)).is_some(), "{name}: {key:?}");
                }
            }
            other => panic!("required is not an array: {other:?}"),
        }
        for write in [false, true] {
            if let Err(e) = call_tool(&name, &parse("{}"), write) {
                assert!(!e.starts_with("Unknown tool: "), "{name}: {e}");
            }
        }
    }
}
