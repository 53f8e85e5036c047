use agentic_core::adapter::{LiteralAdapter, ServerAdapter, StandardAdapter};
use agentic_core::codec::{parse_json, print_json};
use agentic_core::errors::AgentError;
use agentic_core::json::JsonValue;
use agentic_core::mcp::{HttpPost, MCPRegistry, MCPServerConfig};
use agentic_core::rpc::{reply_payload_text, JsonRpcRequest};

/// A transport that replays scripted reply texts and records every posted
/// body as JSON text.
struct ReplayTransport {
    replies: Vec<String>,
    bodies: Vec<String>,
    urls: Vec<String>,
}

impl ReplayTransport {
    fn new(replies: Vec<String>) -> ReplayTransport {
        ReplayTransport { replies, bodies: Vec::new(), urls: Vec::new() }
    }
}

impl HttpPost for ReplayTransport {
    fn post_json(
        &mut self,
        url: &String,
        _api_key: &String,
        body: &JsonValue,
    ) -> Result<String, String> {
        if self.replies.is_empty() {
            return Err("no reply scripted".to_string());
        }
        self.urls.push(url.clone());
        self.bodies.push(print_json(body));
        Ok(self.replies.remove(0))
    }
}

/// Wraps payload text into a JSON-RPC reply envelope; the payload is passed
/// as already-escaped JSON string content.
fn envelope(payload: &str) -> String {
    let quoted = serde_json::to_string(payload).unwrap();
    format!(
        "{{\"jsonrpc\":\"2.0\",\"id\":1,\"result\":{{\"content\":[{{\"type\":\"text\",\"text\":{}}}]}}}}",
        quoted
    )
}

fn alpha_config() -> MCPServerConfig {
    MCPServerConfig {
        name: "Alpha".to_string(),
        url: "http://alpha.test/mcp".to_string(),
        api_key: "test-key".to_string(),
    }
}

#[test]
fn register_server_returns_the_coarse_directory() {
    let transport = ReplayTransport::new(vec![envelope(
        "[{\"name\":\"OVERVIEW\",\"description\":\"company overview\"}]",
    )]);
    let mut registry: MCPRegistry<ReplayTransport, StandardAdapter> = MCPRegistry::new();
    let directory = registry.register_server(alpha_config(), transport).unwrap();
    assert_eq!(directory.len(), 1);
    assert_eq!(directory[0].name, "OVERVIEW");
    assert_eq!(directory[0].description, "company overview");
    // The directory is not cached: nothing is callable yet.
    assert!(registry.definitions.is_empty());
}

#[test]
fn register_tool_caches_the_definition_under_the_qualified_name() {
    let transport = ReplayTransport::new(vec![
        envelope("[{\"name\":\"OVERVIEW\",\"description\":\"company overview\"}]"),
        envelope(
            "{\"name\":\"OVERVIEW\",\"description\":\"company overview\",\"parameters\":{\"type\":\"object\"}}",
        ),
    ]);
    let mut registry: MCPRegistry<ReplayTransport, StandardAdapter> = MCPRegistry::new();
    registry.register_server(alpha_config(), transport).unwrap();
    let definition = registry.register_tool("Alpha", "OVERVIEW").unwrap();
    assert_eq!(definition.name, "Alpha___OVERVIEW");
    assert_eq!(definition.kind, "function");
    assert_eq!(registry.definitions.len(), 1);
    assert_eq!(registry.definitions[0].name, "Alpha___OVERVIEW");
}

#[test]
fn register_tool_for_an_unknown_server_is_an_unknown_tool_error() {
    let mut registry: MCPRegistry<ReplayTransport, StandardAdapter> = MCPRegistry::new();
    let outcome = registry.register_tool("Alpha", "OVERVIEW");
    assert!(matches!(outcome, Err(AgentError::UnknownTool(_))));
}

#[test]
fn call_tool_reaches_the_server_with_the_split_tool_name() {
    // The standard adapter's tool-call payload is a JSON string holding the
    // result's JSON text.
    let result_payload = "\"{\\\"price\\\": 10}\"";
    let transport = ReplayTransport::new(vec![
        envelope("[{\"name\":\"OVERVIEW\",\"description\":\"company overview\"}]"),
        envelope(result_payload),
    ]);
    let mut registry: MCPRegistry<ReplayTransport, StandardAdapter> = MCPRegistry::new();
    registry.register_server(alpha_config(), transport).unwrap();
    let arguments =
        JsonValue::Obj(vec![("symbol".to_string(), JsonValue::Str("AAPL".to_string()))]);
    let value = registry.call_tool("Alpha___OVERVIEW", arguments).unwrap();
    match &value {
        JsonValue::Obj(members) => {
            assert_eq!(members[0].0, "price");
            assert!(matches!(members[0].1, JsonValue::Int(10)));
        }
        _ => panic!("expected an object result"),
    }
    // The body the server saw names the bare tool, not the qualified name.
    let body: serde_json::Value =
        serde_json::from_str(&registry.clients[0].transport.bodies[1]).unwrap();
    assert_eq!(body["params"]["tool_name"], "OVERVIEW");
    assert_eq!(body["jsonrpc"], "2.0");
    assert_eq!(registry.clients[0].transport.urls[1], "http://alpha.test/mcp");
}

#[test]
fn call_tool_without_separator_is_an_unknown_tool_error() {
    let mut registry: MCPRegistry<ReplayTransport, StandardAdapter> = MCPRegistry::new();
    let outcome = registry.call_tool("nounderscore", JsonValue::Null);
    assert!(matches!(outcome, Err(AgentError::UnknownTool(_))));
}

#[test]
fn call_tool_on_an_unregistered_server_is_an_unknown_tool_error() {
    let mut registry: MCPRegistry<ReplayTransport, StandardAdapter> = MCPRegistry::new();
    let outcome = registry.call_tool("Beta___tool", JsonValue::Null);
    assert!(matches!(outcome, Err(AgentError::UnknownTool(_))));
}

#[test]
fn transport_failure_surfaces_as_a_transport_error() {
    let transport = ReplayTransport::new(vec![]);
    let mut registry: MCPRegistry<ReplayTransport, StandardAdapter> = MCPRegistry::new();
    let outcome = registry.register_server(alpha_config(), transport);
    assert!(matches!(outcome, Err(AgentError::Transport(m)) if m == "no reply scripted"));
}

#[test]
fn malformed_reply_envelope_is_a_decode_error() {
    let transport = ReplayTransport::new(vec!["{\"jsonrpc\":\"2.0\",\"id\":1}".to_string()]);
    let mut registry: MCPRegistry<ReplayTransport, StandardAdapter> = MCPRegistry::new();
    let outcome = registry.register_server(alpha_config(), transport);
    assert!(matches!(outcome, Err(AgentError::Decode(_))));
}

#[test]
fn reply_payload_text_extracts_the_content_text() {
    let raw = envelope("hello payload");
    assert_eq!(reply_payload_text(&raw).unwrap(), "hello payload");
    assert!(matches!(reply_payload_text("not json"), Err(AgentError::Decode(_))));
    assert!(matches!(
        reply_payload_text("{\"jsonrpc\":\"2.0\",\"id\":1,\"result\":{\"content\":[]}}"),
        Err(AgentError::Decode(_))
    ));
}

#[test]
fn standard_adapter_builds_the_documented_requests() {
    let adapter = StandardAdapter {};
    let list = adapter.build_tool_list_request();
    assert_eq!(list.jsonrpc, "2.0");
    assert_eq!(list.method, "tools/list");
    let get = adapter.build_tool_get_request("OVERVIEW");
    assert_eq!(get.method, "tools/get");
    let body = print_json(&get.into_json());
    let parsed: serde_json::Value = serde_json::from_str(&body).unwrap();
    assert_eq!(parsed["params"]["tool_name"], "OVERVIEW");
    assert_eq!(parsed["id"], 1);
}

#[test]
fn standard_adapter_call_payload_must_be_a_json_string() {
    let adapter = StandardAdapter {};
    let decoded = adapter.parse_tool_call_response("\"{\\\"x\\\":1}\"".to_string()).unwrap();
    assert_eq!(decoded, "{\"x\":1}");
    assert!(matches!(
        adapter.parse_tool_call_response("{\"x\":1}".to_string()),
        Err(AgentError::Decode(_))
    ));
}

#[test]
fn literal_adapter_builds_the_multiplexed_requests() {
    let adapter = LiteralAdapter {};
    let list = adapter.build_tool_list_request();
    assert_eq!(list.method, "tools/call");
    let body = print_json(&list.into_json());
    let parsed: serde_json::Value = serde_json::from_str(&body).unwrap();
    assert_eq!(parsed["params"]["name"], "TOOL_LIST");
    let call = adapter.build_tool_call_request(
        "OVERVIEW",
        JsonValue::Obj(vec![("symbol".to_string(), JsonValue::Str("AAPL".to_string()))]),
    );
    let call_body = print_json(&call.into_json());
    let call_parsed: serde_json::Value = serde_json::from_str(&call_body).unwrap();
    assert_eq!(call_parsed["method"], "tools/call");
    assert_eq!(call_parsed["params"]["name"], "TOOL_CALL");
    assert_eq!(call_parsed["params"]["arguments"]["tool_name"], "OVERVIEW");
    assert_eq!(call_parsed["params"]["arguments"]["arguments"]["symbol"], "AAPL");
}

#[test]
fn literal_adapter_decodes_dictionary_literals_into_json_text() {
    let adapter = LiteralAdapter {};
    let decoded = adapter
        .parse_tool_list_response("[{'name': 'OVERVIEW', 'description': 'd'}]".to_string())
        .unwrap();
    let parsed: serde_json::Value = serde_json::from_str(&decoded).unwrap();
    assert_eq!(parsed[0]["name"], "OVERVIEW");
    assert_eq!(parsed[0]["description"], "d");
}

#[test]
fn literal_adapter_strips_newlines_from_call_payloads() {
    let adapter = LiteralAdapter {};
    let decoded =
        adapter.parse_tool_call_response("{'price':\n 10,\n 'up': True}".to_string()).unwrap();
    let parsed: serde_json::Value = serde_json::from_str(&decoded).unwrap();
    assert_eq!(parsed["price"], 10);
    assert_eq!(parsed["up"], true);
}

#[test]
fn literal_adapter_rejects_malformed_literals() {
    let adapter = LiteralAdapter {};
    assert!(matches!(
        adapter.parse_tool_get_response("{'open".to_string()),
        Err(AgentError::Decode(_))
    ));
}

#[test]
fn mcp_round_trip_through_the_literal_adapter() {
    let transport = ReplayTransport::new(vec![
        envelope("[{'name': 'OVERVIEW', 'description': 'company overview'}]"),
        envelope("{'name': 'OVERVIEW', 'description': 'company overview', 'parameters': {}}"),
        envelope("{'Symbol': 'AAPL', 'PERatio': 30}"),
    ]);
    let mut registry: MCPRegistry<ReplayTransport, LiteralAdapter> = MCPRegistry::new();
    registry
        .register_server_with_adapter(alpha_config(), LiteralAdapter {}, transport)
        .unwrap();
    let definition = registry.register_tool("Alpha", "OVERVIEW").unwrap();
    assert_eq!(definition.name, "Alpha___OVERVIEW");
    let value = registry.call_tool("Alpha___OVERVIEW", JsonValue::Null).unwrap();
    let text = print_json(&value);
    let parsed: serde_json::Value = serde_json::from_str(&text).unwrap();
    assert_eq!(parsed["Symbol"], "AAPL");
    assert_eq!(parsed["PERatio"], 30);
}

#[test]
fn json_rpc_request_constructors_fill_the_envelope() {
    let request = JsonRpcRequest::new(
        "2.0".to_string(),
        "tools/list".to_string(),
        JsonValue::Int(7),
        None,
    );
    assert_eq!(request.jsonrpc, "2.0");
    assert!(matches!(request.id, JsonValue::Int(7)));
    let defaulted = JsonRpcRequest::default("tools/get".to_string(), None);
    assert_eq!(defaulted.jsonrpc, "2.0");
    assert!(matches!(defaulted.id, JsonValue::Int(1)));
    // An absent params serializes as null.
    let text = print_json(&defaulted.into_json());
    let parsed: serde_json::Value = serde_json::from_str(&text).unwrap();
    assert!(parsed["params"].is_null());
}

#[test]
fn parse_and_print_round_json_values() {
    let value = parse_json("{\"a\":[1,true,null,\"x\"],\"b\":1.5}").unwrap();
    let text = print_json(&value);
    let reparsed: serde_json::Value = serde_json::from_str(&text).unwrap();
    assert_eq!(reparsed["a"][0], 1);
    assert_eq!(reparsed["a"][1], true);
    assert!(reparsed["a"][2].is_null());
    assert_eq!(reparsed["a"][3], "x");
    assert_eq!(reparsed["b"], 1.5);
    assert!(parse_json("not json").is_none());
}
