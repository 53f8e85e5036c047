use agentic_core::adapter::StandardAdapter;
use agentic_core::agent::{Agent, LlmClient, MAX_TOOL_ROUNDS};
use agentic_core::errors::{AgentError, LlmFailure};
use agentic_core::json::JsonValue;
use agentic_core::mcp::{HttpPost, MCPRegistry, MCPServerConfig};
use agentic_core::model::{
    CompletionRequest, CompletionResponse, CompletionResponseContent, Message, ToolCallRequest,
};
use agentic_core::registry::{Tool, ToolRegistry};

/// A provider client that replays a fixed script of responses and records
/// every request it was sent.
struct ScriptedClient {
    script: Vec<CompletionResponse>,
    requests: Vec<CompletionRequest>,
}

impl ScriptedClient {
    fn new(script: Vec<CompletionResponse>) -> ScriptedClient {
        ScriptedClient { script, requests: Vec::new() }
    }

    fn calls(&self) -> usize {
        self.requests.len()
    }
}

fn copy_messages(messages: &Vec<Message>) -> Vec<Message> {
    messages.iter().map(|m| m.duplicate()).collect()
}

impl LlmClient for ScriptedClient {
    fn complete(&mut self, request: &CompletionRequest) -> Result<CompletionResponse, LlmFailure> {
        if self.script.is_empty() {
            return Err(LlmFailure::Transport("script exhausted".to_string()));
        }
        self.requests.push(CompletionRequest {
            model: request.model.clone(),
            system: request.system.clone(),
            messages: copy_messages(&request.messages),
            temperature_milli: request.temperature_milli,
            max_tokens: request.max_tokens,
            stream: request.stream,
            definitions: Vec::new(),
        });
        Ok(self.script.remove(0))
    }
}

/// A local tool that reports fixed weather.
struct WeatherTool;

impl Tool for WeatherTool {
    fn name(&self) -> String {
        "get_weather".to_string()
    }

    fn description(&self) -> String {
        "the weather for a city".to_string()
    }

    fn parameters(&self) -> JsonValue {
        JsonValue::Obj(vec![])
    }

    fn execute(&self, _arguments: &JsonValue) -> Result<JsonValue, String> {
        Ok(JsonValue::Str("sunny".to_string()))
    }
}

/// A local tool that always fails.
struct BrokenTool;

impl Tool for BrokenTool {
    fn name(&self) -> String {
        "broken".to_string()
    }

    fn description(&self) -> String {
        "always fails".to_string()
    }

    fn parameters(&self) -> JsonValue {
        JsonValue::Null
    }

    fn execute(&self, _arguments: &JsonValue) -> Result<JsonValue, String> {
        Err("boom".to_string())
    }
}

/// A transport that never answers; the loop must never reach it when a
/// local tool owns the name.
struct DeadTransport {
    calls: usize,
}

impl HttpPost for DeadTransport {
    fn post_json(
        &mut self,
        _url: &String,
        _api_key: &String,
        _body: &JsonValue,
    ) -> Result<String, String> {
        self.calls += 1;
        Err("no network".to_string())
    }
}

fn text_response(id: &str, text: &str) -> CompletionResponse {
    CompletionResponse {
        response_id: id.to_string(),
        contents: vec![CompletionResponseContent::Text(text.to_string())],
    }
}

fn tool_call_response(call_id: &str, name: &str) -> CompletionResponse {
    CompletionResponse {
        response_id: String::new(),
        contents: vec![CompletionResponseContent::ToolCall(ToolCallRequest {
            name: name.to_string(),
            id: call_id.to_string(),
            arguments: JsonValue::Obj(vec![(
                "city".to_string(),
                JsonValue::Str("Paris".to_string()),
            )]),
        })],
    }
}

fn weather_agent(
    script: Vec<CompletionResponse>,
) -> Agent<ScriptedClient, WeatherTool, DeadTransport, StandardAdapter> {
    let mut tool_registry = ToolRegistry::new();
    tool_registry.register_tool(WeatherTool);
    Agent::new(
        "test-model".to_string(),
        Some("be helpful".to_string()),
        500,
        5000,
        ScriptedClient::new(script),
        tool_registry,
        MCPRegistry::new(),
    )
}

fn user_messages() -> Vec<Message> {
    vec![Message::User {
        content: "what is the weather in Paris?".to_string(),
        response_id: None,
    }]
}

#[test]
fn first_answer_without_tool_calls_is_returned_after_one_request() {
    let mut agent = weather_agent(vec![text_response("r1", "hello")]);
    let response = agent.complete_with_tools(&user_messages()).unwrap();
    assert_eq!(agent.client.calls(), 1);
    assert_eq!(response.response_id, "r1");
    assert!(matches!(&response.contents[0], CompletionResponseContent::Text(t) if t == "hello"));
}

#[test]
fn weather_scenario_invokes_local_tool_and_returns_text_on_round_two() {
    let mut agent = weather_agent(vec![
        tool_call_response("c1", "get_weather"),
        text_response("r2", "21 degrees"),
    ]);
    let response = agent.complete_with_tools(&user_messages()).unwrap();
    assert_eq!(agent.client.calls(), 2);
    assert!(matches!(
        &response.contents[0],
        CompletionResponseContent::Text(t) if t == "21 degrees"
    ));

    // The second request must carry the echoed tool call and its output.
    let second = &agent.client.requests[1];
    assert_eq!(second.messages.len(), 3);
    match &second.messages[1] {
        Message::ToolCall { arguments, call_id, name } => {
            assert_eq!(call_id, "c1");
            assert_eq!(name, "get_weather");
            assert_eq!(arguments, "{\"city\":\"Paris\"}");
        }
        other => panic!("expected a tool call message, got {:?}", message_kind(other)),
    }
    match &second.messages[2] {
        Message::ToolOutput { call_id, output, name } => {
            assert_eq!(call_id, "c1");
            assert_eq!(name, "get_weather");
            assert!(matches!(output, JsonValue::Str(s) if s == "sunny"));
        }
        other => panic!("expected a tool output message, got {:?}", message_kind(other)),
    }
}

fn message_kind(m: &Message) -> &'static str {
    match m {
        Message::User { .. } => "user",
        Message::Assistant { .. } => "assistant",
        Message::Thought { .. } => "thought",
        Message::ToolCall { .. } => "tool call",
        Message::ToolOutput { .. } => "tool output",
    }
}

#[test]
fn tool_output_echoes_call_id_and_name_for_every_round() {
    let mut agent = weather_agent(vec![
        tool_call_response("c1", "get_weather"),
        tool_call_response("c2", "get_weather"),
        text_response("r3", "done"),
    ]);
    agent.complete_with_tools(&user_messages()).unwrap();
    for request in &agent.client.requests {
        let messages = &request.messages;
        for j in 0..messages.len() {
            if let Message::ToolOutput { call_id, name, .. } = &messages[j] {
                match &messages[j - 1] {
                    Message::ToolCall { call_id: prev_id, name: prev_name, .. } => {
                        assert_eq!(call_id, prev_id);
                        assert_eq!(name, prev_name);
                    }
                    _ => panic!("a tool output must follow its tool call"),
                }
            }
        }
    }
}

#[test]
fn six_tool_rounds_with_bound_five_end_in_loop_bound_error() {
    let script: Vec<CompletionResponse> =
        (0..6).map(|i| tool_call_response(&format!("c{}", i), "get_weather")).collect();
    let mut agent = weather_agent(script);
    let outcome = agent.complete_with_tools(&user_messages());
    assert!(matches!(outcome, Err(AgentError::LoopBoundExceeded)));
    assert_eq!(MAX_TOOL_ROUNDS, 5);
    assert_eq!(agent.client.calls(), 5);
}

/// A local tool registered under a qualified-looking name.
struct ShadowTool;

impl Tool for ShadowTool {
    fn name(&self) -> String {
        "Alpha___OVERVIEW".to_string()
    }

    fn description(&self) -> String {
        "local shadow".to_string()
    }

    fn parameters(&self) -> JsonValue {
        JsonValue::Null
    }

    fn execute(&self, _arguments: &JsonValue) -> Result<JsonValue, String> {
        Ok(JsonValue::Str("local".to_string()))
    }
}

#[test]
fn local_tool_shadows_remote_tool_with_the_same_name() {
    let mut tool_registry = ToolRegistry::new();
    tool_registry.register_tool(ShadowTool);
    let mut mcp_registry: MCPRegistry<DeadTransport, StandardAdapter> = MCPRegistry::new();
    // Register the server entry directly so that the remote side would be
    // reachable if the agent delegated the name.
    mcp_registry.clients.push(agentic_core::mcp::MCPClient::new(
        MCPServerConfig {
            name: "Alpha".to_string(),
            url: "http://alpha.test".to_string(),
            api_key: "test-key".to_string(),
        },
        StandardAdapter {},
        DeadTransport { calls: 0 },
    ));
    let mut agent = Agent::new(
        "test-model".to_string(),
        None,
        500,
        5000,
        ScriptedClient::new(vec![
            tool_call_response("c1", "Alpha___OVERVIEW"),
            text_response("r2", "done"),
        ]),
        tool_registry,
        mcp_registry,
    );
    let response = agent.complete_with_tools(&user_messages()).unwrap();
    assert!(matches!(&response.contents[0], CompletionResponseContent::Text(t) if t == "done"));
    // The transport was never touched: the local tool won.
    assert_eq!(agent.mcp_registry.clients[0].transport.calls, 0);
    let second = &agent.client.requests[1];
    match &second.messages[2] {
        Message::ToolOutput { output, .. } => {
            assert!(matches!(output, JsonValue::Str(s) if s == "local"));
        }
        _ => panic!("expected a tool output message"),
    }
}

#[test]
fn unknown_tool_name_aborts_the_exchange() {
    let mut agent = weather_agent(vec![tool_call_response("c1", "nonexistent")]);
    let outcome = agent.complete_with_tools(&user_messages());
    assert!(matches!(outcome, Err(AgentError::UnknownTool(_))));
}

#[test]
fn failing_tool_aborts_the_exchange() {
    let mut tool_registry = ToolRegistry::new();
    tool_registry.register_tool(BrokenTool);
    let mut agent: Agent<ScriptedClient, BrokenTool, DeadTransport, StandardAdapter> = Agent::new(
        "test-model".to_string(),
        None,
        500,
        5000,
        ScriptedClient::new(vec![
            tool_call_response("c1", "broken"),
            text_response("r2", "never reached"),
        ]),
        tool_registry,
        MCPRegistry::new(),
    );
    let outcome = agent.complete_with_tools(&user_messages());
    assert!(matches!(outcome, Err(AgentError::ToolExecution(m)) if m == "boom"));
}

#[test]
fn thoughts_are_kept_and_plain_text_is_dropped_between_rounds() {
    let first = CompletionResponse {
        response_id: String::new(),
        contents: vec![
            CompletionResponseContent::Thought("considering".to_string()),
            CompletionResponseContent::Text("chatter".to_string()),
            CompletionResponseContent::ToolCall(ToolCallRequest {
                name: "get_weather".to_string(),
                id: "c1".to_string(),
                arguments: JsonValue::Null,
            }),
        ],
    };
    let mut agent = weather_agent(vec![first, text_response("r2", "done")]);
    agent.complete_with_tools(&user_messages()).unwrap();
    let second = &agent.client.requests[1];
    assert_eq!(second.messages.len(), 4);
    assert!(matches!(&second.messages[1], Message::Thought { content } if content == "considering"));
    assert!(second.messages.iter().all(|m| match m {
        Message::Assistant { content, .. } => content != "chatter",
        _ => true,
    }));
}

#[test]
fn plain_complete_sends_one_request_without_definitions() {
    let mut agent = weather_agent(vec![text_response("r1", "hi")]);
    let response = agent.complete(&user_messages()).unwrap();
    assert_eq!(response.response_id, "r1");
    assert_eq!(agent.client.calls(), 1);
}

#[test]
fn client_failure_propagates_unchanged() {
    let mut agent = weather_agent(vec![]);
    let outcome = agent.complete_with_tools(&user_messages());
    assert!(matches!(outcome, Err(AgentError::Transport(m)) if m == "script exhausted"));
}

#[test]
fn max_tokens_and_temperature_accessors_report_the_policy() {
    let agent = weather_agent(vec![]);
    assert_eq!(agent.max_tokens(), 5000);
    assert_eq!(agent.temperature_milli(), 500);
}

#[test]
fn the_configured_policy_reaches_every_request() {
    let mut tool_registry = ToolRegistry::new();
    tool_registry.register_tool(WeatherTool);
    let mut agent: Agent<ScriptedClient, WeatherTool, DeadTransport, StandardAdapter> = Agent::new(
        "test-model".to_string(),
        Some("be helpful".to_string()),
        700,
        9000,
        ScriptedClient::new(vec![
            tool_call_response("c1", "get_weather"),
            text_response("r2", "done"),
        ]),
        tool_registry,
        MCPRegistry::new(),
    );
    agent.complete_with_tools(&user_messages()).unwrap();
    for request in &agent.client.requests {
        assert_eq!(request.temperature_milli, 700);
        assert_eq!(request.max_tokens, 9000);
    }
    assert_eq!(agent.client.requests.len(), 2);
}

#[test]
fn error_labels_name_each_variant() {
    assert_eq!(AgentError::LoopBoundExceeded.label(), "loop bound exceeded");
    assert_eq!(AgentError::Transport(String::new()).label(), "transport error");
    assert_eq!(AgentError::Decode(String::new()).label(), "decode error");
    assert_eq!(AgentError::UnknownTool(String::new()).label(), "unknown tool");
    assert_eq!(AgentError::ToolExecution(String::new()).label(), "tool execution error");
}

/// Two tools under one name; the second must win.
struct NamedTool {
    description: &'static str,
}

impl Tool for NamedTool {
    fn name(&self) -> String {
        "same".to_string()
    }

    fn description(&self) -> String {
        self.description.to_string()
    }

    fn parameters(&self) -> JsonValue {
        JsonValue::Null
    }

    fn execute(&self, _arguments: &JsonValue) -> Result<JsonValue, String> {
        Ok(JsonValue::Null)
    }
}

#[test]
fn registry_lookup_prefers_the_last_registration_under_a_name() {
    let mut registry = ToolRegistry::new();
    registry.register_tool(NamedTool { description: "first" });
    registry.register_tool(NamedTool { description: "second" });
    assert_eq!(registry.get_tools().len(), 1);
    assert_eq!(registry.get_tool("same").unwrap().description, "second");
    assert!(registry.get_tool("other").is_none());
    let definitions = registry.definitions();
    assert_eq!(definitions.len(), 1);
    assert_eq!(definitions[0].name, "same");
    assert_eq!(definitions[0].description, "second");
    assert_eq!(definitions[0].kind, "function");
}

#[test]
fn unused_mcp_config_type_is_constructible() {
    let config = MCPServerConfig {
        name: "Alpha".to_string(),
        url: "http://alpha.test".to_string(),
        api_key: "test-key".to_string(),
    };
    assert_eq!(config.name, "Alpha");
}
