use agentic_core::chat::{ChatMessage, ChatResponseChunk, MessageRole};
use agentic_core::json::JsonValue;
use agentic_core::model::{
    CompletionChunkResponse, CompletionRequest, CompletionResponse, CompletionResponseContent,
    Message, ToolDefinition,
};
use agentic_core::providers::anthropic;
use agentic_core::providers::gemini;
use agentic_core::providers::openai;
use std::str::FromStr;

fn sample_request(messages: Vec<Message>) -> CompletionRequest {
    CompletionRequest {
        model: "test-model".to_string(),
        system: Some("be helpful".to_string()),
        messages,
        temperature_milli: 500,
        max_tokens: 5000,
        stream: false,
        definitions: vec![ToolDefinition::default_for_mcp(
            "function",
            "get_weather",
            "the weather",
            JsonValue::Obj(vec![]),
        )],
    }
}

fn sample_history() -> Vec<Message> {
    vec![
        Message::User { content: "hi".to_string(), response_id: None },
        Message::Assistant { content: "hello".to_string(), response_id: Some("r7".to_string()) },
        Message::Thought { content: "hmm".to_string() },
        Message::ToolCall {
            arguments: "{\"city\":\"Paris\"}".to_string(),
            call_id: "c1".to_string(),
            name: "get_weather".to_string(),
        },
        Message::ToolOutput {
            call_id: "c1".to_string(),
            output: JsonValue::Str("sunny".to_string()),
            name: "get_weather".to_string(),
        },
    ]
}

#[test]
fn message_role_spellings() {
    assert_eq!(MessageRole::user(), "user");
    assert_eq!(MessageRole::assistant(), "assistant");
    assert_eq!(MessageRole::system(), "system");
    assert_eq!(MessageRole::User.as_str(), "user");
    assert_eq!(MessageRole::Assistant.as_str(), "assistant");
    assert_eq!(MessageRole::System.as_str(), "system");
    assert!(matches!(MessageRole::from_str("assistant"), Ok(MessageRole::Assistant)));
    assert!(MessageRole::from_str("robot").is_err());
}

#[test]
fn chat_message_constructors_tag_the_role() {
    let user = ChatMessage::create_user_message("hi", None);
    assert!(matches!(user.role, MessageRole::User));
    assert_eq!(user.content, "hi");
    let system = ChatMessage::create_system_message("rules", None);
    assert!(matches!(system.role, MessageRole::System));
    let assistant = ChatMessage::create_assistant_message("sure", Some("r1".to_string()));
    assert!(matches!(assistant.role, MessageRole::Assistant));
    assert_eq!(assistant.response_id.as_deref(), Some("r1"));
}

#[test]
fn chat_chunk_constructors() {
    let empty = ChatResponseChunk::default();
    assert!(!empty.is_final && empty.content.is_empty());
    let stop = ChatResponseChunk::stop();
    assert!(stop.is_final);
    let chunk = ChatResponseChunk::content("text".to_string(), "thinking".to_string());
    assert_eq!(chunk.content, "text");
    assert_eq!(chunk.thinking, "thinking");
    assert!(!chunk.is_final);
}

#[test]
fn completion_chunk_constructors() {
    let empty = CompletionChunkResponse::default();
    assert!(!empty.is_final && empty.response_id.is_empty());
    let stop = CompletionChunkResponse::stop("r9".to_string());
    assert!(stop.is_final);
    assert_eq!(stop.response_id, "r9");
    let chunk = CompletionChunkResponse::content("text".to_string(), String::new());
    assert_eq!(chunk.content, "text");
    assert!(!chunk.is_final);
}

#[test]
fn anthropic_request_batches_tool_traffic_at_the_tail() {
    let request = sample_request(sample_history());
    let wire = anthropic::AnthropicCompletionRequest::new(request).unwrap();
    assert_eq!(wire.model, "test-model");
    assert_eq!(wire.max_tokens, 5000);
    assert_eq!(wire.system.as_deref(), Some("be helpful"));
    assert_eq!(wire.tools.len(), 1);
    assert_eq!(wire.tools[0].name, "get_weather");
    // Two plain turns, then one tool-use batch, then one tool-result batch.
    assert_eq!(wire.messages.len(), 4);
    match &wire.messages[2] {
        anthropic::AnthropicCompletionRequestMessage::ToolUse { role, content } => {
            assert_eq!(role, "assistant");
            assert_eq!(content.len(), 1);
            assert_eq!(content[0].id, "c1");
            assert_eq!(content[0].name, "get_weather");
        }
        _ => panic!("expected the tool-use batch"),
    }
    match &wire.messages[3] {
        anthropic::AnthropicCompletionRequestMessage::ToolResult { role, content } => {
            assert_eq!(role, "user");
            assert_eq!(content[0].tool_use_id, "c1");
            assert_eq!(content[0].content, "\"sunny\"");
        }
        _ => panic!("expected the tool-result batch"),
    }
}

#[test]
fn anthropic_request_rejects_non_json_tool_arguments() {
    let request = sample_request(vec![Message::ToolCall {
        arguments: "not json".to_string(),
        call_id: "c1".to_string(),
        name: "t".to_string(),
    }]);
    assert!(anthropic::AnthropicCompletionRequest::new(request).is_err());
}

#[test]
fn anthropic_response_translates_blocks_in_order() {
    let reply = anthropic::AnthropicCompletionResponse {
        id: "a7".to_string(),
        model: "m".to_string(),
        role: "assistant".to_string(),
        content: vec![
            anthropic::AnthropicCompletionResponseContent::Text { text: "hi".to_string() },
            anthropic::AnthropicCompletionResponseContent::ToolUse {
                id: "c1".to_string(),
                input: JsonValue::Null,
                name: "t".to_string(),
            },
        ],
    };
    let response = anthropic::response_to_completion(reply);
    assert_eq!(response.response_id, "a7");
    assert_eq!(response.contents.len(), 2);
    assert!(matches!(&response.contents[0], CompletionResponseContent::Text(t) if t == "hi"));
    assert!(matches!(
        &response.contents[1],
        CompletionResponseContent::ToolCall(tc) if tc.id == "c1" && tc.name == "t"
    ));
}

#[test]
fn anthropic_chunks_translate_by_event_kind() {
    let delta = anthropic::AnthropicChunkResponse {
        kind: "content_block_delta".to_string(),
        index: Some(0),
        delta: Some(anthropic::AnthropicChunkResponseDelta {
            kind: None,
            text: Some("piece".to_string()),
            thinking: None,
        }),
    };
    let chunk = anthropic::chunk_to_completion(delta);
    assert_eq!(chunk.content, "piece");
    assert!(!chunk.is_final);
    let stop = anthropic::AnthropicChunkResponse {
        kind: "message_stop".to_string(),
        index: None,
        delta: None,
    };
    assert!(anthropic::chunk_to_completion(stop).is_final);
    let other = anthropic::AnthropicChunkResponse {
        kind: "ping".to_string(),
        index: None,
        delta: None,
    };
    let quiet = anthropic::chunk_to_completion(other);
    assert!(!quiet.is_final && quiet.content.is_empty());
}

#[test]
fn openai_request_keeps_every_non_thought_message_in_order() {
    let request = sample_request(sample_history());
    let wire = openai::OpenAICompletionRequest::new(request).unwrap();
    assert_eq!(wire.model, "test-model");
    assert_eq!(wire.instructions, "be helpful");
    assert!(wire.store);
    assert_eq!(wire.max_output_tokens, 5000);
    assert_eq!(wire.reasoning.effort, "low");
    assert_eq!(wire.previous_response_id.as_deref(), Some("r7"));
    assert_eq!(wire.input.len(), 4);
    match &wire.input[2] {
        openai::OpenAICompletionRequestMessage::FunctionCall { kind, arguments, call_id, name } => {
            assert_eq!(kind, "function_call");
            assert_eq!(arguments, "{\"city\":\"Paris\"}");
            assert_eq!(call_id, "c1");
            assert_eq!(name, "get_weather");
        }
        _ => panic!("expected the echoed function call"),
    }
    match &wire.input[3] {
        openai::OpenAICompletionRequestMessage::FunctionCallOutput { kind, call_id, output } => {
            assert_eq!(kind, "function_call_output");
            assert_eq!(call_id, "c1");
            assert_eq!(output, "\"sunny\"");
        }
        _ => panic!("expected the function call output"),
    }
}

#[test]
fn openai_response_translates_completed_items() {
    let reply = openai::OpenAICompletionResponse {
        id: "resp1".to_string(),
        output: vec![
            openai::OpenAICompletionResponseOutput::Reasoning {
                id: "rs".to_string(),
                summary: vec![],
            },
            openai::OpenAICompletionResponseOutput::Message {
                id: "m1".to_string(),
                status: "completed".to_string(),
                content: vec![
                    openai::OpenAICompletionResponseContent {
                        kind: "refusal".to_string(),
                        text: "no".to_string(),
                    },
                    openai::OpenAICompletionResponseContent {
                        kind: "output_text".to_string(),
                        text: "the answer".to_string(),
                    },
                ],
            },
            openai::OpenAICompletionResponseOutput::FunctionCall {
                status: "completed".to_string(),
                arguments: "{\"q\":1}".to_string(),
                call_id: "c9".to_string(),
                name: "lookup".to_string(),
            },
        ],
    };
    let response = openai::response_to_completion(reply).unwrap();
    assert_eq!(response.response_id, "resp1");
    assert_eq!(response.contents.len(), 2);
    assert!(matches!(
        &response.contents[0],
        CompletionResponseContent::Text(t) if t == "the answer"
    ));
    assert!(matches!(
        &response.contents[1],
        CompletionResponseContent::ToolCall(tc) if tc.id == "c9" && tc.name == "lookup"
    ));
}

#[test]
fn openai_response_rejects_non_json_function_arguments() {
    let reply = openai::OpenAICompletionResponse {
        id: "resp1".to_string(),
        output: vec![openai::OpenAICompletionResponseOutput::FunctionCall {
            status: "completed".to_string(),
            arguments: "not json".to_string(),
            call_id: "c9".to_string(),
            name: "lookup".to_string(),
        }],
    };
    assert!(openai::response_to_completion(reply).is_err());
}

#[test]
fn openai_chunks_translate_by_event_name() {
    let data = openai::OpenAIChunkResponseData {
        kind: "d".to_string(),
        response: None,
        delta: Some("piece".to_string()),
    };
    let chunk = openai::chunk_to_completion("response.output_text.delta".to_string(), data);
    assert_eq!(chunk.content, "piece");
    assert!(!chunk.is_final);
    let done = openai::OpenAIChunkResponseData {
        kind: "d".to_string(),
        response: Some(openai::OpenAIChunkResponseDataResponse { id: "resp1".to_string() }),
        delta: None,
    };
    let stop = openai::chunk_to_completion("response.completed".to_string(), done);
    assert!(stop.is_final);
    assert_eq!(stop.response_id, "resp1");
}

#[test]
fn gemini_request_takes_the_last_user_turn_and_batches_tool_traffic() {
    let request = sample_request(sample_history());
    let wire = gemini::GeminiInteractionsRequest::new(request).unwrap();
    assert_eq!(wire.model, gemini::MODEL_GEMINI_3_FLASH_PREVIEW);
    assert_eq!(wire.system_instruction, "be helpful");
    assert_eq!(wire.previous_interaction_id.as_deref(), Some("r7"));
    assert_eq!(wire.input.len(), 3);
    match &wire.input[0] {
        gemini::GeminiCompletionRequestInput::Content { role, content } => {
            assert_eq!(role, "user");
            assert_eq!(content, "hi");
        }
        _ => panic!("expected the leading user content"),
    }
    match &wire.input[1] {
        gemini::GeminiCompletionRequestInput::FunctionCall { role, content } => {
            assert_eq!(role, "model");
            assert_eq!(content[0].id, "c1");
        }
        _ => panic!("expected the function-call batch"),
    }
    match &wire.input[2] {
        gemini::GeminiCompletionRequestInput::FunctionCallResult { role, content } => {
            assert_eq!(role, "user");
            assert_eq!(content[0].call_id, "c1");
            assert_eq!(content[0].result, "\"sunny\"");
        }
        _ => panic!("expected the function-result batch"),
    }
}

#[test]
fn gemini_interactions_reply_yields_id_and_last_text() {
    let reply = gemini::GeminiInteractionsResponse {
        id: "i1".to_string(),
        outputs: vec![
            gemini::GeminiInteractionsResponseOutput {
                signature: Some("s".to_string()),
                text: None,
                kind: "thought".to_string(),
            },
            gemini::GeminiInteractionsResponseOutput {
                signature: None,
                text: Some("first".to_string()),
                kind: "text".to_string(),
            },
            gemini::GeminiInteractionsResponseOutput {
                signature: None,
                text: Some("final".to_string()),
                kind: "text".to_string(),
            },
        ],
        status: "completed".to_string(),
    };
    let (id, message) = gemini::interactions_message(&reply);
    assert_eq!(id, "i1");
    assert_eq!(message, "final");
}

#[test]
fn gemini_chunks_translate_by_event_type() {
    let delta = gemini::GeminiInteractionsChunkResponse {
        event_type: "content.delta".to_string(),
        delta: Some(gemini::GeminiInteractionsChunkResponseDelta {
            kind: "text".to_string(),
            text: Some("piece".to_string()),
        }),
        interaction: None,
    };
    let chunk = gemini::chunk_to_completion(delta);
    assert_eq!(chunk.content, "piece");
    let done = gemini::GeminiInteractionsChunkResponse {
        event_type: "interaction.complete".to_string(),
        delta: None,
        interaction: Some(gemini::GeminiInteractionsChunkResponseInteraction {
            id: "i1".to_string(),
        }),
    };
    let stop = gemini::chunk_to_completion(done);
    assert!(stop.is_final);
    assert_eq!(stop.response_id, "i1");
}

#[test]
fn gemini_embeddings_request_carries_each_text() {
    let request = gemini::GeminiEmbeddingsRequest::new(vec!["alpha", "beta"]);
    assert_eq!(request.model, gemini::MODEL_GEMINI_EMBEDDING_001);
    assert_eq!(request.content.parts.len(), 2);
    assert_eq!(request.content.parts[0].text, "alpha");
    assert_eq!(request.content.parts[1].text, "beta");
}

#[test]
fn has_tool_calls_looks_through_all_contents() {
    let with = CompletionResponse {
        response_id: String::new(),
        contents: vec![
            CompletionResponseContent::Text("hi".to_string()),
            CompletionResponseContent::ToolCall(agentic_core::model::ToolCallRequest {
                name: "t".to_string(),
                id: "c".to_string(),
                arguments: JsonValue::Null,
            }),
        ],
    };
    assert!(with.has_tool_calls());
    let without = CompletionResponse {
        response_id: String::new(),
        contents: vec![CompletionResponseContent::Text("hi".to_string())],
    };
    assert!(!without.has_tool_calls());
}

#[test]
fn provider_names_match_their_modules() {
    assert_eq!(anthropic::LLM, "Anthropic");
    assert_eq!(openai::LLM, "OpenAI");
    assert_eq!(gemini::LLM, "Gemini");
    assert_eq!(anthropic::MODEL_SONNET_4_5, "sonnet-4-5");
    assert_eq!(openai::MODEL_GPT_5_NANO, "gpt-5-nano");
}
