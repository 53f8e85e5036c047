//! The Anthropic wire model and its translations.

use vstd::prelude::*;

use crate::codec::{json_parse, parse_json, print_json};
use crate::errors::AgentError;
use crate::json::JsonValue;
use crate::model::{
    echoed_tool_calls, echoed_tool_outputs, lemma_echoed_tool_calls_push,
    lemma_echoed_tool_outputs_push, lemma_plain_turns_push, plain_turns, CompletionChunkResponse,
    CompletionRequest, CompletionResponse, CompletionResponseContent, Message, MessageData,
    ToolCallRequest,
};

verus! {

pub const LLM: &'static str = "Anthropic";

pub const MODEL_SONNET_4_5: &'static str = "sonnet-4-5";

/// One request against the messages endpoint. The `temperature` is kept in
/// thousandths, like the canonical request's.
pub struct AnthropicCompletionRequest {
    pub model: String,
    pub max_tokens: i32,
    pub temperature_milli: u32,
    pub messages: Vec<AnthropicCompletionRequestMessage>,
    pub system: Option<String>,
    pub stream: bool,
    pub tools: Vec<AnthropicToolDefinition>,
}

/// A system block.
pub struct AnthropicCompletionRequestSystem {
    pub kind: String,
    pub text: String,
}

/// One wire message: plain content, a tool-use batch, or a tool-result
/// batch.
pub enum AnthropicCompletionRequestMessage {
    Content { role: String, content: String },
    ToolUse { role: String, content: Vec<AnthropicCompletionRequestToolUse> },
    ToolResult { role: String, content: Vec<AnthropicCompletionRequestToolResult> },
}

/// One requested tool invocation, echoed back to the provider.
pub struct AnthropicCompletionRequestToolUse {
    pub kind: String,
    pub input: JsonValue,
    pub id: String,
    pub name: String,
}

/// One tool result, addressed by the tool-use id it answers.
pub struct AnthropicCompletionRequestToolResult {
    pub kind: String,
    pub tool_use_id: String,
    pub content: String,
}

/// One tool the model may call.
pub struct AnthropicToolDefinition {
    pub name: String,
    pub description: String,
    pub input_schema: JsonValue,
}

/// One reply content block.
pub enum AnthropicCompletionResponseContent {
    Text { text: String },
    ToolUse { id: String, input: JsonValue, name: String },
}

/// One reply from the messages endpoint.
pub struct AnthropicCompletionResponse {
    pub id: String,
    pub model: String,
    pub role: String,
    pub content: Vec<AnthropicCompletionResponseContent>,
}

/// One server-sent stream event.
pub struct AnthropicChunkResponse {
    pub kind: String,
    pub index: Option<i32>,
    pub delta: Option<AnthropicChunkResponseDelta>,
}

/// A content block opening a stream section.
pub struct AnthropicChunkResponseContentBlock {
    pub kind: Option<String>,
    pub text: Option<String>,
}

/// The text or thinking delta of one stream event.
pub struct AnthropicChunkResponseDelta {
    pub kind: Option<String>,
    pub text: Option<String>,
    pub thinking: Option<String>,
}

/// True when some tool-call message's arguments are not JSON text; building
/// a request from such a history fails.
pub open spec fn has_bad_arguments(msgs: Seq<MessageData>) -> bool {
    exists|i: int|
        0 <= i < msgs.len() && ((#[trigger] msgs[i]) matches MessageData::ToolCall {
            arguments,
            ..
        } && json_parse(arguments) is None)
}

impl AnthropicCompletionRequest {
    /// Translates the canonical request: user and assistant turns become
    /// plain wire messages in order, thoughts are dropped, the echoed tool
    /// calls are batched into one trailing tool-use message and the tool
    /// outputs into one trailing tool-result message. A tool call whose
    /// argument text is not JSON fails the translation.
    pub fn new(request: CompletionRequest) -> (r: Result<AnthropicCompletionRequest, AgentError>)
        ensures
            match r {
                Ok(a) => ({
                    let msgs = request.messages.deep_view();
                    let plain = plain_turns(msgs);
                    let uses = echoed_tool_calls(msgs);
                    let results = echoed_tool_outputs(msgs);
                    let u: int = if uses.len() > 0 {
                        1
                    } else {
                        0
                    };
                    let w: int = if results.len() > 0 {
                        1
                    } else {
                        0
                    };
                    &&& !has_bad_arguments(msgs)
                    &&& a.model@ == request.model@
                    &&& a.max_tokens == request.max_tokens
                    &&& a.temperature_milli == request.temperature_milli
                    &&& a.system.deep_view() == request.system.deep_view()
                    &&& a.stream == request.stream
                    &&& a.messages@.len() == plain.len() + u + w
                    &&& forall|i: int|
                        0 <= i < plain.len() ==> ((
                        #[trigger] a.messages@[i]) matches AnthropicCompletionRequestMessage::Content {
                            role,
                            content,
                        } && role@ == plain[i].0 && content@ == plain[i].1)
                    &&& uses.len() > 0 ==> (a.messages@[plain.len() as int]
                        matches AnthropicCompletionRequestMessage::ToolUse { role, content }
                        && role@ == "assistant"@ && content@.len() == uses.len() && (forall|i: int|
                        0 <= i < uses.len() ==> ({
                            &&& (#[trigger] content@[i]).kind@ == "tool_use"@
                            &&& content@[i].input.deep_view() == uses[i].0
                            &&& content@[i].id@ == uses[i].1
                            &&& content@[i].name@ == uses[i].2
                        })))
                    &&& results.len() > 0 ==> (a.messages@[plain.len() + u]
                        matches AnthropicCompletionRequestMessage::ToolResult { role, content }
                        && role@ == "user"@ && content@.len() == results.len() && (forall|i: int|
                        0 <= i < results.len() ==> ({
                            &&& (#[trigger] content@[i]).kind@ == "tool_result"@
                            &&& content@[i].tool_use_id@ == results[i].0
                            &&& content@[i].content@ == results[i].1
                        })))
                    &&& a.tools@.len() == request.definitions@.len()
                    &&& forall|i: int|
                        0 <= i < a.tools@.len() ==> ({
                            &&& (#[trigger] a.tools@[i]).name@ == request.definitions@[i].name@
                            &&& a.tools@[i].description@ == request.definitions@[i].description@
                            &&& a.tools@[i].input_schema.deep_view()
                                == request.definitions@[i].parameters.deep_view()
                        })
                }),
                Err(e) => e is Decode && has_bad_arguments(request.messages.deep_view()),
            },
    {
        let ghost msgs = request.messages.deep_view();
        let mut messages: Vec<AnthropicCompletionRequestMessage> = Vec::new();
        let mut tool_use_contents: Vec<AnthropicCompletionRequestToolUse> = Vec::new();
        let mut tool_result_contents: Vec<AnthropicCompletionRequestToolResult> = Vec::new();
        let mut k: usize = 0;
        proof {
            assert(msgs.take(0) =~= Seq::<MessageData>::empty());
        }
        while k < request.messages.len()
            invariant
                0 <= k <= request.messages@.len(),
                msgs == request.messages.deep_view(),
                msgs.len() == request.messages@.len(),
                forall|i: int|
                    0 <= i < k ==> !((#[trigger] msgs[i]) matches MessageData::ToolCall {
                        arguments,
                        ..
                    } && json_parse(arguments) is None),
                messages@.len() == plain_turns(msgs.take(k as int)).len(),
                forall|i: int|
                    0 <= i < messages@.len() ==> ((
                    #[trigger] messages@[i]) matches AnthropicCompletionRequestMessage::Content {
                        role,
                        content,
                    } && role@ == plain_turns(msgs.take(k as int))[i].0 && content@ == plain_turns(
                        msgs.take(k as int),
                    )[i].1),
                tool_use_contents@.len() == echoed_tool_calls(msgs.take(k as int)).len(),
                forall|i: int|
                    0 <= i < tool_use_contents@.len() ==> ({
                        &&& (#[trigger] tool_use_contents@[i]).kind@ == "tool_use"@
                        &&& tool_use_contents@[i].input.deep_view() == echoed_tool_calls(
                            msgs.take(k as int),
                        )[i].0
                        &&& tool_use_contents@[i].id@ == echoed_tool_calls(msgs.take(k as int))[i].1
                        &&& tool_use_contents@[i].name@ == echoed_tool_calls(
                            msgs.take(k as int),
                        )[i].2
                    }),
                tool_result_contents@.len() == echoed_tool_outputs(msgs.take(k as int)).len(),
                forall|i: int|
                    0 <= i < tool_result_contents@.len() ==> ({
                        &&& (#[trigger] tool_result_contents@[i]).kind@ == "tool_result"@
                        &&& tool_result_contents@[i].tool_use_id@ == echoed_tool_outputs(
                            msgs.take(k as int),
                        )[i].0
                        &&& tool_result_contents@[i].content@ == echoed_tool_outputs(
                            msgs.take(k as int),
                        )[i].1
                    }),
            decreases request.messages@.len() - k,
        {
            proof {
                assert(msgs[k as int] == request.messages@[k as int].deep_view());
                assert(msgs.take(k as int).push(msgs[k as int]) =~= msgs.take(k as int + 1));
                lemma_plain_turns_push(msgs.take(k as int), msgs[k as int]);
                lemma_echoed_tool_calls_push(msgs.take(k as int), msgs[k as int]);
                lemma_echoed_tool_outputs_push(msgs.take(k as int), msgs[k as int]);
            }
            match &request.messages[k] {
                Message::Thought { .. } => {},
                Message::User { content, .. } => {
                    messages.push(
                        AnthropicCompletionRequestMessage::Content {
                            role: {
                                let role = "user";
                                role.to_owned()
                            },
                            content: content.clone(),
                        },
                    );
                },
                Message::Assistant { content, .. } => {
                    messages.push(
                        AnthropicCompletionRequestMessage::Content {
                            role: {
                                let role = "assistant";
                                role.to_owned()
                            },
                            content: content.clone(),
                        },
                    );
                },
                Message::ToolCall { arguments, call_id, name } => {
                    let input = match parse_json(arguments.as_str()) {
                        Some(v) => v,
                        None => {
                            return Err(
                                AgentError::Decode(
                                    {
                                        let m = "a tool call carries arguments that are not JSON";
                                        m.to_owned()
                                    },
                                ),
                            );
                        },
                    };
                    tool_use_contents.push(
                        AnthropicCompletionRequestToolUse {
                            kind: {
                                let kind = "tool_use";
                                kind.to_owned()
                            },
                            input,
                            id: call_id.clone(),
                            name: name.clone(),
                        },
                    );
                },
                Message::ToolOutput { call_id, output, .. } => {
                    tool_result_contents.push(
                        AnthropicCompletionRequestToolResult {
                            kind: {
                                let kind = "tool_result";
                                kind.to_owned()
                            },
                            tool_use_id: call_id.clone(),
                            content: print_json(output),
                        },
                    );
                },
            }
            k += 1;
        }
        proof {
            assert(msgs.take(msgs.len() as int) =~= msgs);
        }
        if tool_use_contents.len() > 0 {
            messages.push(
                AnthropicCompletionRequestMessage::ToolUse {
                    role: {
                        let role = "assistant";
                        role.to_owned()
                    },
                    content: tool_use_contents,
                },
            );
        }
        if tool_result_contents.len() > 0 {
            messages.push(
                AnthropicCompletionRequestMessage::ToolResult {
                    role: {
                        let role = "user";
                        role.to_owned()
                    },
                    content: tool_result_contents,
                },
            );
        }
        let mut tools: Vec<AnthropicToolDefinition> = Vec::new();
        let mut t: usize = 0;
        while t < request.definitions.len()
            invariant
                0 <= t <= request.definitions@.len(),
                tools@.len() == t,
                forall|i: int|
                    0 <= i < t ==> ({
                        &&& (#[trigger] tools@[i]).name@ == request.definitions@[i].name@
                        &&& tools@[i].description@ == request.definitions@[i].description@
                        &&& tools@[i].input_schema.deep_view()
                            == request.definitions@[i].parameters.deep_view()
                    }),
            decreases request.definitions@.len() - t,
        {
            let d = &request.definitions[t];
            tools.push(
                AnthropicToolDefinition {
                    name: d.name.clone(),
                    description: d.description.clone(),
                    input_schema: d.parameters.duplicate(),
                },
            );
            t += 1;
        }
        Ok(
            AnthropicCompletionRequest {
                model: request.model,
                max_tokens: request.max_tokens,
                temperature_milli: request.temperature_milli,
                messages,
                system: request.system,
                stream: request.stream,
                tools,
            },
        )
    }
}

/// Translates a reply into the canonical response: the reply's id becomes
/// the continuation handle, text blocks become text contents, and tool-use
/// blocks become tool-call requests, in order.
pub fn response_to_completion(reply: AnthropicCompletionResponse) -> (r: CompletionResponse)
    ensures
        r.response_id@ == reply.id@,
        r.contents@.len() == reply.content@.len(),
        forall|i: int|
            0 <= i < reply.content@.len() ==> (match reply.content@[i] {
                AnthropicCompletionResponseContent::Text { text } => (
                #[trigger] r.contents@[i]) matches CompletionResponseContent::Text(t) && t@
                    == text@,
                AnthropicCompletionResponseContent::ToolUse { id, input, name } => (
                r.contents@[i]) matches CompletionResponseContent::ToolCall(tc) && tc.id@ == id@
                    && tc.name@ == name@ && tc.arguments.deep_view() == input.deep_view(),
            }),
{
    let mut contents: Vec<CompletionResponseContent> = Vec::new();
    let ghost blocks = reply.content@;
    let mut k: usize = 0;
    let reply_content = reply.content;
    while k < reply_content.len()
        invariant
            0 <= k <= reply_content@.len(),
            reply_content@ == blocks,
            contents@.len() == k,
            forall|i: int|
                0 <= i < k ==> (match blocks[i] {
                    AnthropicCompletionResponseContent::Text { text } => (
                    #[trigger] contents@[i]) matches CompletionResponseContent::Text(t) && t@
                        == text@,
                    AnthropicCompletionResponseContent::ToolUse { id, input, name } => (
                    contents@[i]) matches CompletionResponseContent::ToolCall(tc) && tc.id@ == id@
                        && tc.name@ == name@ && tc.arguments.deep_view() == input.deep_view(),
                }),
        decreases reply_content@.len() - k,
    {
        match &reply_content[k] {
            AnthropicCompletionResponseContent::Text { text } => {
                contents.push(CompletionResponseContent::Text(text.clone()));
            },
            AnthropicCompletionResponseContent::ToolUse { id, input, name } => {
                contents.push(
                    CompletionResponseContent::ToolCall(
                        ToolCallRequest {
                            name: name.clone(),
                            id: id.clone(),
                            arguments: input.duplicate(),
                        },
                    ),
                );
            },
        }
        k += 1;
    }
    CompletionResponse { response_id: reply.id, contents }
}

/// Translates one stream event into a canonical chunk: a content-block
/// delta carries its text and thinking, a message stop ends the stream, and
/// every other event is an empty chunk.
pub fn chunk_to_completion(chunk: AnthropicChunkResponse) -> (r: CompletionChunkResponse)
    ensures
        chunk.kind@ == "content_block_delta"@ ==> (!r.is_final && r.response_id@ == Seq::<
            char,
        >::empty() && r.content@ == (match chunk.delta {
            Some(d) => match d.text {
                Some(t) => t@,
                None => Seq::<char>::empty(),
            },
            None => Seq::<char>::empty(),
        }) && r.thinking@ == (match chunk.delta {
            Some(d) => match d.thinking {
                Some(t) => t@,
                None => Seq::<char>::empty(),
            },
            None => Seq::<char>::empty(),
        })),
        chunk.kind@ == "message_stop"@ ==> r.is_final && r.response_id@ == Seq::<char>::empty(),
        chunk.kind@ != "content_block_delta"@ && chunk.kind@ != "message_stop"@ ==> !r.is_final
            && r.content@ == Seq::<char>::empty() && r.thinking@ == Seq::<char>::empty(),
{
    proof {
        reveal_strlit("content_block_delta");
        reveal_strlit("message_stop");
    }
    let kind_delta = {
        let s = "content_block_delta";
        s.to_owned()
    };
    let kind_stop = {
        let s = "message_stop";
        s.to_owned()
    };
    if chunk.kind == kind_delta {
        proof {
            assert("content_block_delta"@.len() == 19);
            assert("message_stop"@.len() == 12);
            assert(chunk.kind@ != "message_stop"@);
        }
        let (text, thinking) = match chunk.delta {
            Some(delta) => {
                let text = match delta.text {
                    Some(t) => t,
                    None => String::new(),
                };
                let thinking = match delta.thinking {
                    Some(t) => t,
                    None => String::new(),
                };
                (text, thinking)
            },
            None => (String::new(), String::new()),
        };
        CompletionChunkResponse::content(text, thinking)
    } else if chunk.kind == kind_stop {
        CompletionChunkResponse::stop(String::new())
    } else {
        CompletionChunkResponse::default()
    }
}

} // verus!
