//! The OpenAI wire model and its translations.

use vstd::prelude::*;

use crate::codec::{json_parse, json_text, parse_json, print_json};
use crate::errors::AgentError;
use crate::model::{
    last_assistant_id, CompletionChunkResponse, CompletionRequest, CompletionResponse,
    CompletionResponseContent, ContentData, Message, MessageData, ToolCallRequest,
    ToolCallRequestData, ToolDefinition,
};

verus! {

pub const LLM: &'static str = "OpenAI";

pub const MODEL_GPT_5_NANO: &'static str = "gpt-5-nano";

/// One request against the responses endpoint.
pub struct OpenAICompletionRequest {
    pub model: String,
    pub instructions: String,
    pub input: Vec<OpenAICompletionRequestMessage>,
    pub store: bool,
    pub stream: bool,
    pub previous_response_id: Option<String>,
    pub max_output_tokens: i32,
    pub reasoning: OpenAICompletionRequestReasoning,
    pub tools: Vec<ToolDefinition>,
}

/// One wire input item.
pub enum OpenAICompletionRequestMessage {
    Content { role: String, content: String },
    FunctionCall { kind: String, arguments: String, call_id: String, name: String },
    FunctionCallOutput { kind: String, call_id: String, output: String },
}

/// The reasoning policy sent with each request.
pub struct OpenAICompletionRequestReasoning {
    pub effort: String,
}

/// One reply from the responses endpoint.
pub struct OpenAICompletionResponse {
    pub id: String,
    pub output: Vec<OpenAICompletionResponseOutput>,
}

/// One reply output item.
pub enum OpenAICompletionResponseOutput {
    Message { id: String, status: String, content: Vec<OpenAICompletionResponseContent> },
    FunctionCall { status: String, arguments: String, call_id: String, name: String },
    Reasoning { id: String, summary: Vec<String> },
}

/// One content part of a reply message.
pub struct OpenAICompletionResponseContent {
    pub kind: String,
    pub text: String,
}

/// One server-sent stream event.
pub struct OpentAIChunkResponse {
    pub event: String,
    pub data: Option<OpenAIChunkResponseData>,
}

/// The payload of one stream event.
pub struct OpenAIChunkResponseData {
    pub kind: String,
    pub response: Option<OpenAIChunkResponseDataResponse>,
    pub delta: Option<String>,
}

/// The response identity a final stream event carries.
pub struct OpenAIChunkResponseDataResponse {
    pub id: String,
}

/// The canonical messages that become wire input items: every message but a
/// thought, in order.
pub open spec fn wire_inputs(msgs: Seq<MessageData>) -> Seq<MessageData>
    decreases msgs.len(),
{
    if msgs.len() == 0 {
        Seq::empty()
    } else {
        let rest = wire_inputs(msgs.drop_first());
        if msgs[0] is Thought {
            rest
        } else {
            seq![msgs[0]] + rest
        }
    }
}

/// Appending one message appends its wire item, or nothing for a thought.
proof fn lemma_wire_inputs_push(msgs: Seq<MessageData>, m: MessageData)
    ensures
        wire_inputs(msgs.push(m)) == wire_inputs(msgs) + (if m is Thought {
            Seq::<MessageData>::empty()
        } else {
            seq![m]
        }),
    decreases msgs.len(),
{
    reveal_with_fuel(wire_inputs, 2);
    let tail = (if m is Thought {
        Seq::<MessageData>::empty()
    } else {
        seq![m]
    });
    if msgs.len() == 0 {
        assert(msgs.push(m).drop_first() =~= Seq::<MessageData>::empty());
        assert(msgs.push(m)[0] == m);
        assert(wire_inputs(msgs.push(m)) =~= wire_inputs(msgs) + tail);
    } else {
        lemma_wire_inputs_push(msgs.drop_first(), m);
        assert(msgs.push(m).drop_first() =~= msgs.drop_first().push(m));
        assert(msgs.push(m)[0] == msgs[0]);
        assert(wire_inputs(msgs.push(m)) =~= wire_inputs(msgs) + tail);
    }
}

/// How one canonical message spells as a wire input item.
pub open spec fn translated_input(m: MessageData, w: OpenAICompletionRequestMessage) -> bool {
    match m {
        MessageData::User { content, .. } => (w matches OpenAICompletionRequestMessage::Content {
            role,
            content: wc,
        } && role@ == "user"@ && wc@ == content),
        MessageData::Assistant { content, .. } => (
        w matches OpenAICompletionRequestMessage::Content { role, content: wc } && role@
            == "assistant"@ && wc@ == content),
        MessageData::ToolCall { arguments, call_id, name } => (
        w matches OpenAICompletionRequestMessage::FunctionCall {
            kind,
            arguments: wa,
            call_id: wi,
            name: wn,
        } && kind@ == "function_call"@ && wa@ == arguments && wi@ == call_id && wn@ == name),
        MessageData::ToolOutput { call_id, output, .. } => (
        w matches OpenAICompletionRequestMessage::FunctionCallOutput {
            kind,
            call_id: wi,
            output: wo,
        } && kind@ == "function_call_output"@ && wi@ == call_id && wo@ == json_text(output)),
        MessageData::Thought { .. } => false,
    }
}

impl OpenAICompletionRequest {
    /// Translates the canonical request: thoughts are dropped, every other
    /// message becomes one wire input item in order, and the last assistant
    /// turn's response id becomes the continuation handle.
    pub fn new(request: CompletionRequest) -> (r: Result<OpenAICompletionRequest, AgentError>)
        ensures
            r matches Ok(a) && ({
                let msgs = request.messages.deep_view();
                &&& a.model@ == request.model@
                &&& a.instructions@ == (match request.system.deep_view() {
                    Some(s) => s,
                    None => Seq::<char>::empty(),
                })
                &&& a.store
                &&& a.stream == request.stream
                &&& a.max_output_tokens == request.max_tokens
                &&& a.reasoning.effort@ == "low"@
                &&& a.previous_response_id.deep_view() == last_assistant_id(msgs)
                &&& a.input@.len() == wire_inputs(msgs).len()
                &&& forall|i: int|
                    0 <= i < a.input@.len() ==> translated_input(
                        wire_inputs(msgs)[i],
                        #[trigger] a.input@[i],
                    )
                &&& a.tools.deep_view() == request.definitions.deep_view()
            }),
    {
        let ghost msgs = request.messages.deep_view();
        let mut id: Option<String> = None;
        let mut inputs: Vec<OpenAICompletionRequestMessage> = Vec::new();
        let mut k: usize = 0;
        proof {
            assert(msgs.take(0) =~= Seq::<MessageData>::empty());
        }
        while k < request.messages.len()
            invariant
                0 <= k <= request.messages@.len(),
                msgs == request.messages.deep_view(),
                msgs.len() == request.messages@.len(),
                id.deep_view() == last_assistant_id(msgs.take(k as int)),
                inputs@.len() == wire_inputs(msgs.take(k as int)).len(),
                forall|i: int|
                    0 <= i < inputs@.len() ==> translated_input(
                        wire_inputs(msgs.take(k as int))[i],
                        #[trigger] inputs@[i],
                    ),
            decreases request.messages@.len() - k,
        {
            proof {
                assert(msgs[k as int] == request.messages@[k as int].deep_view());
                assert(msgs.take(k as int).push(msgs[k as int]) =~= msgs.take(k as int + 1));
                assert(msgs.take(k as int + 1).drop_last() =~= msgs.take(k as int));
                assert(msgs.take(k as int + 1).last() == msgs[k as int]);
                lemma_wire_inputs_push(msgs.take(k as int), msgs[k as int]);
            }
            match &request.messages[k] {
                Message::Thought { .. } => {},
                Message::User { content, .. } => {
                    inputs.push(
                        OpenAICompletionRequestMessage::Content {
                            role: {
                                let role = "user";
                                role.to_owned()
                            },
                            content: content.clone(),
                        },
                    );
                },
                Message::Assistant { content, response_id } => {
                    id = crate::model::duplicate_opt_string(response_id);
                    inputs.push(
                        OpenAICompletionRequestMessage::Content {
                            role: {
                                let role = "assistant";
                                role.to_owned()
                            },
                            content: content.clone(),
                        },
                    );
                },
                Message::ToolCall { arguments, call_id, name } => {
                    inputs.push(
                        OpenAICompletionRequestMessage::FunctionCall {
                            kind: {
                                let kind = "function_call";
                                kind.to_owned()
                            },
                            arguments: arguments.clone(),
                            call_id: call_id.clone(),
                            name: name.clone(),
                        },
                    );
                },
                Message::ToolOutput { call_id, output, .. } => {
                    inputs.push(
                        OpenAICompletionRequestMessage::FunctionCallOutput {
                            kind: {
                                let kind = "function_call_output";
                                kind.to_owned()
                            },
                            call_id: call_id.clone(),
                            output: print_json(output),
                        },
                    );
                },
            }
            k += 1;
        }
        proof {
            assert(msgs.take(msgs.len() as int) =~= msgs);
        }
        Ok(
            OpenAICompletionRequest {
                model: request.model,
                instructions: match request.system {
                    Some(s) => s,
                    None => String::new(),
                },
                input: inputs,
                store: true,
                stream: request.stream,
                previous_response_id: id,
                max_output_tokens: request.max_tokens,
                reasoning: OpenAICompletionRequestReasoning {
                    effort: {
                        let effort = "low";
                        effort.to_owned()
                    },
                },
                tools: request.definitions,
            },
        )
    }
}

/// The text of the first completed output-text part, if any.
pub open spec fn first_output_text(parts: Seq<OpenAICompletionResponseContent>) -> Option<
    Seq<char>,
>
    decreases parts.len(),
{
    if parts.len() == 0 {
        None
    } else if parts[0].kind@ == "output_text"@ {
        Some(parts[0].text@)
    } else {
        first_output_text(parts.drop_first())
    }
}

/// The canonical contents a reply's output items denote: a completed
/// message contributes its first output text, a completed function call
/// contributes a tool call whose argument text must parse as JSON, and
/// everything else contributes nothing. `None` stands for a function call
/// whose arguments are not JSON.
pub open spec fn reply_contents(outputs: Seq<OpenAICompletionResponseOutput>) -> Option<
    Seq<ContentData>,
>
    decreases outputs.len(),
{
    if outputs.len() == 0 {
        Some(Seq::empty())
    } else {
        let head: Option<Seq<ContentData>> = match outputs[0] {
            OpenAICompletionResponseOutput::Message { status, content, .. } => if status@
                == "completed"@ {
                match first_output_text(content@) {
                    Some(t) => Some(seq![ContentData::Text(t)]),
                    None => Some(Seq::empty()),
                }
            } else {
                Some(Seq::empty())
            },
            OpenAICompletionResponseOutput::FunctionCall { status, arguments, call_id, name } => if
            status@ == "completed"@ {
                match json_parse(arguments@) {
                    Some(args) => Some(
                        seq![
                            ContentData::ToolCall(
                                ToolCallRequestData { name: name@, id: call_id@, arguments: args },
                            ),
                        ],
                    ),
                    None => None,
                }
            } else {
                Some(Seq::empty())
            },
            OpenAICompletionResponseOutput::Reasoning { .. } => Some(Seq::empty()),
        };
        match (head, reply_contents(outputs.drop_first())) {
            (Some(h), Some(rest)) => Some(h + rest),
            _ => None,
        }
    }
}

/// Translates a reply into the canonical response: its id becomes the
/// continuation handle and its output items become the canonical contents.
/// A completed function call whose argument text is not JSON is a decode
/// error.
pub fn response_to_completion(reply: OpenAICompletionResponse) -> (r: Result<
    CompletionResponse,
    AgentError,
>)
    ensures
        match r {
            Ok(resp) => reply_contents(reply.output@) == Some(resp.contents.deep_view())
                && resp.response_id@ == reply.id@,
            Err(e) => reply_contents(reply.output@) is None && e is Decode,
        },
{
    let ghost outputs = reply.output@;
    let mut contents: Vec<CompletionResponseContent> = Vec::new();
    let mut k: usize = 0;
    proof {
        assert(outputs.skip(0) =~= outputs);
    }
    while k < reply.output.len()
        invariant
            0 <= k <= reply.output@.len(),
            reply.output@ == outputs,
            outputs == reply.output@,
            match reply_contents(outputs.skip(k as int)) {
                Some(rest) => ({
                    &&& reply_contents(outputs) matches Some(all)
                    &&& all =~= contents.deep_view() + rest
                }),
                None => reply_contents(outputs) is None,
            },
        decreases reply.output@.len() - k,
    {
        let ghost contents_before = contents.deep_view();
        proof {
            assert(outputs.skip(k as int)[0] == outputs[k as int]);
            assert(outputs.skip(k as int).drop_first() =~= outputs.skip(k as int + 1));
        }
        match &reply.output[k] {
            OpenAICompletionResponseOutput::Message { status, content, .. } => {
                let completed = {
                    let s = "completed";
                    s.to_owned()
                };
                if *status == completed {
                    if let Some(text) = first_completed_text(content) {
                        contents.push(CompletionResponseContent::Text(text));
                        proof {
                            assert(contents.deep_view() =~= contents_before.push(
                                contents@.last().deep_view(),
                            ));
                        }
                    }
                }
            },
            OpenAICompletionResponseOutput::FunctionCall { status, arguments, call_id, name } => {
                let completed = {
                    let s = "completed";
                    s.to_owned()
                };
                if *status == completed {
                    let args = match parse_json(arguments.as_str()) {
                        Some(v) => v,
                        None => {
                            proof {
                                assert(json_parse(arguments@) is None);
                                assert(reply_contents(outputs.skip(k as int)) is None);
                            }
                            return Err(
                                AgentError::Decode(
                                    {
                                        let m = "a function call carries arguments that are not JSON";
                                        m.to_owned()
                                    },
                                ),
                            );
                        },
                    };
                    contents.push(
                        CompletionResponseContent::ToolCall(
                            ToolCallRequest {
                                name: name.clone(),
                                id: call_id.clone(),
                                arguments: args,
                            },
                        ),
                    );
                    proof {
                        assert(contents.deep_view() =~= contents_before.push(
                            contents@.last().deep_view(),
                        ));
                    }
                }
            },
            OpenAICompletionResponseOutput::Reasoning { .. } => {},
        }
        k += 1;
    }
    proof {
        assert(outputs.skip(outputs.len() as int)
            =~= Seq::<OpenAICompletionResponseOutput>::empty());
        assert(reply_contents(Seq::<OpenAICompletionResponseOutput>::empty()) == Some(
            Seq::<ContentData>::empty(),
        ));
    }
    Ok(CompletionResponse { response_id: reply.id, contents })
}

/// The first output-text part's text, cloned out of a reply message.
fn first_completed_text(parts: &Vec<OpenAICompletionResponseContent>) -> (r: Option<String>)
    ensures
        match r {
            Some(t) => first_output_text(parts@) == Some(t@),
            None => first_output_text(parts@) is None,
        },
{
    let mut k: usize = 0;
    proof {
        assert(parts@.skip(0) =~= parts@);
    }
    while k < parts.len()
        invariant
            0 <= k <= parts@.len(),
            first_output_text(parts@) == first_output_text(parts@.skip(k as int)),
        decreases parts@.len() - k,
    {
        proof {
            assert(parts@.skip(k as int)[0] == parts@[k as int]);
            assert(parts@.skip(k as int).drop_first() =~= parts@.skip(k as int + 1));
        }
        let output_text = {
            let s = "output_text";
            s.to_owned()
        };
        if parts[k].kind == output_text {
            return Some(parts[k].text.clone());
        }
        k += 1;
    }
    None
}

/// Translates one stream event into a canonical chunk: an output-text delta
/// carries its text, a completed response ends the stream with its id, and
/// every other event is an empty chunk.
pub fn chunk_to_completion(event: String, data: OpenAIChunkResponseData) -> (r:
    CompletionChunkResponse)
    ensures
        event@ == "response.output_text.delta"@ ==> (!r.is_final && r.response_id@ == Seq::<
            char,
        >::empty() && r.thinking@ == Seq::<char>::empty() && r.content@ == (match data.delta {
            Some(d) => d@,
            None => Seq::<char>::empty(),
        })),
        event@ == "response.completed"@ ==> (data.response matches Some(resp) ==> r.is_final
            && r.response_id@ == resp.id@),
        event@ != "response.output_text.delta"@ && event@ != "response.completed"@ ==> !r.is_final
            && r.content@ == Seq::<char>::empty(),
{
    proof {
        reveal_strlit("response.output_text.delta");
        reveal_strlit("response.completed");
        assert("response.output_text.delta"@.len() == 26);
        assert("response.completed"@.len() == 18);
    }
    let delta_event = {
        let s = "response.output_text.delta";
        s.to_owned()
    };
    let completed_event = {
        let s = "response.completed";
        s.to_owned()
    };
    if event == delta_event {
        match data.delta {
            Some(delta) => CompletionChunkResponse::content(delta, String::new()),
            None => CompletionChunkResponse::default(),
        }
    } else if event == completed_event {
        match data.response {
            Some(resp) => CompletionChunkResponse::stop(resp.id),
            None => CompletionChunkResponse::default(),
        }
    } else {
        CompletionChunkResponse::default()
    }
}

} // verus!
