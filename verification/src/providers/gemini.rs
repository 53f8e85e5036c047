//! The Gemini wire model and its translations.

use vstd::prelude::*;

use crate::codec::{json_parse, parse_json, print_json};
use crate::errors::AgentError;
use crate::json::JsonValue;
use crate::model::{
    echoed_tool_calls, echoed_tool_outputs, last_assistant_id, lemma_echoed_tool_calls_push,
    lemma_echoed_tool_outputs_push, CompletionChunkResponse, CompletionRequest, Message,
    MessageData, ToolDefinition,
};
use crate::providers::anthropic::has_bad_arguments;

verus! {

pub const LLM: &'static str = "Gemini";

pub const MODEL_GEMINI_3_FLASH_PREVIEW: &'static str = "gemini-3-flash-preview";

pub const MODEL_GEMINI_EMBEDDING_001: &'static str = "gemini-embedding-001";

/// One request against the interactions endpoint.
pub struct GeminiInteractionsRequest {
    pub model: String,
    pub input: Vec<GeminiCompletionRequestInput>,
    pub previous_interaction_id: Option<String>,
    pub system_instruction: String,
    pub stream: bool,
    pub tools: Vec<ToolDefinition>,
}

/// One wire input item.
pub enum GeminiCompletionRequestInput {
    Content { role: String, content: String },
    Thought { role: String, kind: String, thought_signature: String, content: String },
    FunctionCall { role: String, content: Vec<GeminiCompletionRequestFunctionCall> },
    FunctionCallResult { role: String, content: Vec<GeminiCompletionRequestFunctionResult> },
}

/// A thought signature block.
pub struct GeminiCompletionRequestThoughtSignature {
    pub signature: String,
}

/// One echoed tool invocation.
pub struct GeminiCompletionRequestFunctionCall {
    pub kind: String,
    pub arguments: JsonValue,
    pub id: String,
    pub name: String,
}

/// One tool result, addressed by its call id.
pub struct GeminiCompletionRequestFunctionResult {
    pub kind: String,
    pub call_id: String,
    pub result: String,
    pub name: String,
}

/// One request against the content-generation endpoint.
pub struct GeminiCompletionRequest {
    pub system_instruction: GeminiCompletionRequestSystemInstruction,
    pub contents: Vec<GeminiCompletionRequestContent>,
    pub stream: bool,
}

/// The system instruction block.
pub struct GeminiCompletionRequestSystemInstruction {
    pub parts: Vec<GeminiCompletionRequestPart>,
}

/// One role-tagged content block.
pub struct GeminiCompletionRequestContent {
    pub role: String,
    pub parts: Vec<GeminiCompletionRequestPart>,
}

/// One text part.
pub struct GeminiCompletionRequestPart {
    pub text: String,
}

/// One reply from the interactions endpoint.
pub struct GeminiInteractionsResponse {
    pub id: String,
    pub outputs: Vec<GeminiInteractionsResponseOutput>,
    pub status: String,
}

/// One reply output item.
pub struct GeminiInteractionsResponseOutput {
    pub signature: Option<String>,
    pub text: Option<String>,
    pub kind: String,
}

/// One server-sent stream event.
pub struct GeminiInteractionsChunkResponse {
    pub event_type: String,
    pub delta: Option<GeminiInteractionsChunkResponseDelta>,
    pub interaction: Option<GeminiInteractionsChunkResponseInteraction>,
}

/// The text delta of one stream event.
pub struct GeminiInteractionsChunkResponseDelta {
    pub kind: String,
    pub text: Option<String>,
}

/// The interaction identity a final stream event carries.
pub struct GeminiInteractionsChunkResponseInteraction {
    pub id: String,
}

/// One reply from the content-generation endpoint.
pub struct GeminiResponse {
    pub candidates: Vec<GeminiResponseCandidate>,
}

/// One candidate answer.
pub struct GeminiResponseCandidate {
    pub content: GeminiResponseContent,
}

/// A candidate's content.
pub struct GeminiResponseContent {
    pub parts: Vec<GeminiResponseContentPart>,
    pub role: String,
}

/// One text part of a candidate.
pub struct GeminiResponseContentPart {
    pub text: String,
}

/// The content of the last user turn, or the empty text.
pub open spec fn last_user_content(msgs: Seq<MessageData>) -> Seq<char>
    decreases msgs.len(),
{
    if msgs.len() == 0 {
        Seq::empty()
    } else {
        match msgs.last() {
            MessageData::User { content, .. } => content,
            _ => last_user_content(msgs.drop_last()),
        }
    }
}

impl GeminiInteractionsRequest {
    /// Translates the canonical request for the interactions endpoint: the
    /// last user turn becomes the leading content item, the echoed tool
    /// calls are batched into one model-role item and the tool outputs into
    /// one user-role item, and the last assistant turn's response id becomes
    /// the continuation handle. A tool call whose argument text is not JSON
    /// fails the translation.
    pub fn new(request: CompletionRequest) -> (r: Result<GeminiInteractionsRequest, AgentError>)
        ensures
            match r {
                Ok(g) => ({
                    let msgs = request.messages.deep_view();
                    let calls = echoed_tool_calls(msgs);
                    let results = echoed_tool_outputs(msgs);
                    let u: int = if calls.len() > 0 {
                        1
                    } else {
                        0
                    };
                    let w: int = if results.len() > 0 {
                        1
                    } else {
                        0
                    };
                    &&& !has_bad_arguments(msgs)
                    &&& g.model@ == MODEL_GEMINI_3_FLASH_PREVIEW@
                    &&& g.system_instruction@ == (match request.system.deep_view() {
                        Some(s) => s,
                        None => Seq::<char>::empty(),
                    })
                    &&& g.stream == request.stream
                    &&& g.tools.deep_view() == request.definitions.deep_view()
                    &&& g.previous_interaction_id.deep_view() == last_assistant_id(msgs)
                    &&& g.input@.len() == 1 + u + w
                    &&& (g.input@[0] matches GeminiCompletionRequestInput::Content { role, content }
                        && role@ == "user"@ && content@ == last_user_content(msgs))
                    &&& calls.len() > 0 ==> (g.input@[1]
                        matches GeminiCompletionRequestInput::FunctionCall { role, content }
                        && role@ == "model"@ && content@.len() == calls.len() && (forall|i: int|
                        0 <= i < calls.len() ==> ({
                            &&& (#[trigger] content@[i]).kind@ == "function_call"@
                            &&& content@[i].arguments.deep_view() == calls[i].0
                            &&& content@[i].id@ == calls[i].1
                            &&& content@[i].name@ == calls[i].2
                        })))
                    &&& results.len() > 0 ==> (g.input@[1 + u]
                        matches GeminiCompletionRequestInput::FunctionCallResult { role, content }
                        && role@ == "user"@ && content@.len() == results.len() && (forall|i: int|
                        0 <= i < results.len() ==> ({
                            &&& (#[trigger] content@[i]).kind@ == "function_result"@
                            &&& content@[i].call_id@ == results[i].0
                            &&& content@[i].result@ == results[i].1
                            &&& content@[i].name@ == results[i].2
                        })))
                }),
                Err(e) => e is Decode && has_bad_arguments(request.messages.deep_view()),
            },
    {
        let ghost msgs = request.messages.deep_view();
        let mut id: Option<String> = None;
        let mut last_user: String = String::new();
        let mut function_call_contents: Vec<GeminiCompletionRequestFunctionCall> = Vec::new();
        let mut function_result_contents: Vec<GeminiCompletionRequestFunctionResult> = Vec::new();
        let mut k: usize = 0;
        proof {
            assert(msgs.take(0) =~= Seq::<MessageData>::empty());
        }
        while k < request.messages.len()
            invariant
                0 <= k <= request.messages@.len(),
                msgs == request.messages.deep_view(),
                msgs.len() == request.messages@.len(),
                id.deep_view() == last_assistant_id(msgs.take(k as int)),
                last_user@ == last_user_content(msgs.take(k as int)),
                forall|i: int|
                    0 <= i < k ==> !((#[trigger] msgs[i]) matches MessageData::ToolCall {
                        arguments,
                        ..
                    } && json_parse(arguments) is None),
                function_call_contents@.len() == echoed_tool_calls(msgs.take(k as int)).len(),
                forall|i: int|
                    0 <= i < function_call_contents@.len() ==> ({
                        &&& (#[trigger] function_call_contents@[i]).kind@ == "function_call"@
                        &&& function_call_contents@[i].arguments.deep_view() == echoed_tool_calls(
                            msgs.take(k as int),
                        )[i].0
                        &&& function_call_contents@[i].id@ == echoed_tool_calls(
                            msgs.take(k as int),
                        )[i].1
                        &&& function_call_contents@[i].name@ == echoed_tool_calls(
                            msgs.take(k as int),
                        )[i].2
                    }),
                function_result_contents@.len() == echoed_tool_outputs(msgs.take(k as int)).len(),
                forall|i: int|
                    0 <= i < function_result_contents@.len() ==> ({
                        &&& (#[trigger] function_result_contents@[i]).kind@ == "function_result"@
                        &&& function_result_contents@[i].call_id@ == echoed_tool_outputs(
                            msgs.take(k as int),
                        )[i].0
                        &&& function_result_contents@[i].result@ == echoed_tool_outputs(
                            msgs.take(k as int),
                        )[i].1
                        &&& function_result_contents@[i].name@ == echoed_tool_outputs(
                            msgs.take(k as int),
                        )[i].2
                    }),
            decreases request.messages@.len() - k,
        {
            proof {
                assert(msgs[k as int] == request.messages@[k as int].deep_view());
                assert(msgs.take(k as int + 1).drop_last() =~= msgs.take(k as int));
                assert(msgs.take(k as int + 1).last() == msgs[k as int]);
                assert(msgs.take(k as int).push(msgs[k as int]) =~= msgs.take(k as int + 1));
                lemma_echoed_tool_calls_push(msgs.take(k as int), msgs[k as int]);
                lemma_echoed_tool_outputs_push(msgs.take(k as int), msgs[k as int]);
            }
            match &request.messages[k] {
                Message::Thought { .. } => {},
                Message::User { content, .. } => {
                    last_user = content.clone();
                },
                Message::Assistant { response_id, .. } => {
                    id = crate::model::duplicate_opt_string(response_id);
                },
                Message::ToolCall { arguments, call_id, name } => {
                    let parsed = match parse_json(arguments.as_str()) {
                        Some(v) => v,
                        None => {
                            return Err(
                                AgentError::Decode(
                                    {
                                        let m = "a tool call carries arguments that are not JSON";
                                        m.to_owned()
                                    },
                                ),
                            );
                        },
                    };
                    function_call_contents.push(
                        GeminiCompletionRequestFunctionCall {
                            kind: {
                                let kind = "function_call";
                                kind.to_owned()
                            },
                            arguments: parsed,
                            id: call_id.clone(),
                            name: name.clone(),
                        },
                    );
                },
                Message::ToolOutput { call_id, output, name } => {
                    function_result_contents.push(
                        GeminiCompletionRequestFunctionResult {
                            kind: {
                                let kind = "function_result";
                                kind.to_owned()
                            },
                            call_id: call_id.clone(),
                            result: print_json(output),
                            name: name.clone(),
                        },
                    );
                },
            }
            k += 1;
        }
        proof {
            assert(msgs.take(msgs.len() as int) =~= msgs);
        }
        let mut inputs: Vec<GeminiCompletionRequestInput> = Vec::new();
        inputs.push(
            GeminiCompletionRequestInput::Content {
                role: {
                    let role = "user";
                    role.to_owned()
                },
                content: last_user,
            },
        );
        if function_call_contents.len() > 0 {
            inputs.push(
                GeminiCompletionRequestInput::FunctionCall {
                    role: {
                        let role = "model";
                        role.to_owned()
                    },
                    content: function_call_contents,
                },
            );
        }
        if function_result_contents.len() > 0 {
            inputs.push(
                GeminiCompletionRequestInput::FunctionCallResult {
                    role: {
                        let role = "user";
                        role.to_owned()
                    },
                    content: function_result_contents,
                },
            );
        }
        Ok(
            GeminiInteractionsRequest {
                model: {
                    let m = MODEL_GEMINI_3_FLASH_PREVIEW;
                    m.to_owned()
                },
                input: inputs,
                previous_interaction_id: id,
                system_instruction: match request.system {
                    Some(s) => s,
                    None => String::new(),
                },
                stream: request.stream,
                tools: request.definitions,
            },
        )
    }
}

/// The text of the last text-typed output of an interactions reply, or the
/// empty text when there is none: the reply's message.
pub open spec fn interactions_text(outputs: Seq<GeminiInteractionsResponseOutput>) -> Seq<char>
    decreases outputs.len(),
{
    if outputs.len() == 0 {
        Seq::empty()
    } else {
        let last = outputs.last();
        if last.kind@ == "text"@ && last.text is Some {
            last.text->Some_0@
        } else {
            interactions_text(outputs.drop_last())
        }
    }
}

/// Extracts the chat answer of an interactions reply: its id and the text
/// of its last text output.
pub fn interactions_message(reply: &GeminiInteractionsResponse) -> (r: (String, String))
    ensures
        r.0@ == reply.id@,
        r.1@ == interactions_text(reply.outputs@),
{
    let mut message = String::new();
    let ghost outputs = reply.outputs@;
    let mut k: usize = 0;
    proof {
        assert(outputs.take(0) =~= Seq::<GeminiInteractionsResponseOutput>::empty());
    }
    while k < reply.outputs.len()
        invariant
            0 <= k <= reply.outputs@.len(),
            outputs == reply.outputs@,
            message@ == interactions_text(outputs.take(k as int)),
        decreases reply.outputs@.len() - k,
    {
        proof {
            assert(outputs.take(k as int + 1).drop_last() =~= outputs.take(k as int));
            assert(outputs.take(k as int + 1).last() == outputs[k as int]);
        }
        let text_kind = {
            let s = "text";
            s.to_owned()
        };
        if reply.outputs[k].kind == text_kind {
            match &reply.outputs[k].text {
                Some(value) => {
                    message = value.clone();
                },
                None => {},
            }
        }
        k += 1;
    }
    proof {
        assert(outputs.take(outputs.len() as int) =~= outputs);
    }
    (reply.id.clone(), message)
}

/// Translates one stream event into a canonical chunk: a content delta
/// carries its text, a completed interaction ends the stream with its id,
/// and every other event is an empty chunk.
pub fn chunk_to_completion(chunk: GeminiInteractionsChunkResponse) -> (r: CompletionChunkResponse)
    ensures
        chunk.event_type@ == "content.delta"@ ==> (!r.is_final && r.response_id@ == Seq::<
            char,
        >::empty() && r.content@ == (match chunk.delta {
            Some(d) => match d.text {
                Some(t) => t@,
                None => Seq::<char>::empty(),
            },
            None => Seq::<char>::empty(),
        })),
        chunk.event_type@ == "interaction.complete"@ ==> (
        chunk.interaction matches Some(interaction) ==> r.is_final && r.response_id@
            == interaction.id@),
        chunk.event_type@ != "content.delta"@ && chunk.event_type@ != "interaction.complete"@
            ==> !r.is_final && r.content@ == Seq::<char>::empty(),
{
    proof {
        reveal_strlit("content.delta");
        reveal_strlit("interaction.complete");
        assert("content.delta"@.len() == 13);
        assert("interaction.complete"@.len() == 20);
    }
    let delta_event = {
        let s = "content.delta";
        s.to_owned()
    };
    let complete_event = {
        let s = "interaction.complete";
        s.to_owned()
    };
    if chunk.event_type == delta_event {
        match chunk.delta {
            Some(delta) => match delta.text {
                Some(text) => CompletionChunkResponse::content(text, String::new()),
                None => CompletionChunkResponse::default(),
            },
            None => CompletionChunkResponse::default(),
        }
    } else if chunk.event_type == complete_event {
        match chunk.interaction {
            Some(interaction) => CompletionChunkResponse::stop(interaction.id),
            None => CompletionChunkResponse::default(),
        }
    } else {
        CompletionChunkResponse::default()
    }
}

/// One embeddings request: a model and the texts to embed.
pub struct GeminiEmbeddingsRequest {
    pub model: String,
    pub content: GeminiEmbeddingsRequestContent,
}

/// The parts of an embeddings request.
pub struct GeminiEmbeddingsRequestContent {
    pub parts: Vec<GeminiEmbeddingsRequestContentPart>,
}

/// One text to embed.
pub struct GeminiEmbeddingsRequestContentPart {
    pub text: String,
}

impl GeminiEmbeddingsRequest {
    /// One embeddings request over the given texts, in order, under the
    /// embeddings model.
    pub fn new(texts: Vec<&str>) -> (r: GeminiEmbeddingsRequest)
        ensures
            r.model@ == MODEL_GEMINI_EMBEDDING_001@,
            r.content.parts@.len() == texts@.len(),
            forall|i: int|
                0 <= i < texts@.len() ==> (#[trigger] r.content.parts@[i]).text@ == texts@[i]@,
    {
        let mut parts: Vec<GeminiEmbeddingsRequestContentPart> = Vec::new();
        let mut k: usize = 0;
        while k < texts.len()
            invariant
                0 <= k <= texts@.len(),
                parts@.len() == k,
                forall|i: int|
                    0 <= i < k ==> (#[trigger] parts@[i]).text@ == texts@[i]@,
            decreases texts@.len() - k,
        {
            parts.push(GeminiEmbeddingsRequestContentPart { text: texts[k].to_owned() });
            k += 1;
        }
        GeminiEmbeddingsRequest {
            model: {
                let m = MODEL_GEMINI_EMBEDDING_001;
                m.to_owned()
            },
            content: GeminiEmbeddingsRequestContent { parts },
        }
    }
}

} // verus!
