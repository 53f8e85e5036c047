//! The canonical message, request and response vocabulary.
//!
//! Every provider translates to and from this model; the tool-calling loop
//! speaks nothing else. Messages are immutable once created and only ever
//! appended to a running sequence.

use vstd::prelude::*;

use crate::codec::{json_parse, json_text};
use crate::json::{JsonData, JsonValue};

verus! {

/// One entry of a conversation.
pub enum Message {
    User { content: String, response_id: Option<String> },
    Assistant { content: String, response_id: Option<String> },
    Thought { content: String },
    ToolCall { arguments: String, call_id: String, name: String },
    ToolOutput { call_id: String, output: JsonValue, name: String },
}

/// The mathematical shape of a [`Message`].
#[verifier::ext_equal]
pub enum MessageData {
    User { content: Seq<char>, response_id: Option<Seq<char>> },
    Assistant { content: Seq<char>, response_id: Option<Seq<char>> },
    Thought { content: Seq<char> },
    ToolCall { arguments: Seq<char>, call_id: Seq<char>, name: Seq<char> },
    ToolOutput { call_id: Seq<char>, output: JsonData, name: Seq<char> },
}

impl DeepView for Message {
    type V = MessageData;

    open spec fn deep_view(&self) -> MessageData {
        match self {
            Message::User { content, response_id } => MessageData::User {
                content: content@,
                response_id: response_id.deep_view(),
            },
            Message::Assistant { content, response_id } => MessageData::Assistant {
                content: content@,
                response_id: response_id.deep_view(),
            },
            Message::Thought { content } => MessageData::Thought { content: content@ },
            Message::ToolCall { arguments, call_id, name } => MessageData::ToolCall {
                arguments: arguments@,
                call_id: call_id@,
                name: name@,
            },
            Message::ToolOutput { call_id, output, name } => MessageData::ToolOutput {
                call_id: call_id@,
                output: output.deep_view(),
                name: name@,
            },
        }
    }
}

/// A tool invocation requested by the model inside a response.
pub struct ToolCallRequest {
    pub name: String,
    pub id: String,
    pub arguments: JsonValue,
}

/// The mathematical shape of a [`ToolCallRequest`].
#[verifier::ext_equal]
pub struct ToolCallRequestData {
    pub name: Seq<char>,
    pub id: Seq<char>,
    pub arguments: JsonData,
}

impl DeepView for ToolCallRequest {
    type V = ToolCallRequestData;

    open spec fn deep_view(&self) -> ToolCallRequestData {
        ToolCallRequestData { name: self.name@, id: self.id@, arguments: self.arguments.deep_view() }
    }
}

/// One content item of a completion response.
pub enum CompletionResponseContent {
    Text(String),
    Thought(String),
    ToolCall(ToolCallRequest),
}

/// The mathematical shape of a [`CompletionResponseContent`].
#[verifier::ext_equal]
pub enum ContentData {
    Text(Seq<char>),
    Thought(Seq<char>),
    ToolCall(ToolCallRequestData),
}

impl DeepView for CompletionResponseContent {
    type V = ContentData;

    open spec fn deep_view(&self) -> ContentData {
        match self {
            CompletionResponseContent::Text(t) => ContentData::Text(t@),
            CompletionResponseContent::Thought(t) => ContentData::Thought(t@),
            CompletionResponseContent::ToolCall(c) => ContentData::ToolCall(c.deep_view()),
        }
    }
}

/// A provider's answer to one completion request: an opaque continuation
/// handle and ordered content items.
pub struct CompletionResponse {
    pub response_id: String,
    pub contents: Vec<CompletionResponseContent>,
}

/// The mathematical shape of a [`CompletionResponse`].
#[verifier::ext_equal]
pub struct ResponseData {
    pub response_id: Seq<char>,
    pub contents: Seq<ContentData>,
}

impl DeepView for CompletionResponse {
    type V = ResponseData;

    open spec fn deep_view(&self) -> ResponseData {
        ResponseData { response_id: self.response_id@, contents: self.contents.deep_view() }
    }
}

/// A tool made visible to the model: a name, a description and a JSON
/// parameter schema.
pub struct ToolDefinition {
    pub kind: String,
    pub name: String,
    pub description: String,
    pub parameters: JsonValue,
}

/// The mathematical shape of a [`ToolDefinition`].
#[verifier::ext_equal]
pub struct ToolDefinitionData {
    pub kind: Seq<char>,
    pub name: Seq<char>,
    pub description: Seq<char>,
    pub parameters: JsonData,
}

impl DeepView for ToolDefinition {
    type V = ToolDefinitionData;

    open spec fn deep_view(&self) -> ToolDefinitionData {
        ToolDefinitionData {
            kind: self.kind@,
            name: self.name@,
            description: self.description@,
            parameters: self.parameters.deep_view(),
        }
    }
}

impl ToolDefinition {
    /// Builds a definition for a remote tool from the pieces a server handed
    /// back.
    pub fn default_for_mcp(
        kind: &str,
        name: &str,
        description: &str,
        parameters: JsonValue,
    ) -> (r: ToolDefinition)
        ensures
            r.deep_view() == (ToolDefinitionData {
                kind: kind@,
                name: name@,
                description: description@,
                parameters: parameters.deep_view(),
            }),
    {
        ToolDefinition {
            kind: kind.to_owned(),
            name: name.to_owned(),
            description: description.to_owned(),
            parameters,
        }
    }
}

impl ToolDefinition {
    /// An exact copy of the definition.
    pub fn duplicate(&self) -> (r: ToolDefinition)
        ensures
            r.deep_view() == self.deep_view(),
    {
        ToolDefinition {
            kind: self.kind.clone(),
            name: self.name.clone(),
            description: self.description.clone(),
            parameters: self.parameters.duplicate(),
        }
    }
}

/// One completion request: model id, optional system prompt, ordered
/// messages, sampling policy, and the tool definitions visible to the model.
/// The temperature is kept in thousandths, since the policy is only carried,
/// never computed with.
pub struct CompletionRequest {
    pub model: String,
    pub system: Option<String>,
    pub messages: Vec<Message>,
    pub temperature_milli: u32,
    pub max_tokens: i32,
    pub stream: bool,
    pub definitions: Vec<ToolDefinition>,
}

/// The mathematical shape of a [`CompletionRequest`].
#[verifier::ext_equal]
pub struct RequestData {
    pub model: Seq<char>,
    pub system: Option<Seq<char>>,
    pub messages: Seq<MessageData>,
    pub temperature_milli: u32,
    pub max_tokens: i32,
    pub stream: bool,
    pub definitions: Seq<ToolDefinitionData>,
}

impl DeepView for CompletionRequest {
    type V = RequestData;

    open spec fn deep_view(&self) -> RequestData {
        RequestData {
            model: self.model@,
            system: self.system.deep_view(),
            messages: self.messages.deep_view(),
            temperature_milli: self.temperature_milli,
            max_tokens: self.max_tokens,
            stream: self.stream,
            definitions: self.definitions.deep_view(),
        }
    }
}

/// One chunk of a streamed completion: a finite, non-restartable sequence of
/// these ends at the first chunk whose `is_final` is true.
pub struct CompletionChunkResponse {
    pub response_id: String,
    pub content: String,
    pub thinking: String,
    pub is_final: bool,
}

impl CompletionChunkResponse {
    /// An empty, non-final chunk: what a consumer sees for wire events that
    /// carry no text.
    pub fn default() -> (r: CompletionChunkResponse)
        ensures
            r.response_id@ == Seq::<char>::empty(),
            r.content@ == Seq::<char>::empty(),
            r.thinking@ == Seq::<char>::empty(),
            !r.is_final,
    {
        CompletionChunkResponse {
            response_id: String::new(),
            content: String::new(),
            thinking: String::new(),
            is_final: false,
        }
    }

    /// The terminal chunk: carries the continuation id and ends the stream.
    pub fn stop(id: String) -> (r: CompletionChunkResponse)
        ensures
            r.response_id@ == id@,
            r.content@ == Seq::<char>::empty(),
            r.thinking@ == Seq::<char>::empty(),
            r.is_final,
    {
        CompletionChunkResponse {
            response_id: id,
            content: String::new(),
            thinking: String::new(),
            is_final: true,
        }
    }

    /// A non-final chunk carrying text and, possibly, thinking text.
    pub fn content(content: String, thinking: String) -> (r: CompletionChunkResponse)
        ensures
            r.response_id@ == Seq::<char>::empty(),
            r.content@ == content@,
            r.thinking@ == thinking@,
            !r.is_final,
    {
        CompletionChunkResponse { response_id: String::new(), content, thinking, is_final: false }
    }
}

/// True of a response content item that asks for a tool invocation.
pub open spec fn is_tool_call(c: ContentData) -> bool {
    c is ToolCall
}

/// True of a response that contains at least one tool call; such a response
/// is never treated as terminal.
pub open spec fn has_tool_calls(r: ResponseData) -> bool {
    exists|i: int| 0 <= i < r.contents.len() && is_tool_call(#[trigger] r.contents[i])
}

impl CompletionResponse {
    /// Whether any content item is a tool call.
    pub fn has_tool_calls(&self) -> (r: bool)
        ensures
            r == has_tool_calls(self.deep_view()),
    {
        let mut k: usize = 0;
        while k < self.contents.len()
            invariant
                0 <= k <= self.contents.len(),
                self.contents.deep_view().len() == self.contents.len(),
                forall|i: int| 0 <= i < k ==> !is_tool_call(#[trigger] self.contents.deep_view()[i]),
            decreases self.contents.len() - k,
        {
            if let CompletionResponseContent::ToolCall(_) = &self.contents[k] {
                assert(is_tool_call(self.deep_view().contents[k as int]));
                return true;
            }
            assert(!is_tool_call(self.contents.deep_view()[k as int]));
            k += 1;
        }
        false
    }
}

impl Message {
    /// An exact copy of the message.
    pub fn duplicate(&self) -> (r: Message)
        ensures
            r.deep_view() == self.deep_view(),
    {
        match self {
            Message::User { content, response_id } => Message::User {
                content: content.clone(),
                response_id: duplicate_opt_string(response_id),
            },
            Message::Assistant { content, response_id } => Message::Assistant {
                content: content.clone(),
                response_id: duplicate_opt_string(response_id),
            },
            Message::Thought { content } => Message::Thought { content: content.clone() },
            Message::ToolCall { arguments, call_id, name } => Message::ToolCall {
                arguments: arguments.clone(),
                call_id: call_id.clone(),
                name: name.clone(),
            },
            Message::ToolOutput { call_id, output, name } => Message::ToolOutput {
                call_id: call_id.clone(),
                output: output.duplicate(),
                name: name.clone(),
            },
        }
    }
}

/// The continuation id a history carries: the last assistant turn's, if
/// any.
pub open spec fn last_assistant_id(msgs: Seq<MessageData>) -> Option<Seq<char>>
    decreases msgs.len(),
{
    if msgs.len() == 0 {
        None
    } else {
        match msgs.last() {
            MessageData::Assistant { response_id, .. } => response_id,
            _ => last_assistant_id(msgs.drop_last()),
        }
    }
}

/// An exact copy of an optional string.
pub fn duplicate_opt_string(v: &Option<String>) -> (r: Option<String>)
    ensures
        r.deep_view() == v.deep_view(),
{
    match v {
        Some(s) => Some(s.clone()),
        None => None,
    }
}

/// An exact copy of a message sequence.
pub fn duplicate_messages(v: &Vec<Message>) -> (r: Vec<Message>)
    ensures
        r.deep_view() == v.deep_view(),
{
    let mut out: Vec<Message> = Vec::new();
    let mut k: usize = 0;
    while k < v.len()
        invariant
            0 <= k <= v@.len(),
            out@.len() == k,
            forall|i: int| 0 <= i < k ==> (#[trigger] out@[i]).deep_view() == v@[i].deep_view(),
        decreases v@.len() - k,
    {
        out.push(v[k].duplicate());
        k += 1;
    }
    proof {
        assert(out.deep_view() =~= v.deep_view());
    }
    out
}

/// The user and assistant turns of a history, in order: each one's wire
/// role spelling and its content.
pub open spec fn plain_turns(msgs: Seq<MessageData>) -> Seq<(Seq<char>, Seq<char>)>
    decreases msgs.len(),
{
    if msgs.len() == 0 {
        Seq::empty()
    } else {
        let rest = plain_turns(msgs.drop_first());
        match msgs[0] {
            MessageData::User { content, .. } => seq![("user"@, content)] + rest,
            MessageData::Assistant { content, .. } => seq![("assistant"@, content)] + rest,
            _ => rest,
        }
    }
}

/// The tool calls a history echoes, in order: each one's parsed arguments,
/// call id and name. (Meaningful where every tool call's argument text
/// parses as JSON.)
pub open spec fn echoed_tool_calls(msgs: Seq<MessageData>) -> Seq<(JsonData, Seq<char>, Seq<char>)>
    decreases msgs.len(),
{
    if msgs.len() == 0 {
        Seq::empty()
    } else {
        let rest = echoed_tool_calls(msgs.drop_first());
        match msgs[0] {
            MessageData::ToolCall { arguments, call_id, name } => seq![
                (json_parse(arguments)->Some_0, call_id, name),
            ] + rest,
            _ => rest,
        }
    }
}

/// The tool outputs of a history, in order: each one's call id, printed
/// output text and name.
pub open spec fn echoed_tool_outputs(msgs: Seq<MessageData>) -> Seq<
    (Seq<char>, Seq<char>, Seq<char>),
>
    decreases msgs.len(),
{
    if msgs.len() == 0 {
        Seq::empty()
    } else {
        let rest = echoed_tool_outputs(msgs.drop_first());
        match msgs[0] {
            MessageData::ToolOutput { call_id, output, name } => seq![
                (call_id, json_text(output), name),
            ] + rest,
            _ => rest,
        }
    }
}

/// Appending one message appends its plain turn, or nothing.
pub proof fn lemma_plain_turns_push(msgs: Seq<MessageData>, m: MessageData)
    ensures
        plain_turns(msgs.push(m)) == plain_turns(msgs) + (match m {
            MessageData::User { content, .. } => seq![("user"@, content)],
            MessageData::Assistant { content, .. } => seq![("assistant"@, content)],
            _ => Seq::<(Seq<char>, Seq<char>)>::empty(),
        }),
    decreases msgs.len(),
{
    reveal_with_fuel(plain_turns, 2);
    let tail = (match m {
        MessageData::User { content, .. } => seq![("user"@, content)],
        MessageData::Assistant { content, .. } => seq![("assistant"@, content)],
        _ => Seq::<(Seq<char>, Seq<char>)>::empty(),
    });
    if msgs.len() == 0 {
        assert(msgs.push(m).drop_first() =~= Seq::<MessageData>::empty());
        assert(msgs.push(m)[0] == m);
        assert(plain_turns(msgs.push(m)) =~= plain_turns(msgs) + tail);
    } else {
        lemma_plain_turns_push(msgs.drop_first(), m);
        assert(msgs.push(m).drop_first() =~= msgs.drop_first().push(m));
        assert(msgs.push(m)[0] == msgs[0]);
        assert(plain_turns(msgs.push(m)) =~= plain_turns(msgs) + tail);
    }
}

/// Appending one message appends its echoed tool call, or nothing.
pub proof fn lemma_echoed_tool_calls_push(msgs: Seq<MessageData>, m: MessageData)
    ensures
        echoed_tool_calls(msgs.push(m)) == echoed_tool_calls(msgs) + (match m {
            MessageData::ToolCall { arguments, call_id, name } => seq![
                (json_parse(arguments)->Some_0, call_id, name),
            ],
            _ => Seq::<(JsonData, Seq<char>, Seq<char>)>::empty(),
        }),
    decreases msgs.len(),
{
    reveal_with_fuel(echoed_tool_calls, 2);
    let tail = (match m {
        MessageData::ToolCall { arguments, call_id, name } => seq![
            (json_parse(arguments)->Some_0, call_id, name),
        ],
        _ => Seq::<(JsonData, Seq<char>, Seq<char>)>::empty(),
    });
    if msgs.len() == 0 {
        assert(msgs.push(m).drop_first() =~= Seq::<MessageData>::empty());
        assert(msgs.push(m)[0] == m);
        assert(echoed_tool_calls(msgs.push(m)) =~= echoed_tool_calls(msgs) + tail);
    } else {
        lemma_echoed_tool_calls_push(msgs.drop_first(), m);
        assert(msgs.push(m).drop_first() =~= msgs.drop_first().push(m));
        assert(msgs.push(m)[0] == msgs[0]);
        assert(echoed_tool_calls(msgs.push(m)) =~= echoed_tool_calls(msgs) + tail);
    }
}

/// Appending one message appends its echoed tool output, or nothing.
pub proof fn lemma_echoed_tool_outputs_push(msgs: Seq<MessageData>, m: MessageData)
    ensures
        echoed_tool_outputs(msgs.push(m)) == echoed_tool_outputs(msgs) + (match m {
            MessageData::ToolOutput { call_id, output, name } => seq![
                (call_id, json_text(output), name),
            ],
            _ => Seq::<(Seq<char>, Seq<char>, Seq<char>)>::empty(),
        }),
    decreases msgs.len(),
{
    reveal_with_fuel(echoed_tool_outputs, 2);
    let tail = (match m {
        MessageData::ToolOutput { call_id, output, name } => seq![
            (call_id, json_text(output), name),
        ],
        _ => Seq::<(Seq<char>, Seq<char>, Seq<char>)>::empty(),
    });
    if msgs.len() == 0 {
        assert(msgs.push(m).drop_first() =~= Seq::<MessageData>::empty());
        assert(msgs.push(m)[0] == m);
        assert(echoed_tool_outputs(msgs.push(m)) =~= echoed_tool_outputs(msgs) + tail);
    } else {
        lemma_echoed_tool_outputs_push(msgs.drop_first(), m);
        assert(msgs.push(m).drop_first() =~= msgs.drop_first().push(m));
        assert(msgs.push(m)[0] == msgs[0]);
        assert(echoed_tool_outputs(msgs.push(m)) =~= echoed_tool_outputs(msgs) + tail);
    }
}

} // verus!
