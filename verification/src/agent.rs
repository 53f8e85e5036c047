//! The orchestration core: one client, a sampling policy, the two tool
//! registries, and the tool-calling completion loop.
//!
//! `complete_with_tools` drives the loop: it sends the running history,
//! executes every tool call of the answer (local tools first, remote tools
//! by qualified name), appends the tool-call/tool-output pairs and thoughts
//! to the history, and repeats — until an answer without tool calls arrives,
//! a tool fails, or the round bound is reached.

use vstd::prelude::*;

use crate::adapter::ServerAdapter;
use crate::codec::{json_text, print_json};
use crate::errors::AgentError;
use crate::json::{JsonData, JsonValue};
use crate::mcp::{HttpPost, MCPRegistry};
use crate::model::{
    duplicate_messages, duplicate_opt_string, has_tool_calls, CompletionRequest,
    CompletionResponse, CompletionResponseContent, ContentData, Message, MessageData, RequestData,
    ResponseData, ToolCallRequest, ToolDefinition, ToolDefinitionData,
};
use crate::errors::LlmFailure;
use crate::registry::{definitions_of, Tool, ToolRegistry};

verus! {

/// The round bound of the tool-calling loop: the only safeguard against
/// tool-call cycles. Reaching it without a final answer is fatal.
pub const MAX_TOOL_ROUNDS: usize = 5;

/// A provider client. Implementations live outside the library; each one
/// turns the canonical request into its vendor's wire schema and the reply
/// back. A failure is a typed transport or decode failure.
pub trait LlmClient: Sized {
    fn complete(&mut self, request: &CompletionRequest) -> Result<CompletionResponse, LlmFailure>;
}

/// One tool invocation the agent resolved and ran: which tool was asked
/// for, the arguments it was handed, and the result it returned.
pub struct ToolInvocation {
    pub name: Seq<char>,
    pub arguments: JsonData,
    pub output: JsonData,
}

/// The messages a round appends for one content item, against the tool
/// invocations it runs: a thought is kept and runs nothing, a plain text is
/// dropped and runs nothing, and a tool call runs exactly one invocation
/// under its own name and arguments and becomes the echoed tool-call
/// message followed by a tool-output message carrying that invocation's
/// result.
pub open spec fn unit_for(c: ContentData, unit: Seq<MessageData>, log: Seq<ToolInvocation>) -> bool {
    match c {
        ContentData::Thought(t) => unit.len() == 1 && unit[0] == (MessageData::Thought {
            content: t,
        }) && log.len() == 0,
        ContentData::Text(_) => unit.len() == 0 && log.len() == 0,
        ContentData::ToolCall(tc) => {
            &&& unit.len() == 2
            &&& log.len() == 1
            &&& log[0].name == tc.name
            &&& log[0].arguments == tc.arguments
            &&& unit[0] == (MessageData::ToolCall {
                arguments: json_text(tc.arguments),
                call_id: tc.id,
                name: tc.name,
            })
            &&& unit[1] == (MessageData::ToolOutput {
                call_id: tc.id,
                output: log[0].output,
                name: tc.name,
            })
        },
    }
}

/// The batch a round appends and the tool invocations it runs, item by
/// item, in provider order.
pub open spec fn batch_for(
    contents: Seq<ContentData>,
    batch: Seq<MessageData>,
    log: Seq<ToolInvocation>,
) -> bool
    decreases contents.len(),
{
    if contents.len() == 0 {
        batch.len() == 0 && log.len() == 0
    } else {
        match contents[0] {
            ContentData::Thought(t) => batch.len() >= 1 && batch[0] == (MessageData::Thought {
                content: t,
            }) && batch_for(contents.drop_first(), batch.drop_first(), log),
            ContentData::Text(_) => batch_for(contents.drop_first(), batch, log),
            ContentData::ToolCall(tc) => {
                &&& batch.len() >= 2
                &&& log.len() >= 1
                &&& log[0].name == tc.name
                &&& log[0].arguments == tc.arguments
                &&& batch[0] == (MessageData::ToolCall {
                    arguments: json_text(tc.arguments),
                    call_id: tc.id,
                    name: tc.name,
                })
                &&& batch[1] == (MessageData::ToolOutput {
                    call_id: tc.id,
                    output: log[0].output,
                    name: tc.name,
                })
                &&& batch_for(contents.drop_first(), batch.skip(2), log.drop_first())
            },
        }
    }
}

/// Some run of tool invocations produced this batch from these contents.
pub open spec fn batch_shape(contents: Seq<ContentData>, batch: Seq<MessageData>) -> bool {
    exists|log: Seq<ToolInvocation>| batch_for(contents, batch, log)
}

/// Processing one more content item appends that item's unit to the batch
/// and that item's invocations to the log.
proof fn lemma_batch_for_extend(
    contents: Seq<ContentData>,
    batch: Seq<MessageData>,
    log: Seq<ToolInvocation>,
    c: ContentData,
    unit: Seq<MessageData>,
    ulog: Seq<ToolInvocation>,
)
    requires
        batch_for(contents, batch, log),
        unit_for(c, unit, ulog),
    ensures
        batch_for(contents.push(c), batch + unit, log + ulog),
    decreases contents.len(),
{
    reveal_with_fuel(batch_for, 2);
    if contents.len() == 0 {
        assert(batch.len() == 0 && log.len() == 0);
        assert(batch + unit =~= unit);
        assert(log + ulog =~= ulog);
        assert(contents.push(c)[0] == c);
        assert(contents.push(c).drop_first() =~= Seq::<ContentData>::empty());
        match c {
            ContentData::Thought(t) => {
                assert(unit.drop_first() =~= Seq::<MessageData>::empty());
            },
            ContentData::Text(_) => {},
            ContentData::ToolCall(tc) => {
                assert(unit.skip(2) =~= Seq::<MessageData>::empty());
                assert(ulog.drop_first() =~= Seq::<ToolInvocation>::empty());
            },
        }
    } else {
        assert(contents.push(c)[0] == contents[0]);
        assert(contents.push(c).drop_first() =~= contents.drop_first().push(c));
        match contents[0] {
            ContentData::Thought(t) => {
                lemma_batch_for_extend(contents.drop_first(), batch.drop_first(), log, c, unit, ulog);
                assert((batch + unit).drop_first() =~= batch.drop_first() + unit);
                assert((batch + unit)[0] == batch[0]);
            },
            ContentData::Text(_) => {
                lemma_batch_for_extend(contents.drop_first(), batch, log, c, unit, ulog);
            },
            ContentData::ToolCall(tc) => {
                lemma_batch_for_extend(
                    contents.drop_first(),
                    batch.skip(2),
                    log.drop_first(),
                    c,
                    unit,
                    ulog,
                );
                assert((batch + unit).skip(2) =~= batch.skip(2) + unit);
                assert((log + ulog).drop_first() =~= log.drop_first() + ulog);
                assert((batch + unit)[0] == batch[0]);
                assert((batch + unit)[1] == batch[1]);
                assert((log + ulog)[0] == log[0]);
            },
        }
    }
}

/// Law: in a round's appended batch, every tool output echoes the call id
/// and the name of the tool call message appended immediately before it.
pub proof fn lemma_tool_output_echoes_call(
    contents: Seq<ContentData>,
    batch: Seq<MessageData>,
    log: Seq<ToolInvocation>,
    j: int,
)
    requires
        batch_for(contents, batch, log),
        0 <= j < batch.len(),
        batch[j] is ToolOutput,
    ensures
        j >= 1 && (batch[j - 1] matches MessageData::ToolCall { call_id, name, .. }
            && batch[j]->ToolOutput_call_id == call_id && batch[j]->ToolOutput_name == name),
    decreases contents.len(),
{
    match contents[0] {
        ContentData::Thought(t) => {
            assert(batch[0] is Thought);
            lemma_tool_output_echoes_call(contents.drop_first(), batch.drop_first(), log, j - 1);
            assert(batch.drop_first()[j - 1] == batch[j]);
            assert(batch.drop_first()[j - 2] == batch[j - 1]);
        },
        ContentData::Text(_) => {
            lemma_tool_output_echoes_call(contents.drop_first(), batch, log, j);
        },
        ContentData::ToolCall(tc) => {
            if j == 1 {
            } else {
                assert(batch[0] is ToolCall);
                assert(j >= 2);
                lemma_tool_output_echoes_call(
                    contents.drop_first(),
                    batch.skip(2),
                    log.drop_first(),
                    j - 2,
                );
                assert(batch.skip(2)[j - 2] == batch[j]);
                if j >= 3 {
                    assert(batch.skip(2)[j - 3] == batch[j - 1]);
                }
            }
        },
    }
}

/// How one history entry advances to the next: the request keeps everything
/// but its messages, which grow by exactly the batch that the previous
/// response's contents prescribe.
pub open spec fn round_advances(
    prev: (RequestData, ResponseData),
    next: (RequestData, ResponseData),
) -> bool {
    &&& next.0.model == prev.0.model
    &&& next.0.system == prev.0.system
    &&& next.0.temperature_milli == prev.0.temperature_milli
    &&& next.0.max_tokens == prev.0.max_tokens
    &&& next.0.stream == prev.0.stream
    &&& next.0.definitions == prev.0.definitions
    &&& prev.0.messages.is_prefix_of(next.0.messages)
    &&& batch_shape(prev.1.contents, next.0.messages.skip(prev.0.messages.len() as int))
}

/// A prefix of a prefix is a prefix.
proof fn lemma_prefix_trans<X>(a: Seq<X>, b: Seq<X>, c: Seq<X>)
    requires
        a.is_prefix_of(b),
        b.is_prefix_of(c),
    ensures
        a.is_prefix_of(c),
{
    assert(a =~= c.take(a.len() as int));
}

/// The orchestration core: one provider client, a sampling policy, the
/// local tool registry and the remote tool registry.
pub struct Agent<C, T, H, A> {
    pub model: String,
    pub system: Option<String>,
    pub temperature_milli: u32,
    pub max_tokens: i32,
    pub client: C,
    pub tool_registry: ToolRegistry<T>,
    pub mcp_registry: MCPRegistry<H, A>,
    /// Every exchange this agent completed: each request it sent with the
    /// response that answered it, in order.
    pub history: Ghost<Seq<(RequestData, ResponseData)>>,
    /// Every tool invocation this agent resolved and ran, in order: the
    /// name it dispatched on, the arguments, and the returned result.
    pub tool_log: Ghost<Seq<ToolInvocation>>,
}

impl<C: LlmClient, T: Tool, H: HttpPost, A: ServerAdapter> Agent<C, T, H, A> {
    /// An agent over one client, one sampling policy and the two
    /// registries, with an empty exchange history.
    pub fn new(
        model: String,
        system: Option<String>,
        temperature_milli: u32,
        max_tokens: i32,
        client: C,
        tool_registry: ToolRegistry<T>,
        mcp_registry: MCPRegistry<H, A>,
    ) -> (r: Agent<C, T, H, A>)
        ensures
            r.model@ == model@,
            r.system == system,
            r.temperature_milli == temperature_milli,
            r.max_tokens == max_tokens,
            r.client == client,
            r.tool_registry == tool_registry,
            r.mcp_registry == mcp_registry,
            r.history@ == Seq::<(RequestData, ResponseData)>::empty(),
            r.tool_log@ == Seq::<ToolInvocation>::empty(),
    {
        Agent {
            model,
            system,
            temperature_milli,
            max_tokens,
            client,
            tool_registry,
            mcp_registry,
            history: Ghost(Seq::empty()),
            tool_log: Ghost(Seq::empty()),
        }
    }

    /// Sends one request through the client and records the exchange.
    fn send(&mut self, request: &CompletionRequest) -> (r: Result<CompletionResponse, AgentError>)
        ensures
            final(self).same_setup(old(self)),
            final(self).mcp_registry == old(self).mcp_registry,
            final(self).tool_log@ == old(self).tool_log@,
            match r {
                Ok(resp) => final(self).history@ == old(self).history@.push(
                    (request.deep_view(), resp.deep_view()),
                ),
                Err(e) => final(self).history@ == old(self).history@ && (e is Transport
                    || e is Decode),
            },
    {
        match self.client.complete(request) {
            Ok(resp) => {
                proof {
                    self.history@ = self.history@.push((request.deep_view(), resp.deep_view()));
                }
                Ok(resp)
            },
            Err(LlmFailure::Transport(m)) => Err(AgentError::Transport(m)),
            Err(LlmFailure::Decode(m)) => Err(AgentError::Decode(m)),
        }
    }

    /// True when the agent's configuration and local registry are those of
    /// `other` (the client, the history and the remote registry may have
    /// advanced).
    pub open spec fn same_setup(&self, other: &Self) -> bool {
        &&& self.model@ == other.model@
        &&& self.system.deep_view() == other.system.deep_view()
        &&& self.temperature_milli == other.temperature_milli
        &&& self.max_tokens == other.max_tokens
        &&& self.tool_registry == other.tool_registry
    }

    /// The definitions visible to the model: the local tools' definitions
    /// followed by the cached remote definitions.
    pub open spec fn spec_definitions(&self) -> Seq<ToolDefinitionData> {
        definitions_of(self.tool_registry.spec_tools()) + self.mcp_registry.definitions.deep_view()
    }

    /// The request a tool-calling round sends for a message history.
    pub open spec fn spec_tools_request(&self, messages: Seq<MessageData>) -> RequestData {
        RequestData {
            model: self.model@,
            system: self.system.deep_view(),
            messages,
            temperature_milli: self.temperature_milli,
            max_tokens: self.max_tokens,
            stream: false,
            definitions: self.spec_definitions(),
        }
    }

    /// The request a plain completion sends: no tool definitions.
    pub open spec fn spec_plain_request(&self, messages: Seq<MessageData>) -> RequestData {
        RequestData {
            model: self.model@,
            system: self.system.deep_view(),
            messages,
            temperature_milli: self.temperature_milli,
            max_tokens: self.max_tokens,
            stream: false,
            definitions: Seq::empty(),
        }
    }

    /// The configured token budget.
    pub fn max_tokens(&self) -> (r: i32)
        ensures
            r == self.max_tokens,
    {
        self.max_tokens
    }

    /// The configured temperature, in thousandths.
    pub fn temperature_milli(&self) -> (r: u32)
        ensures
            r == self.temperature_milli,
    {
        self.temperature_milli
    }

    /// One completion over the given messages, without any tool handling:
    /// exactly one request is sent and its response returned verbatim.
    pub fn complete(&mut self, messages: &Vec<Message>) -> (r: Result<
        CompletionResponse,
        AgentError,
    >)
        ensures
            final(self).same_setup(old(self)),
            final(self).mcp_registry == old(self).mcp_registry,
            final(self).tool_log@ == old(self).tool_log@,
            match r {
                Ok(resp) => final(self).history@ == old(self).history@.push(
                    (old(self).spec_plain_request(messages.deep_view()), resp.deep_view()),
                ),
                Err(_) => final(self).history@ == old(self).history@,
            },
    {
        let request = CompletionRequest {
            model: self.model.clone(),
            system: duplicate_opt_string(&self.system),
            messages: duplicate_messages(messages),
            temperature_milli: self.temperature_milli,
            max_tokens: self.max_tokens,
            stream: false,
            definitions: Vec::new(),
        };
        proof {
            assert(request.deep_view().definitions =~= Seq::<ToolDefinitionData>::empty());
            assert(request.deep_view() =~= old(self).spec_plain_request(messages.deep_view()));
        }
        self.send(&request)
    }

    /// The provider-visible definitions: local tools first, then the cached
    /// remote definitions.
    pub fn build_definitions(&self) -> (r: Vec<ToolDefinition>)
        ensures
            r.deep_view() == self.spec_definitions(),
    {
        let mut out = self.tool_registry.definitions();
        let ghost locals = definitions_of(self.tool_registry.spec_tools());
        let mut k: usize = 0;
        while k < self.mcp_registry.definitions.len()
            invariant
                0 <= k <= self.mcp_registry.definitions@.len(),
                locals == definitions_of(self.tool_registry.spec_tools()),
                out@.len() == locals.len() + k,
                forall|i: int| 0 <= i < locals.len() ==> (#[trigger] out@[i]).deep_view() == locals[i],
                forall|j: int|
                    locals.len() <= j < out@.len() ==> (#[trigger] out@[j]).deep_view()
                        == self.mcp_registry.definitions@[j - locals.len()].deep_view(),
            decreases self.mcp_registry.definitions@.len() - k,
        {
            out.push(self.mcp_registry.definitions[k].duplicate());
            k += 1;
        }
        proof {
            assert(out.deep_view() =~= self.spec_definitions());
        }
        out
    }

    /// Resolves and runs one tool call: the local registry first; only a
    /// name with no local registration is delegated to the remote registry.
    /// A locally registered name never reaches a remote server.
    pub fn execute_tool_call(&mut self, call: &ToolCallRequest) -> (r: Result<
        JsonValue,
        AgentError,
    >)
        ensures
            final(self).same_setup(old(self)),
            final(self).client == old(self).client,
            final(self).history@ == old(self).history@,
            final(self).mcp_registry.definitions@ == old(self).mcp_registry.definitions@,
            final(self).mcp_registry.client_keys() == old(self).mcp_registry.client_keys(),
            r matches Err(e) ==> !(e is LoopBoundExceeded),
            match r {
                Ok(v) => final(self).tool_log@ == old(self).tool_log@.push(
                    ToolInvocation {
                        name: call.name@,
                        arguments: call.arguments.deep_view(),
                        output: v.deep_view(),
                    },
                ),
                Err(_) => final(self).tool_log@ == old(self).tool_log@,
            },
            old(self).tool_registry.has_tool(call.name@) ==> final(self).mcp_registry == old(
                self,
            ).mcp_registry,
            !old(self).tool_registry.has_tool(call.name@) ==> match crate::names::spec_split(
                call.name@,
            ) {
                None => final(self).mcp_registry.remote_calls@ == old(
                    self,
                ).mcp_registry.remote_calls@,
                Some((server, tool)) => if old(self).mcp_registry.has_server(server) {
                    final(self).mcp_registry.remote_calls@ == old(
                        self,
                    ).mcp_registry.remote_calls@.push((server, tool, call.arguments.deep_view()))
                } else {
                    final(self).mcp_registry.remote_calls@ == old(
                        self,
                    ).mcp_registry.remote_calls@
                },
            },
    {
        let local = self.tool_registry.get_tool(call.name.as_str());
        let outcome = match local {
            Some(registered) => registered.execute(&call.arguments),
            None => self.mcp_registry.call_tool(call.name.as_str(), call.arguments.duplicate()),
        };
        match &outcome {
            Ok(v) => {
                proof {
                    self.tool_log@ = self.tool_log@.push(
                        ToolInvocation {
                            name: call.name@,
                            arguments: call.arguments.deep_view(),
                            output: v.deep_view(),
                        },
                    );
                }
            },
            Err(_) => {},
        }
        outcome
    }

    /// Walks a response's content items in provider order and builds the
    /// round's batch: thoughts are kept, plain text is dropped, and each
    /// tool call is executed and echoed as a tool-call message followed by
    /// a tool-output message carrying the invocation's result. A response
    /// without tool calls always succeeds; the first failure aborts the
    /// round.
    pub fn process_contents(&mut self, response: &CompletionResponse) -> (r: Result<
        Vec<Message>,
        AgentError,
    >)
        ensures
            final(self).same_setup(old(self)),
            final(self).client == old(self).client,
            final(self).history@ == old(self).history@,
            old(self).tool_log@.is_prefix_of(final(self).tool_log@),
            (forall|i: int|
                0 <= i < response.deep_view().contents.len() ==> !((
                #[trigger] response.deep_view().contents[i]) is ToolCall)) ==> r is Ok,
            match r {
                Ok(batch) => batch_for(
                    response.deep_view().contents,
                    batch.deep_view(),
                    final(self).tool_log@.skip(old(self).tool_log@.len() as int),
                ),
                Err(e) => !(e is LoopBoundExceeded),
            },
    {
        let ghost cdata = response.deep_view().contents;
        let ghost log0 = self.tool_log@;
        let mut batch: Vec<Message> = Vec::new();
        let mut k: usize = 0;
        proof {
            assert(cdata.take(0) =~= Seq::<ContentData>::empty());
            assert(batch.deep_view() =~= Seq::<MessageData>::empty());
            assert(log0.skip(log0.len() as int) =~= Seq::<ToolInvocation>::empty());
            assert(log0.is_prefix_of(log0)) by {
                assert(log0 =~= log0.take(log0.len() as int));
            }
        }
        while k < response.contents.len()
            invariant
                0 <= k <= response.contents@.len(),
                cdata == response.deep_view().contents,
                cdata.len() == response.contents@.len(),
                log0 == old(self).tool_log@,
                self.same_setup(old(self)),
                self.client == old(self).client,
                self.history@ == old(self).history@,
                log0.is_prefix_of(self.tool_log@),
                batch_for(
                    cdata.take(k as int),
                    batch.deep_view(),
                    self.tool_log@.skip(log0.len() as int),
                ),
            decreases response.contents@.len() - k,
        {
            let ghost batch_before = batch.deep_view();
            let ghost seg_before = self.tool_log@.skip(log0.len() as int);
            proof {
                assert(cdata[k as int] == response.contents@[k as int].deep_view());
                assert(cdata.take(k as int).push(cdata[k as int]) =~= cdata.take(k as int + 1));
            }
            match &response.contents[k] {
                CompletionResponseContent::Thought(text) => {
                    batch.push(Message::Thought { content: text.clone() });
                    proof {
                        let unit = seq![MessageData::Thought { content: text@ }];
                        assert(batch.deep_view() =~= batch_before + unit);
                        assert(self.tool_log@.skip(log0.len() as int) =~= seg_before
                            + Seq::<ToolInvocation>::empty());
                        lemma_batch_for_extend(
                            cdata.take(k as int),
                            batch_before,
                            seg_before,
                            cdata[k as int],
                            unit,
                            Seq::empty(),
                        );
                    }
                },
                CompletionResponseContent::Text(_) => {
                    proof {
                        let unit = Seq::<MessageData>::empty();
                        assert(batch.deep_view() =~= batch_before + unit);
                        assert(self.tool_log@.skip(log0.len() as int) =~= seg_before
                            + Seq::<ToolInvocation>::empty());
                        lemma_batch_for_extend(
                            cdata.take(k as int),
                            batch_before,
                            seg_before,
                            cdata[k as int],
                            unit,
                            Seq::empty(),
                        );
                    }
                },
                CompletionResponseContent::ToolCall(tc) => {
                    let arguments_text = print_json(&tc.arguments);
                    let output = match self.execute_tool_call(tc) {
                        Ok(output) => output,
                        Err(e) => {
                            proof {
                                assert(cdata[k as int] is ToolCall);
                            }
                            return Err(e);
                        },
                    };
                    let ghost invocation = ToolInvocation {
                        name: tc.name@,
                        arguments: tc.arguments.deep_view(),
                        output: output.deep_view(),
                    };
                    let call_message = Message::ToolCall {
                        arguments: arguments_text,
                        call_id: tc.id.clone(),
                        name: tc.name.clone(),
                    };
                    let output_message = Message::ToolOutput {
                        call_id: tc.id.clone(),
                        output,
                        name: tc.name.clone(),
                    };
                    let ghost unit = seq![call_message.deep_view(), output_message.deep_view()];
                    batch.push(call_message);
                    batch.push(output_message);
                    proof {
                        assert(batch.deep_view() =~= batch_before + unit);
                        assert(self.tool_log@ == log0.take(log0.len() as int) + seg_before.push(
                            invocation,
                        )) by {
                            assert(self.tool_log@ =~= log0.take(log0.len() as int)
                                + seg_before.push(invocation));
                        }
                        assert(self.tool_log@.skip(log0.len() as int) =~= seg_before + seq![
                            invocation,
                        ]);
                        assert(log0.is_prefix_of(self.tool_log@)) by {
                            assert(log0 =~= self.tool_log@.take(log0.len() as int));
                        }
                        assert(unit_for(cdata[k as int], unit, seq![invocation]));
                        lemma_batch_for_extend(
                            cdata.take(k as int),
                            batch_before,
                            seg_before,
                            cdata[k as int],
                            unit,
                            seq![invocation],
                        );
                    }
                },
            }
            k += 1;
        }
        proof {
            assert(cdata.take(cdata.len() as int) =~= cdata);
        }
        Ok(batch)
    }

    /// The central algorithm: sends the running history, and as long as the
    /// answer carries tool calls, executes them, appends the round's batch
    /// and asks again — at most [`MAX_TOOL_ROUNDS`] times. The first answer
    /// without a tool call is returned unchanged; reaching the bound is a
    /// loop-bound error, never a partial answer.
    pub fn complete_with_tools(&mut self, messages: &Vec<Message>) -> (r: Result<
        CompletionResponse,
        AgentError,
    >)
        ensures
            final(self).same_setup(old(self)),
            old(self).tool_log@.is_prefix_of(final(self).tool_log@),
            tools_loop_contract(
                old(self).history@,
                final(self).history@,
                old(self).spec_tools_request(messages.deep_view()),
                match r {
                    Ok(resp) => Ok(resp.deep_view()),
                    Err(e) => Err(e),
                },
            ),
    {
        let ghost h0 = self.history@;
        let definitions = self.build_definitions();
        let mut request = CompletionRequest {
            model: self.model.clone(),
            system: duplicate_opt_string(&self.system),
            messages: duplicate_messages(messages),
            temperature_milli: self.temperature_milli,
            max_tokens: self.max_tokens,
            stream: false,
            definitions,
        };
        proof {
            assert(request.deep_view() =~= old(self).spec_tools_request(messages.deep_view()));
        }
        let mut rounds: usize = 0;
        while rounds < MAX_TOOL_ROUNDS
            invariant
                0 <= rounds <= MAX_TOOL_ROUNDS,
                self.same_setup(old(self)),
                h0 == old(self).history@,
                old(self).tool_log@.is_prefix_of(self.tool_log@),
                self.history@.len() == h0.len() + rounds,
                forall|i: int| 0 <= i < h0.len() ==> self.history@[i] == h0[i],
                request.deep_view() == old(self).spec_tools_request(
                    request.messages.deep_view(),
                ),
                rounds == 0 ==> request.messages.deep_view() == messages.deep_view(),
                rounds > 0 ==> ({
                    let h = self.history@;
                    let prev = h.last();
                    &&& prev.0.messages.is_prefix_of(request.messages.deep_view())
                    &&& batch_shape(
                        prev.1.contents,
                        request.messages.deep_view().skip(prev.0.messages.len() as int),
                    )
                    &&& prev.0 == old(self).spec_tools_request(prev.0.messages)
                }),
                forall|i: int|
                    h0.len() <= i < self.history@.len() ==> has_tool_calls(
                        (#[trigger] self.history@[i]).1,
                    ),
                h0.len() < self.history@.len() ==> self.history@[h0.len() as int].0
                    == old(self).spec_tools_request(messages.deep_view()),
                forall|i: int|
                    h0.len() < i < self.history@.len() ==> round_advances(
                        #[trigger] self.history@[i - 1],
                        self.history@[i],
                    ),
            decreases MAX_TOOL_ROUNDS - rounds,
        {
            let response = match self.send(&request) {
                Ok(resp) => resp,
                Err(e) => {
                    return Err(e);
                },
            };
            proof {
                assert(self.history@.last() == (
                    request.deep_view(),
                    response.deep_view(),
                ));
            }
            if !response.has_tool_calls() {
                return Ok(response);
            }
            let ghost log_before = self.tool_log@;
            let mut batch = match self.process_contents(&response) {
                Ok(batch) => batch,
                Err(e) => {
                    return Err(e);
                },
            };
            let ghost round_log = self.tool_log@.skip(log_before.len() as int);
            let ghost messages_before = request.messages.deep_view();
            let ghost batch_data = batch.deep_view();
            request.messages.append(&mut batch);
            proof {
                lemma_prefix_trans(old(self).tool_log@, log_before, self.tool_log@);
                assert(batch_for(response.deep_view().contents, batch_data, round_log));
                assert(batch_shape(response.deep_view().contents, batch_data));
                assert(request.messages.deep_view() =~= messages_before + batch_data);
                assert(messages_before.is_prefix_of(request.messages.deep_view())) by {
                    assert(request.messages.deep_view().take(messages_before.len() as int)
                        =~= messages_before);
                }
                assert(request.messages.deep_view().skip(messages_before.len() as int)
                    =~= batch_data);
                assert(request.deep_view() =~= old(self).spec_tools_request(
                    request.messages.deep_view(),
                ));
            }
            rounds += 1;
        }
        Err(AgentError::LoopBoundExceeded)
    }
}

/// What `complete_with_tools` guarantees of the client history it leaves
/// behind, written out once so that laws can be stated against it: `h0` is
/// the history before the call, `h1` the history after it, `first` the
/// request the first round sent, and `r` the outcome's shape.
pub open spec fn tools_loop_contract(
    h0: Seq<(RequestData, ResponseData)>,
    h1: Seq<(RequestData, ResponseData)>,
    first: RequestData,
    r: Result<ResponseData, AgentError>,
) -> bool {
    &&& h0.len() <= h1.len() <= h0.len() + MAX_TOOL_ROUNDS
    &&& forall|i: int| 0 <= i < h0.len() ==> h1[i] == h0[i]
    &&& (h1.len() > h0.len() ==> h1[h0.len() as int].0 == first)
    &&& forall|i: int| h0.len() <= i < h1.len() - 1 ==> has_tool_calls((#[trigger] h1[i]).1)
    &&& forall|i: int| h0.len() < i < h1.len() ==> round_advances(#[trigger] h1[i - 1], h1[i])
    &&& match r {
        Ok(resp) => h1.len() > h0.len() && resp == h1.last().1 && !has_tool_calls(h1.last().1),
        Err(e) => if e is LoopBoundExceeded {
            h1.len() == h0.len() + MAX_TOOL_ROUNDS && forall|i: int|
                h0.len() <= i < h1.len() ==> has_tool_calls((#[trigger] h1[i]).1)
        } else {
            h1.len() == h0.len() || has_tool_calls(h1.last().1)
        },
    }
}

/// Law: in a conversation whose first response contains no tool call, the
/// loop made exactly one request and returned that response unchanged.
pub proof fn lemma_first_answer_is_final(
    h0: Seq<(RequestData, ResponseData)>,
    h1: Seq<(RequestData, ResponseData)>,
    first: RequestData,
    r: Result<ResponseData, AgentError>,
)
    requires
        tools_loop_contract(h0, h1, first, r),
        h1.len() > h0.len(),
        !has_tool_calls(h1[h0.len() as int].1),
    ensures
        h1.len() == h0.len() + 1,
        r == Result::<ResponseData, AgentError>::Ok(h1[h0.len() as int].1),
{
    if h1.len() > h0.len() + 1 {
        assert(has_tool_calls(h1[h0.len() as int].1));
    }
    match r {
        Ok(resp) => {
            assert(h1.last() == h1[h0.len() as int]);
        },
        Err(e) => {
            if e is LoopBoundExceeded {
                assert(has_tool_calls(h1[h0.len() as int].1));
            } else {
                assert(h1.last() == h1[h0.len() as int]);
                assert(has_tool_calls(h1[h0.len() as int].1));
            }
        },
    }
}

/// Law: the loop never issues more requests than the round bound, and a
/// conversation that still asks for tools after the final round ends in the
/// loop-bound error, never in a partial answer.
pub proof fn lemma_round_bound(
    h0: Seq<(RequestData, ResponseData)>,
    h1: Seq<(RequestData, ResponseData)>,
    first: RequestData,
    r: Result<ResponseData, AgentError>,
)
    requires
        tools_loop_contract(h0, h1, first, r),
        forall|i: int| h0.len() <= i < h1.len() ==> has_tool_calls((#[trigger] h1[i]).1),
    ensures
        h1.len() - h0.len() <= MAX_TOOL_ROUNDS,
        !(r is Ok),
{
    if r matches Ok(resp) {
        assert(has_tool_calls(h1.last().1));
    }
}

} // verus!
