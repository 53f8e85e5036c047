//! Remote tool servers: client, registry, and reply payload decoding.
//!
//! An [`MCPClient`] drives the three JSON-RPC operations against one server
//! through its adapter; the [`MCPRegistry`] maps server names to clients and
//! caches the definition of each remote tool that was explicitly registered,
//! under its qualified name.

use vstd::prelude::*;

use crate::adapter::ServerAdapter;
use crate::codec::{json_parse, parse_json};
use crate::errors::AgentError;
use crate::json::{json_get, JsonData, JsonValue};
use crate::model::{ToolDefinition, ToolDefinitionData};
use crate::names::{join_qualified, spec_join, spec_split, split_qualified};
use crate::rpc::{reply_payload_text, spec_reply_text_of, RpcRequestData};

verus! {

/// A remote server: its name, its endpoint, and the key sent with each
/// request.
pub struct MCPServerConfig {
    pub name: String,
    pub url: String,
    pub api_key: String,
}

/// The transport a client posts through. Implementations live outside the
/// library: they carry the HTTP leg and hand back the raw reply text, or the
/// text of a network or HTTP failure.
pub trait HttpPost: Sized {
    fn post_json(&mut self, url: &String, api_key: &String, body: &JsonValue) -> Result<
        String,
        String,
    >;
}

/// One entry of a server's coarse tool directory: name and description
/// only, no parameter schema.
pub struct MCPToolListDefinition {
    pub name: String,
    pub description: String,
}

/// The full definition of one remote tool, parameters included.
pub struct MCPToolGetDefinition {
    pub name: String,
    pub description: String,
    pub parameters: JsonValue,
}

/// The (name, description) pairs of a tool directory payload, or `None`
/// when some entry misses either string.
pub open spec fn spec_directory_items(items: Seq<JsonData>) -> Option<Seq<(Seq<char>, Seq<char>)>>
    decreases items.len(),
{
    if items.len() == 0 {
        Some(Seq::empty())
    } else {
        match (json_get(items[0], "name"@), json_get(items[0], "description"@)) {
            (Some(JsonData::Str(n)), Some(JsonData::Str(d))) => match spec_directory_items(
                items.drop_first(),
            ) {
                Some(rest) => Some(seq![(n, d)] + rest),
                None => None,
            },
            _ => None,
        }
    }
}

/// The directory a tool-list payload denotes.
pub open spec fn spec_directory(payload: JsonData) -> Option<Seq<(Seq<char>, Seq<char>)>> {
    match payload {
        JsonData::Arr(items) => spec_directory_items(items),
        _ => None,
    }
}

/// What a tool-get payload denotes: name, description and parameter schema.
pub open spec fn spec_tool_get(payload: JsonData) -> Option<(Seq<char>, Seq<char>, JsonData)> {
    match (
        json_get(payload, "name"@),
        json_get(payload, "description"@),
        json_get(payload, "parameters"@),
    ) {
        (Some(JsonData::Str(n)), Some(JsonData::Str(d)), Some(p)) => Some((n, d, p)),
        _ => None,
    }
}

/// The decode error for a payload of the wrong shape.
fn payload_err() -> (r: AgentError)
    ensures
        r is Decode,
{
    AgentError::Decode(
        {
            let m = "the payload does not have the expected shape";
            m.to_owned()
        },
    )
}

/// Parses a tool-list payload: a JSON array of objects, each carrying a
/// `name` and a `description` string.
pub fn parse_directory_payload(text: &str) -> (r: Result<Vec<MCPToolListDefinition>, AgentError>)
    ensures
        match r {
            Ok(defs) => ({
                &&& json_parse(text@) matches Some(d)
                &&& spec_directory(d) matches Some(pairs)
                &&& pairs.len() == defs@.len()
                &&& forall|i: int|
                    0 <= i < defs@.len() ==> ((#[trigger] defs@[i]).name@, defs@[i].description@)
                        == pairs[i]
            }),
            Err(e) => e is Decode && (match json_parse(text@) {
                Some(d) => spec_directory(d) is None,
                None => true,
            }),
        },
{
    let payload = match parse_json(text) {
        Some(v) => v,
        None => {
            return Err(payload_err());
        },
    };
    let items = match &payload {
        JsonValue::Arr(items) => items,
        _ => {
            return Err(payload_err());
        },
    };
    let ghost idata = payload.deep_view()->Arr_0;
    proof {
        assert(payload == JsonValue::Arr(*items));
        assert(idata.len() == items@.len());
        assert(idata.skip(0) =~= idata);
    }
    let mut defs: Vec<MCPToolListDefinition> = Vec::new();
    let mut k: usize = 0;
    while k < items.len()
        invariant
            0 <= k <= items@.len(),
            json_parse(text@) == Some(payload.deep_view()),
            payload == JsonValue::Arr(*items),
            idata == payload.deep_view()->Arr_0,
            idata.len() == items@.len(),
            defs@.len() == k,
            forall|i: int|
                0 <= i < k ==> json_get(#[trigger] idata[i], "name"@) == Some(
                    JsonData::Str(defs@[i].name@),
                ) && json_get(idata[i], "description"@) == Some(JsonData::Str(defs@[i].description@)),
            match spec_directory_items(idata.skip(k as int)) {
                Some(rest) => ({
                    &&& spec_directory_items(idata) matches Some(all)
                    &&& all.len() == k + rest.len()
                    &&& forall|i: int| 0 <= i < k ==> all[i] == (defs@[i].name@, defs@[i].description@)
                    &&& forall|i: int| 0 <= i < rest.len() ==> all[k + i] == rest[i]
                }),
                None => spec_directory_items(idata) is None,
            },
        decreases items@.len() - k,
    {
        proof {
            assert(idata[k as int] == crate::json::json_view(items@[k as int]));
            assert(idata.skip(k as int)[0] == idata[k as int]);
            assert(idata.skip(k as int).drop_first() =~= idata.skip(k as int + 1));
        }
        let item = &items[k];
        proof {
            assert(item.deep_view() == idata[k as int]);
        }
        let name = match item.get("name") {
            Some(JsonValue::Str(n)) => n.clone(),
            _ => {
                proof {
                    assert(spec_directory_items(idata.skip(k as int)) is None);
                }
                return Err(payload_err());
            },
        };
        let description = match item.get("description") {
            Some(JsonValue::Str(d)) => d.clone(),
            _ => {
                proof {
                    assert(spec_directory_items(idata.skip(k as int)) is None);
                }
                return Err(payload_err());
            },
        };
        proof {
            assert(json_get(idata[k as int], "name"@) == Some(JsonData::Str(name@)));
            assert(json_get(idata[k as int], "description"@) == Some(JsonData::Str(description@)));
            assert(spec_directory_items(idata.skip(k as int)) == (
            match spec_directory_items(idata.skip(k as int + 1)) {
                Some(rest1) => Some(seq![(name@, description@)] + rest1),
                None => None,
            }));
            let skip1 = spec_directory_items(idata.skip(k as int + 1));
            if skip1 is Some {
                let rest1 = skip1->Some_0;
                let rest = seq![(name@, description@)] + rest1;
                assert(spec_directory_items(idata.skip(k as int)) == Some(rest));
                assert(rest.len() == 1 + rest1.len());
                assert(rest[0] == (name@, description@));
                assert(forall|i: int| 0 <= i < rest1.len() ==> #[trigger] rest1[i] == rest[1 + i]);
            }
        }
        defs.push(MCPToolListDefinition { name, description });
        k += 1;
    }
    proof {
        assert(idata.skip(idata.len() as int) =~= Seq::<JsonData>::empty());
        assert(spec_directory_items(Seq::<JsonData>::empty()) == Some(
            Seq::<(Seq<char>, Seq<char>)>::empty(),
        ));
    }
    Ok(defs)
}

/// Parses a tool-get payload: an object carrying the tool's `name`,
/// `description` and `parameters`.
pub fn parse_tool_get_payload(text: &str) -> (r: Result<MCPToolGetDefinition, AgentError>)
    ensures
        match r {
            Ok(d) => ({
                &&& json_parse(text@) matches Some(payload)
                &&& spec_tool_get(payload) == Some(
                    (d.name@, d.description@, d.parameters.deep_view()),
                )
            }),
            Err(e) => e is Decode && (match json_parse(text@) {
                Some(payload) => spec_tool_get(payload) is None,
                None => true,
            }),
        },
{
    let payload = match parse_json(text) {
        Some(v) => v,
        None => {
            return Err(payload_err());
        },
    };
    let name = match payload.get("name") {
        Some(JsonValue::Str(n)) => n.clone(),
        _ => {
            return Err(payload_err());
        },
    };
    let description = match payload.get("description") {
        Some(JsonValue::Str(d)) => d.clone(),
        _ => {
            return Err(payload_err());
        },
    };
    let parameters = match payload.get("parameters") {
        Some(p) => p.duplicate(),
        None => {
            return Err(payload_err());
        },
    };
    Ok(MCPToolGetDefinition { name, description, parameters })
}

/// One wire exchange with a server: the envelope that was sent and the raw
/// reply text that answered it.
pub struct WireExchange {
    pub request: RpcRequestData,
    pub reply: Seq<char>,
}

/// True when a raw reply decodes, through the envelope, the adapter's
/// tool-list decoding and the directory payload shape, to these
/// (name, description) pairs.
pub open spec fn directory_decodes<A: ServerAdapter>(
    adapter: A,
    raw: Seq<char>,
    pairs: Seq<(Seq<char>, Seq<char>)>,
) -> bool {
    match spec_reply_text_of(raw) {
        Some(text) => match adapter.spec_decode_list(text) {
            Some(jtext) => match json_parse(jtext) {
                Some(d) => spec_directory(d) == Some(pairs),
                None => false,
            },
            None => false,
        },
        None => false,
    }
}

/// True when a raw reply decodes, through the envelope, the adapter's
/// tool-get decoding and the definition payload shape, to this definition.
pub open spec fn tool_decodes<A: ServerAdapter>(
    adapter: A,
    raw: Seq<char>,
    def: (Seq<char>, Seq<char>, JsonData),
) -> bool {
    match spec_reply_text_of(raw) {
        Some(text) => match adapter.spec_decode_get(text) {
            Some(jtext) => match json_parse(jtext) {
                Some(d) => spec_tool_get(d) == Some(def),
                None => false,
            },
            None => false,
        },
        None => false,
    }
}

/// True when a raw reply decodes, through the envelope, the adapter's
/// tool-call decoding and a JSON parse, to this result.
pub open spec fn result_decodes<A: ServerAdapter>(adapter: A, raw: Seq<char>, v: JsonData) -> bool {
    match spec_reply_text_of(raw) {
        Some(text) => match adapter.spec_decode_call(text) {
            Some(jtext) => json_parse(jtext) == Some(v),
            None => false,
        },
        None => false,
    }
}

/// The (name, description) pairs of a directory.
pub open spec fn directory_pairs(defs: Seq<MCPToolListDefinition>) -> Seq<(Seq<char>, Seq<char>)> {
    defs.map(|i: int, d: MCPToolListDefinition| (d.name@, d.description@))
}

/// A client bound to one server: its identity, its transport, its adapter,
/// and the ghost log of the wire exchanges it completed.
pub struct MCPClient<H, A> {
    pub name: String,
    pub url: String,
    pub api_key: String,
    pub transport: H,
    pub adapter: A,
    pub exchanges: Ghost<Seq<WireExchange>>,
}

impl<H: HttpPost, A: ServerAdapter> MCPClient<H, A> {
    /// True when the server identity is unchanged (the transport and the
    /// exchange log may have advanced).
    pub open spec fn same_identity(&self, other: &Self) -> bool {
        &&& self.name@ == other.name@
        &&& self.url@ == other.url@
        &&& self.api_key@ == other.api_key@
        &&& self.adapter == other.adapter
    }

    pub fn new(config: MCPServerConfig, adapter: A, transport: H) -> (r: Self)
        ensures
            r.name@ == config.name@,
            r.url@ == config.url@,
            r.api_key@ == config.api_key@,
            r.adapter == adapter,
            r.transport == transport,
            r.exchanges@ == Seq::<WireExchange>::empty(),
    {
        MCPClient {
            name: config.name,
            url: config.url,
            api_key: config.api_key,
            transport,
            adapter,
            exchanges: Ghost(Seq::empty()),
        }
    }

    /// Fetches the server's coarse tool directory: builds the adapter's
    /// tool-list request, posts it, and decodes the reply through the
    /// envelope, the adapter, and the directory payload shape. On success
    /// the returned directory is exactly what the logged reply decodes to.
    pub fn tool_list(&mut self) -> (r: Result<Vec<MCPToolListDefinition>, AgentError>)
        ensures
            final(self).same_identity(old(self)),
            old(self).exchanges@.is_prefix_of(final(self).exchanges@),
            r matches Err(e) ==> (e is Transport || e is Decode),
            r matches Ok(defs) ==> ({
                &&& final(self).exchanges@.len() == old(self).exchanges@.len() + 1
                &&& final(self).exchanges@.last().request == old(self).adapter.spec_list_request()
                &&& directory_decodes(
                    old(self).adapter,
                    final(self).exchanges@.last().reply,
                    directory_pairs(defs@),
                )
            }),
    {
        let request = self.adapter.build_tool_list_request();
        let ghost request_data = request.deep_view();
        let body = request.into_json();
        let raw = match self.transport.post_json(&self.url, &self.api_key, &body) {
            Ok(raw) => raw,
            Err(t) => {
                proof {
                    lemma_exchanges_prefix(self.exchanges@);
                }
                return Err(AgentError::Transport(t));
            },
        };
        proof {
            self.exchanges@ = self.exchanges@.push(
                WireExchange { request: request_data, reply: raw@ },
            );
            lemma_exchanges_push(old(self).exchanges@, self.exchanges@.last());
        }
        let text = reply_payload_text(raw.as_str())?;
        let payload = self.adapter.parse_tool_list_response(text)?;
        let defs = parse_directory_payload(payload.as_str())?;
        proof {
            assert(json_parse(payload@) matches Some(d) && spec_directory(d) == Some(
                directory_pairs(defs@),
            )) by {
                let d = json_parse(payload@)->Some_0;
                let pairs = spec_directory(d)->Some_0;
                assert(pairs =~= directory_pairs(defs@));
            }
        }
        Ok(defs)
    }

    /// Fetches one tool's full definition, parameter schema included. On
    /// success the returned definition is exactly what the logged reply
    /// decodes to.
    pub fn tool_get(&mut self, name: &str) -> (r: Result<MCPToolGetDefinition, AgentError>)
        ensures
            final(self).same_identity(old(self)),
            old(self).exchanges@.is_prefix_of(final(self).exchanges@),
            r matches Err(e) ==> (e is Transport || e is Decode),
            r matches Ok(got) ==> ({
                &&& final(self).exchanges@.len() == old(self).exchanges@.len() + 1
                &&& final(self).exchanges@.last().request == old(self).adapter.spec_get_request(
                    name@,
                )
                &&& tool_decodes(
                    old(self).adapter,
                    final(self).exchanges@.last().reply,
                    (got.name@, got.description@, got.parameters.deep_view()),
                )
            }),
    {
        let request = self.adapter.build_tool_get_request(name);
        let ghost request_data = request.deep_view();
        let body = request.into_json();
        let raw = match self.transport.post_json(&self.url, &self.api_key, &body) {
            Ok(raw) => raw,
            Err(t) => {
                proof {
                    lemma_exchanges_prefix(self.exchanges@);
                }
                return Err(AgentError::Transport(t));
            },
        };
        proof {
            self.exchanges@ = self.exchanges@.push(
                WireExchange { request: request_data, reply: raw@ },
            );
            lemma_exchanges_push(old(self).exchanges@, self.exchanges@.last());
        }
        let text = reply_payload_text(raw.as_str())?;
        let payload = self.adapter.parse_tool_get_response(text)?;
        parse_tool_get_payload(payload.as_str())
    }

    /// Invokes one tool and returns its JSON result. On success the result
    /// is exactly what the logged reply decodes to.
    pub fn tool_call(&mut self, name: &str, params: JsonValue) -> (r: Result<JsonValue, AgentError>)
        ensures
            final(self).same_identity(old(self)),
            old(self).exchanges@.is_prefix_of(final(self).exchanges@),
            r matches Err(e) ==> (e is Transport || e is Decode),
            r matches Ok(v) ==> ({
                &&& final(self).exchanges@.len() == old(self).exchanges@.len() + 1
                &&& final(self).exchanges@.last().request == old(self).adapter.spec_call_request(
                    name@,
                    params.deep_view(),
                )
                &&& result_decodes(
                    old(self).adapter,
                    final(self).exchanges@.last().reply,
                    v.deep_view(),
                )
            }),
    {
        let request = self.adapter.build_tool_call_request(name, params);
        let ghost request_data = request.deep_view();
        let body = request.into_json();
        let raw = match self.transport.post_json(&self.url, &self.api_key, &body) {
            Ok(raw) => raw,
            Err(t) => {
                proof {
                    lemma_exchanges_prefix(self.exchanges@);
                }
                return Err(AgentError::Transport(t));
            },
        };
        proof {
            self.exchanges@ = self.exchanges@.push(
                WireExchange { request: request_data, reply: raw@ },
            );
            lemma_exchanges_push(old(self).exchanges@, self.exchanges@.last());
        }
        let text = reply_payload_text(raw.as_str())?;
        let payload = self.adapter.parse_tool_call_response(text)?;
        match parse_json(payload.as_str()) {
            Some(v) => Ok(v),
            None => Err(
                AgentError::Decode(
                    {
                        let m = "the tool result is not JSON";
                        m.to_owned()
                    },
                ),
            ),
        }
    }
}

/// An exchange log is a prefix of itself.
proof fn lemma_exchanges_prefix(log: Seq<WireExchange>)
    ensures
        log.is_prefix_of(log),
{
    assert(log =~= log.take(log.len() as int));
}

/// An exchange log is a prefix of itself extended by one entry.
proof fn lemma_exchanges_push(log: Seq<WireExchange>, entry: WireExchange)
    ensures
        log.is_prefix_of(log.push(entry)),
{
    assert(log =~= log.push(entry).take(log.len() as int));
}

/// The first position of a key/// The first position of a key, or the sequence length when it is absent.
pub open spec fn first_key(keys: Seq<Seq<char>>, key: Seq<char>, i: int) -> int
    decreases keys.len() - i,
{
    if i < 0 || i >= keys.len() {
        keys.len() as int
    } else if keys[i] == key {
        i
    } else {
        first_key(keys, key, i + 1)
    }
}

/// A key scan lands between its start and the sequence length.
proof fn lemma_first_key_bounds(keys: Seq<Seq<char>>, key: Seq<char>, s: int)
    requires
        0 <= s <= keys.len(),
    ensures
        s <= first_key(keys, key, s) <= keys.len(),
    decreases keys.len() - s,
{
    if s < keys.len() && keys[s] != key {
        lemma_first_key_bounds(keys, key, s + 1);
    }
}

/// A successful scan lands on its key.
proof fn lemma_first_key_found(keys: Seq<Seq<char>>, key: Seq<char>, s: int)
    requires
        0 <= s <= keys.len(),
    ensures
        first_key(keys, key, s) < keys.len() ==> keys[first_key(keys, key, s)] == key,
    decreases keys.len() - s,
{
    if s < keys.len() && keys[s] != key {
        lemma_first_key_found(keys, key, s + 1);
    }
}

/// A scan finds the slot right after a key-free prefix.
proof fn lemma_first_key_prefix(keys: Seq<Seq<char>>, key: Seq<char>, s: int, k: int)
    requires
        0 <= s <= k < keys.len(),
        keys[k] == key,
        forall|i: int| s <= i < k ==> keys[i] != key,
    ensures
        first_key(keys, key, s) == k,
    decreases k - s,
{
    if s < k {
        lemma_first_key_prefix(keys, key, s + 1, k);
    }
}

/// Appending a slot with a different key leaves a scan's outcome alike.
proof fn lemma_first_key_skip_last(keys: Seq<Seq<char>>, up: Seq<Seq<char>>, key: Seq<char>, s: int)
    requires
        up.len() == keys.len() + 1,
        forall|i: int| 0 <= i < keys.len() ==> up[i] == keys[i],
        up[keys.len() as int] != key,
        0 <= s <= keys.len(),
    ensures
        first_key(keys, key, s) < keys.len() ==> first_key(up, key, s) == first_key(keys, key, s),
        first_key(keys, key, s) == keys.len() ==> first_key(up, key, s) == up.len(),
    decreases keys.len() - s,
{
    if s < keys.len() {
        lemma_first_key_skip_last(keys, up, key, s + 1);
    } else {
        assert(first_key(up, key, s + 1) == up.len());
    }
}

/// The remote-tool registry: one client per registered server, plus the
/// cached definitions of the remote tools that were explicitly registered.
/// The ghost `remote_calls` log records every invocation that was forwarded
/// to a server: the server name, the tool name and the arguments.
pub struct MCPRegistry<H, A> {
    pub clients: Vec<MCPClient<H, A>>,
    pub definitions: Vec<ToolDefinition>,
    pub remote_calls: Ghost<Seq<(Seq<char>, Seq<char>, JsonData)>>,
}

impl<H: HttpPost, A: ServerAdapter> MCPRegistry<H, A> {
    /// The registered server names, in slot order.
    pub open spec fn client_keys(&self) -> Seq<Seq<char>> {
        Seq::new(
            self.clients@.len(),
            |i: int|
                if 0 <= i < self.clients@.len() {
                    self.clients@[i].name@
                } else {
                    Seq::empty()
                },
        )
    }

    /// The cached qualified tool names, in slot order.
    pub open spec fn definition_keys(&self) -> Seq<Seq<char>> {
        Seq::new(
            self.definitions@.len(),
            |i: int|
                if 0 <= i < self.definitions@.len() {
                    self.definitions@[i].name@
                } else {
                    Seq::empty()
                },
        )
    }

    /// True when a server of this name is registered.
    pub open spec fn has_server(&self, name: Seq<char>) -> bool {
        first_key(self.client_keys(), name, 0) < self.clients@.len()
    }

    /// The client registered under a server name (meaningful when
    /// `has_server` holds of it).
    pub open spec fn spec_client(&self, name: Seq<char>) -> MCPClient<H, A> {
        self.clients@[first_key(self.client_keys(), name, 0)]
    }

    /// The cached definition under a qualified name, if any.
    pub open spec fn spec_definition(&self, qualified: Seq<char>) -> Option<ToolDefinitionData> {
        let i = first_key(self.definition_keys(), qualified, 0);
        if i < self.definitions@.len() {
            Some(self.definitions@[i].deep_view())
        } else {
            None
        }
    }

    pub fn new() -> (r: Self)
        ensures
            r.clients@.len() == 0,
            r.definitions@.len() == 0,
            r.remote_calls@ == Seq::<(Seq<char>, Seq<char>, JsonData)>::empty(),
    {
        MCPRegistry {
            clients: Vec::new(),
            definitions: Vec::new(),
            remote_calls: Ghost(Seq::empty()),
        }
    }

    /// The slot of the server with this name.
    fn find_client(&self, name: &str) -> (r: Option<usize>)
        ensures
            match r {
                Some(i) => i < self.clients@.len() && self.clients@[i as int].name@ == name@
                    && first_key(self.client_keys(), name@, 0) == i as int,
                None => !self.has_server(name@),
            },
    {
        let mut k: usize = 0;
        while k < self.clients.len()
            invariant
                0 <= k <= self.clients@.len(),
                first_key(self.client_keys(), name@, 0) == first_key(
                    self.client_keys(),
                    name@,
                    k as int,
                ),
            decreases self.clients@.len() - k,
        {
            if self.clients[k].name == name.to_owned() {
                return Some(k);
            }
            k += 1;
        }
        proof {
            lemma_first_key_bounds(self.client_keys(), name@, self.clients@.len() as int);
        }
        None
    }

    /// Registers a server and fetches its coarse tool directory through the
    /// given adapter. The directory is returned, not cached: a tool becomes
    /// callable only once it is registered explicitly. A server under the
    /// same name is replaced.
    pub fn register_server_with_adapter(
        &mut self,
        config: MCPServerConfig,
        adapter: A,
        transport: H,
    ) -> (r: Result<Vec<MCPToolListDefinition>, AgentError>)
        ensures
            final(self).definitions@ == old(self).definitions@,
            final(self).remote_calls@ == old(self).remote_calls@,
            match r {
                Ok(defs) => ({
                    &&& final(self).has_server(config.name@)
                    &&& final(self).clients@.len() <= old(self).clients@.len() + 1
                    &&& exists|raw: Seq<char>|
                        directory_decodes(adapter, raw, directory_pairs(defs@))
                }),
                Err(e) => *final(self) == *old(self) && (e is Transport || e is Decode),
            },
    {
        let mut client = MCPClient::new(config, adapter, transport);
        let directory = match client.tool_list() {
            Ok(d) => d,
            Err(e) => {
                return Err(e);
            },
        };
        proof {
            let raw = client.exchanges@.last().reply;
            assert(directory_decodes(adapter, raw, directory_pairs(directory@)));
        }
        let replace = self.find_client(client.name.as_str());
        match replace {
            Some(k) => {
                let ghost oldkeys = self.client_keys();
                self.clients.remove(k);
                self.clients.insert(k, client);
                proof {
                    assert(self.client_keys() =~= oldkeys);
                    assert(self.clients@[k as int].name@ == oldkeys[k as int]);
                }
            },
            None => {
                let ghost oldkeys = self.client_keys();
                let ghost oldlen = self.clients@.len() as int;
                let ghost cname = client.name@;
                self.clients.push(client);
                proof {
                    let keys = self.client_keys();
                    assert(keys[oldlen] == cname);
                    lemma_first_key_bounds(keys, cname, 0);
                    if first_key(keys, cname, 0) == keys.len() {
                        lemma_first_key_prefix_none(keys, cname, 0, oldlen);
                    }
                }
            },
        }
        Ok(directory)
    }

    /// Fetches the full definition of one tool of a registered server,
    /// caches it under the qualified name `"<server>___<tool>"`, and returns
    /// it. An unregistered server is an unknown-tool error.
    pub fn register_tool(&mut self, server_name: &str, tool_name: &str) -> (r: Result<
        ToolDefinition,
        AgentError,
    >)
        ensures
            final(self).remote_calls@ == old(self).remote_calls@,
            final(self).client_keys() == old(self).client_keys(),
            !old(self).has_server(server_name@) ==> (r matches Err(e) && e is UnknownTool
                && *final(self) == *old(self)),
            old(self).has_server(server_name@) ==> (r matches Err(e) ==> (e is Transport
                || e is Decode)),
            match r {
                Ok(d) => ({
                    &&& d.deep_view().name == spec_join(server_name@, tool_name@)
                    &&& d.deep_view().kind == "function"@
                    &&& exists|raw: Seq<char>, wire_name: Seq<char>|
                        tool_decodes(
                            old(self).spec_client(server_name@).adapter,
                            raw,
                            (wire_name, d.deep_view().description, d.deep_view().parameters),
                        )
                    &&& final(self).spec_definition(spec_join(server_name@, tool_name@)) == Some(
                        d.deep_view(),
                    )
                    &&& forall|n: Seq<char>|
                        n != spec_join(server_name@, tool_name@) ==> final(self).spec_definition(n)
                            == old(self).spec_definition(n)
                    &&& final(self).definitions@.len() <= old(self).definitions@.len() + 1
                }),
                Err(_) => final(self).definitions@ == old(self).definitions@,
            },
    {
        let k = match self.find_client(server_name) {
            Some(k) => k,
            None => {
                return Err(AgentError::UnknownTool(server_name.to_owned()));
            },
        };
        proof {
            assert(old(self).spec_client(server_name@) == self.clients@[k as int]);
        }
        let fetched = {
            let client = &mut self.clients[k];
            client.tool_get(tool_name)
        };
        proof {
            assert(self.client_keys() =~= old(self).client_keys());
        }
        let got = match fetched {
            Ok(g) => g,
            Err(e) => {
                return Err(e);
            },
        };
        proof {
            let fetched_client = self.clients@[k as int];
            let raw = fetched_client.exchanges@.last().reply;
            assert(tool_decodes(
                old(self).spec_client(server_name@).adapter,
                raw,
                (got.name@, got.description@, got.parameters.deep_view()),
            ));
        }
        let qualified = join_qualified(server_name, tool_name);
        let definition = ToolDefinition::default_for_mcp(
            "function",
            qualified.as_str(),
            got.description.as_str(),
            got.parameters,
        );
        let cached = definition.duplicate();
        self.cache_definition(cached);
        proof {
            let fetched_client = self.clients@[k as int];
            let raw = fetched_client.exchanges@.last().reply;
            assert(tool_decodes(
                old(self).spec_client(server_name@).adapter,
                raw,
                (got.name@, definition.deep_view().description, definition.deep_view().parameters),
            ));
        }
        Ok(definition)
    }

    /// Stores a definition under its name, replacing a cached one.
    fn cache_definition(&mut self, definition: ToolDefinition)
        ensures
            final(self).clients == old(self).clients,
            final(self).remote_calls@ == old(self).remote_calls@,
            final(self).spec_definition(definition.name@) == Some(definition.deep_view()),
            forall|n: Seq<char>|
                n != definition.name@ ==> final(self).spec_definition(n)
                    == old(self).spec_definition(n),
            final(self).definitions@.len() <= old(self).definitions@.len() + 1,
    {
        let ghost oldkeys = self.definition_keys();
        let mut k: usize = 0;
        while k < self.definitions.len()
            invariant
                0 <= k <= self.definitions@.len(),
                self.definitions@ == old(self).definitions@,
                self.clients == old(self).clients,
                self.remote_calls@ == old(self).remote_calls@,
                oldkeys == self.definition_keys(),
                forall|i: int| 0 <= i < k ==> oldkeys[i] != definition.name@,
            decreases self.definitions@.len() - k,
        {
            if self.definitions[k].name == definition.name {
                let ghost dname = definition.name@;
                let ghost dval = definition;
                self.definitions[k] = definition;
                proof {
                    assert(self.definitions@ == old(self).definitions@.update(k as int, dval));
                    assert(self.definition_keys() =~= oldkeys);
                    assert(oldkeys[k as int] == dname);
                    lemma_first_key_prefix(oldkeys, dname, 0, k as int);
                    assert forall|n: Seq<char>| n != dname implies final(self).spec_definition(n)
                        == old(self).spec_definition(n) by {
                        lemma_first_key_found(oldkeys, n, 0);
                        lemma_first_key_bounds(oldkeys, n, 0);
                        let i = first_key(oldkeys, n, 0);
                        if i < oldkeys.len() {
                            assert(oldkeys[i] == n);
                            assert(i != k as int);
                            assert(self.definitions@[i] == old(self).definitions@[i]);
                        }
                    }
                }
                return ;
            }
            k += 1;
        }
        let ghost oldlen = self.definitions@.len() as int;
        let ghost dname = definition.name@;
        self.definitions.push(definition);
        proof {
            let keys = self.definition_keys();
            assert(forall|i: int| 0 <= i < oldlen ==> keys[i] == oldkeys[i]);
            assert(keys[oldlen] == dname);
            lemma_first_key_prefix(keys, dname, 0, oldlen);
            assert forall|n: Seq<char>| n != dname implies final(self).spec_definition(n)
                == old(self).spec_definition(n) by {
                lemma_first_key_bounds(oldkeys, n, 0);
                lemma_first_key_skip_last(oldkeys, keys, n, 0);
            }
        }
    }

    /// Calls a remote tool through its qualified name: the name splits into
    /// server and tool, the server's client forwards the call. A name that
    /// does not split, or a server that is not registered, is an
    /// unknown-tool error, and nothing is forwarded.
    pub fn call_tool(&mut self, qualified: &str, params: JsonValue) -> (r: Result<
        JsonValue,
        AgentError,
    >)
        ensures
            final(self).definitions@ == old(self).definitions@,
            final(self).client_keys() == old(self).client_keys(),
            r matches Err(e) ==> (e is Transport || e is Decode || e is UnknownTool),
            match spec_split(qualified@) {
                None => ({
                    &&& r matches Err(e) && e is UnknownTool
                    &&& final(self).remote_calls@ == old(self).remote_calls@
                }),
                Some((server, tool)) => if old(self).has_server(server) {
                    &&& final(self).remote_calls@ == old(self).remote_calls@.push(
                        (server, tool, params.deep_view()),
                    )
                    &&& (r matches Ok(v) ==> exists|raw: Seq<char>|
                        result_decodes(old(self).spec_client(server).adapter, raw, v.deep_view()))
                } else {
                    &&& r matches Err(e) && e is UnknownTool
                    &&& final(self).remote_calls@ == old(self).remote_calls@
                },
            },
    {
        let (server, tool) = match split_qualified(qualified) {
            Some(pair) => pair,
            None => {
                return Err(AgentError::UnknownTool(qualified.to_owned()));
            },
        };
        let k = match self.find_client(server.as_str()) {
            Some(k) => k,
            None => {
                return Err(AgentError::UnknownTool(qualified.to_owned()));
            },
        };
        proof {
            self.remote_calls@ = self.remote_calls@.push((server@, tool@, params.deep_view()));
            assert(old(self).spec_client(server@) == self.clients@[k as int]);
        }
        let outcome = {
            let client = &mut self.clients[k];
            client.tool_call(tool.as_str(), params)
        };
        proof {
            assert(self.client_keys() =~= old(self).client_keys());
            match &outcome {
                Ok(v) => {
                    let raw = self.clients@[k as int].exchanges@.last().reply;
                    assert(result_decodes(
                        old(self).spec_client(server@).adapter,
                        raw,
                        v.deep_view(),
                    ));
                },
                Err(_) => {},
            }
        }
        outcome
    }
}

/// A scan that ran a full key-free prefix ends at the appended slot.
proof fn lemma_first_key_prefix_none(keys: Seq<Seq<char>>, key: Seq<char>, s: int, k: int)
    requires
        0 <= s <= k < keys.len(),
        keys[k] == key,
    ensures
        first_key(keys, key, s) <= k,
    decreases k - s,
{
    if s < k && keys[s] != key {
        lemma_first_key_prefix_none(keys, key, s + 1, k);
    }
}

impl<H: HttpPost> MCPRegistry<H, crate::adapter::StandardAdapter> {
    /// Registers a server under the standard adapter.
    pub fn register_server(&mut self, config: MCPServerConfig, transport: H) -> (r: Result<
        Vec<MCPToolListDefinition>,
        AgentError,
    >)
        ensures
            final(self).definitions@ == old(self).definitions@,
            final(self).remote_calls@ == old(self).remote_calls@,
            match r {
                Ok(_) => ({
                    &&& final(self).has_server(config.name@)
                    &&& final(self).clients@.len() <= old(self).clients@.len() + 1
                }),
                Err(_) => *final(self) == *old(self),
            },
    {
        self.register_server_with_adapter(config, crate::adapter::StandardAdapter {  }, transport)
    }
}

} // verus!
