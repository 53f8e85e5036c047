//! Per-server request/reply strategies.
//!
//! Remote servers share one JSON-RPC surface but differ in how they spell
//! the three logical operations and in how they encode reply text. A
//! [`ServerAdapter`] builds the request envelope for each operation and
//! decodes the reply payload into JSON text; each implementation pins both
//! to its own spec functions, so a client's pipeline is exact about what it
//! sends and what it accepts.

use vstd::prelude::*;

use crate::codec::{json_parse, json_text, parse_json, print_json};
use crate::errors::AgentError;
use crate::json::{JsonData, JsonValue};
use crate::literal::{chars_of, json_of_literal, parse_literal, sp_parse, string_from_chars};
use crate::rpc::{JsonRpcRequest, RpcRequestData};

verus! {

/// A per-server strategy: how to spell the tool-list, tool-get and
/// tool-call requests, and how to decode each reply's payload text into
/// JSON text.
pub trait ServerAdapter: Sized {
    spec fn spec_list_request(&self) -> RpcRequestData;

    spec fn spec_get_request(&self, tool: Seq<char>) -> RpcRequestData;

    spec fn spec_call_request(&self, tool: Seq<char>, params: JsonData) -> RpcRequestData;

    spec fn spec_decode_list(&self, text: Seq<char>) -> Option<Seq<char>>;

    spec fn spec_decode_get(&self, text: Seq<char>) -> Option<Seq<char>>;

    spec fn spec_decode_call(&self, text: Seq<char>) -> Option<Seq<char>>;

    fn build_tool_list_request(&self) -> (r: JsonRpcRequest)
        ensures
            r.deep_view() == self.spec_list_request(),
    ;

    fn build_tool_get_request(&self, name: &str) -> (r: JsonRpcRequest)
        ensures
            r.deep_view() == self.spec_get_request(name@),
    ;

    fn build_tool_call_request(&self, name: &str, params: JsonValue) -> (r: JsonRpcRequest)
        ensures
            r.deep_view() == self.spec_call_request(name@, params.deep_view()),
    ;

    fn parse_tool_list_response(&self, text: String) -> (r: Result<String, AgentError>)
        ensures
            match r {
                Ok(s) => self.spec_decode_list(text@) == Some(s@),
                Err(e) => self.spec_decode_list(text@) is None && e is Decode,
            },
    ;

    fn parse_tool_get_response(&self, text: String) -> (r: Result<String, AgentError>)
        ensures
            match r {
                Ok(s) => self.spec_decode_get(text@) == Some(s@),
                Err(e) => self.spec_decode_get(text@) is None && e is Decode,
            },
    ;

    fn parse_tool_call_response(&self, text: String) -> (r: Result<String, AgentError>)
        ensures
            match r {
                Ok(s) => self.spec_decode_call(text@) == Some(s@),
                Err(e) => self.spec_decode_call(text@) is None && e is Decode,
            },
    ;
}

/// The adapter for servers that expose one method per operation and answer
/// with payload text that is already JSON — except the tool-call reply,
/// whose payload is a JSON string holding the result's JSON text.
pub struct StandardAdapter {}

/// An object with a single `tool_name` member.
pub open spec fn spec_tool_name_params(tool: Seq<char>) -> JsonData {
    JsonData::Obj(seq![("tool_name"@, JsonData::Str(tool))])
}

/// An object carrying the tool name and its arguments.
pub open spec fn spec_tool_call_params(tool: Seq<char>, params: JsonData) -> JsonData {
    JsonData::Obj(seq![("tool_name"@, JsonData::Str(tool)), ("arguments"@, params)])
}

impl ServerAdapter for StandardAdapter {
    open spec fn spec_list_request(&self) -> RpcRequestData {
        RpcRequestData {
            jsonrpc: "2.0"@,
            method: "tools/list"@,
            id: JsonData::Int(1),
            params: Some(JsonData::Obj(Seq::empty())),
        }
    }

    open spec fn spec_get_request(&self, tool: Seq<char>) -> RpcRequestData {
        RpcRequestData {
            jsonrpc: "2.0"@,
            method: "tools/get"@,
            id: JsonData::Int(1),
            params: Some(spec_tool_name_params(tool)),
        }
    }

    open spec fn spec_call_request(&self, tool: Seq<char>, params: JsonData) -> RpcRequestData {
        RpcRequestData {
            jsonrpc: "2.0"@,
            method: "tools/get"@,
            id: JsonData::Int(1),
            params: Some(spec_tool_call_params(tool, params)),
        }
    }

    /// The tool-list payload is already JSON text.
    open spec fn spec_decode_list(&self, text: Seq<char>) -> Option<Seq<char>> {
        Some(text)
    }

    /// The tool-get payload is already JSON text.
    open spec fn spec_decode_get(&self, text: Seq<char>) -> Option<Seq<char>> {
        Some(text)
    }

    /// The tool-call payload is a JSON string literal holding the JSON text.
    open spec fn spec_decode_call(&self, text: Seq<char>) -> Option<Seq<char>> {
        match json_parse(text) {
            Some(JsonData::Str(s)) => Some(s),
            _ => None,
        }
    }

    fn build_tool_list_request(&self) -> (r: JsonRpcRequest) {
        let members: Vec<(String, JsonValue)> = Vec::new();
        let r = JsonRpcRequest::default(
            {
                let m = "tools/list";
                m.to_owned()
            },
            Some(JsonValue::Obj(members)),
        );
        proof {
            assert(r.deep_view().params->Some_0->Obj_0 =~= Seq::<(Seq<char>, JsonData)>::empty());
            assert(r.deep_view() =~= self.spec_list_request());
        }
        r
    }

    fn build_tool_get_request(&self, name: &str) -> (r: JsonRpcRequest) {
        let mut members: Vec<(String, JsonValue)> = Vec::new();
        members.push(
            (
                {
                    let k = "tool_name";
                    k.to_owned()
                },
                JsonValue::Str(name.to_owned()),
            ),
        );
        let r = JsonRpcRequest::default(
            {
                let m = "tools/get";
                m.to_owned()
            },
            Some(JsonValue::Obj(members)),
        );
        proof {
            reveal_with_fuel(crate::json::json_view, 2);
            assert(r.deep_view().params->Some_0->Obj_0 =~= spec_tool_name_params(name@)->Obj_0);
            assert(r.deep_view() =~= self.spec_get_request(name@));
        }
        r
    }

    fn build_tool_call_request(&self, name: &str, params: JsonValue) -> (r: JsonRpcRequest) {
        let ghost params_data = params.deep_view();
        let mut members: Vec<(String, JsonValue)> = Vec::new();
        members.push(
            (
                {
                    let k = "tool_name";
                    k.to_owned()
                },
                JsonValue::Str(name.to_owned()),
            ),
        );
        members.push(
            (
                {
                    let k = "arguments";
                    k.to_owned()
                },
                params,
            ),
        );
        let r = JsonRpcRequest::default(
            {
                let m = "tools/get";
                m.to_owned()
            },
            Some(JsonValue::Obj(members)),
        );
        proof {
            reveal_with_fuel(crate::json::json_view, 2);
            assert(r.deep_view().params->Some_0->Obj_0 =~= spec_tool_call_params(
                name@,
                params_data,
            )->Obj_0);
            assert(r.deep_view() =~= self.spec_call_request(name@, params_data));
        }
        r
    }

    fn parse_tool_list_response(&self, text: String) -> (r: Result<String, AgentError>) {
        Ok(text)
    }

    fn parse_tool_get_response(&self, text: String) -> (r: Result<String, AgentError>) {
        Ok(text)
    }

    fn parse_tool_call_response(&self, text: String) -> (r: Result<String, AgentError>) {
        match parse_json(text.as_str()) {
            Some(JsonValue::Str(s)) => Ok(s),
            _ => Err(
                AgentError::Decode(
                    {
                        let m = "the tool-call payload is not a JSON string";
                        m.to_owned()
                    },
                ),
            ),
        }
    }
}

/// The adapter for servers that multiplex the three operations over one
/// `tools/call` method, discriminated by the params' `name`, and whose
/// payload text is a scripting language's literal notation rather than
/// JSON. Decoding parses the literal and converts it to JSON text; the
/// tool-call payload is stripped of newlines first.
pub struct LiteralAdapter {}

/// The characters of `s` without the newlines.
pub open spec fn without_newlines(s: Seq<char>) -> Seq<char>
    decreases s.len(),
{
    if s.len() == 0 {
        s
    } else {
        let rest = without_newlines(s.drop_last());
        if s.last() == '\n' {
            rest
        } else {
            rest.push(s.last())
        }
    }
}

/// Removes every newline from a text.
fn strip_newlines(text: &str) -> (r: String)
    ensures
        r@ == without_newlines(text@),
{
    let chars = chars_of(text);
    let mut kept: Vec<char> = Vec::new();
    let mut k: usize = 0;
    proof {
        assert(chars@.take(0) =~= Seq::<char>::empty());
    }
    while k < chars.len()
        invariant
            0 <= k <= chars@.len(),
            chars@ == text@,
            kept@ == without_newlines(chars@.take(k as int)),
        decreases chars@.len() - k,
    {
        proof {
            assert(chars@.take(k as int + 1).drop_last() =~= chars@.take(k as int));
            assert(chars@.take(k as int + 1).last() == chars@[k as int]);
        }
        if chars[k] != '\n' {
            kept.push(chars[k]);
        }
        k += 1;
    }
    proof {
        assert(chars@.take(chars@.len() as int) =~= chars@);
    }
    string_from_chars(&kept)
}

/// What decoding a literal payload yields: the JSON text of the converted
/// literal, or nothing for malformed text.
pub open spec fn spec_literal_decode(text: Seq<char>) -> Option<Seq<char>> {
    match sp_parse(text) {
        Some(l) => Some(json_text(json_of_literal(l))),
        None => None,
    }
}

/// Parses a literal payload and re-encodes it as JSON text.
fn decode_literal_payload(text: &str) -> (r: Result<String, AgentError>)
    ensures
        match r {
            Ok(s) => spec_literal_decode(text@) == Some(s@),
            Err(e) => spec_literal_decode(text@) is None && e is Decode,
        },
{
    let parsed = parse_literal(text)?;
    let converted = parsed.to_json();
    Ok(print_json(&converted))
}

/// The params object `{"name": <op>}`.
pub open spec fn spec_op_params(op: Seq<char>) -> JsonData {
    JsonData::Obj(seq![("name"@, JsonData::Str(op))])
}

/// The params object `{"name": <op>, "arguments": <args>}`.
pub open spec fn spec_op_args_params(op: Seq<char>, args: JsonData) -> JsonData {
    JsonData::Obj(seq![("name"@, JsonData::Str(op)), ("arguments"@, args)])
}

impl ServerAdapter for LiteralAdapter {
    open spec fn spec_list_request(&self) -> RpcRequestData {
        RpcRequestData {
            jsonrpc: "2.0"@,
            method: "tools/call"@,
            id: JsonData::Int(1),
            params: Some(spec_op_params("TOOL_LIST"@)),
        }
    }

    open spec fn spec_get_request(&self, tool: Seq<char>) -> RpcRequestData {
        RpcRequestData {
            jsonrpc: "2.0"@,
            method: "tools/call"@,
            id: JsonData::Int(1),
            params: Some(spec_op_args_params("TOOL_GET"@, spec_tool_name_params(tool))),
        }
    }

    open spec fn spec_call_request(&self, tool: Seq<char>, params: JsonData) -> RpcRequestData {
        RpcRequestData {
            jsonrpc: "2.0"@,
            method: "tools/call"@,
            id: JsonData::Int(1),
            params: Some(
                spec_op_args_params("TOOL_CALL"@, spec_tool_call_params(tool, params)),
            ),
        }
    }

    open spec fn spec_decode_list(&self, text: Seq<char>) -> Option<Seq<char>> {
        spec_literal_decode(text)
    }

    open spec fn spec_decode_get(&self, text: Seq<char>) -> Option<Seq<char>> {
        spec_literal_decode(text)
    }

    /// The tool-call payload is stripped of newlines before parsing.
    open spec fn spec_decode_call(&self, text: Seq<char>) -> Option<Seq<char>> {
        spec_literal_decode(without_newlines(text))
    }

    fn build_tool_list_request(&self) -> (r: JsonRpcRequest) {
        let mut members: Vec<(String, JsonValue)> = Vec::new();
        members.push(
            (
                {
                    let k = "name";
                    k.to_owned()
                },
                JsonValue::Str(
                    {
                        let v = "TOOL_LIST";
                        v.to_owned()
                    },
                ),
            ),
        );
        let r = JsonRpcRequest::default(
            {
                let m = "tools/call";
                m.to_owned()
            },
            Some(JsonValue::Obj(members)),
        );
        proof {
            reveal_with_fuel(crate::json::json_view, 2);
            assert(r.deep_view().params->Some_0->Obj_0 =~= spec_op_params("TOOL_LIST"@)->Obj_0);
            assert(r.deep_view() =~= self.spec_list_request());
        }
        r
    }

    fn build_tool_get_request(&self, name: &str) -> (r: JsonRpcRequest) {
        let mut inner: Vec<(String, JsonValue)> = Vec::new();
        inner.push(
            (
                {
                    let k = "tool_name";
                    k.to_owned()
                },
                JsonValue::Str(name.to_owned()),
            ),
        );
        let mut members: Vec<(String, JsonValue)> = Vec::new();
        members.push(
            (
                {
                    let k = "name";
                    k.to_owned()
                },
                JsonValue::Str(
                    {
                        let v = "TOOL_GET";
                        v.to_owned()
                    },
                ),
            ),
        );
        members.push(
            (
                {
                    let k = "arguments";
                    k.to_owned()
                },
                JsonValue::Obj(inner),
            ),
        );
        let r = JsonRpcRequest::default(
            {
                let m = "tools/call";
                m.to_owned()
            },
            Some(JsonValue::Obj(members)),
        );
        proof {
            reveal_with_fuel(crate::json::json_view, 3);
            let goal = self.spec_get_request(name@);
            assert(r.deep_view().params->Some_0->Obj_0[1].1->Obj_0 =~= spec_tool_name_params(
                name@,
            )->Obj_0);
            assert(r.deep_view().params->Some_0->Obj_0 =~~= goal.params->Some_0->Obj_0);
            assert(r.deep_view() =~~= goal);
        }
        r
    }

    fn build_tool_call_request(&self, name: &str, params: JsonValue) -> (r: JsonRpcRequest) {
        let ghost params_data = params.deep_view();
        let mut inner: Vec<(String, JsonValue)> = Vec::new();
        inner.push(
            (
                {
                    let k = "tool_name";
                    k.to_owned()
                },
                JsonValue::Str(name.to_owned()),
            ),
        );
        inner.push(
            (
                {
                    let k = "arguments";
                    k.to_owned()
                },
                params,
            ),
        );
        let mut members: Vec<(String, JsonValue)> = Vec::new();
        members.push(
            (
                {
                    let k = "name";
                    k.to_owned()
                },
                JsonValue::Str(
                    {
                        let v = "TOOL_CALL";
                        v.to_owned()
                    },
                ),
            ),
        );
        members.push(
            (
                {
                    let k = "arguments";
                    k.to_owned()
                },
                JsonValue::Obj(inner),
            ),
        );
        let r = JsonRpcRequest::default(
            {
                let m = "tools/call";
                m.to_owned()
            },
            Some(JsonValue::Obj(members)),
        );
        proof {
            reveal_with_fuel(crate::json::json_view, 3);
            let goal = self.spec_call_request(name@, params_data);
            assert(r.deep_view().params->Some_0->Obj_0[1].1->Obj_0 =~= spec_tool_call_params(
                name@,
                params_data,
            )->Obj_0);
            assert(r.deep_view().params->Some_0->Obj_0 =~~= goal.params->Some_0->Obj_0);
            assert(r.deep_view() =~~= goal);
        }
        r
    }

    fn parse_tool_list_response(&self, text: String) -> (r: Result<String, AgentError>) {
        decode_literal_payload(text.as_str())
    }

    fn parse_tool_get_response(&self, text: String) -> (r: Result<String, AgentError>) {
        decode_literal_payload(text.as_str())
    }

    fn parse_tool_call_response(&self, text: String) -> (r: Result<String, AgentError>) {
        let cleaned = strip_newlines(text.as_str());
        decode_literal_payload(cleaned.as_str())
    }
}

} // verus!
