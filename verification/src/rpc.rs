//! The JSON-RPC envelope.
//!
//! Every remote tool operation is one request
//! `{"jsonrpc":"2.0","method":...,"id":...,"params":...}`; every reply is an
//! envelope whose `result.content[0].text` carries the payload text that the
//! server adapter then decodes.

use vstd::prelude::*;

use crate::codec::{json_parse, parse_json};
use crate::errors::AgentError;
use crate::json::{json_get, JsonData, JsonValue};

verus! {

/// One JSON-RPC request.
pub struct JsonRpcRequest {
    pub jsonrpc: String,
    pub method: String,
    pub id: JsonValue,
    pub params: Option<JsonValue>,
}

/// The mathematical shape of a [`JsonRpcRequest`].
#[verifier::ext_equal]
pub struct RpcRequestData {
    pub jsonrpc: Seq<char>,
    pub method: Seq<char>,
    pub id: JsonData,
    pub params: Option<JsonData>,
}

impl DeepView for JsonRpcRequest {
    type V = RpcRequestData;

    open spec fn deep_view(&self) -> RpcRequestData {
        RpcRequestData {
            jsonrpc: self.jsonrpc@,
            method: self.method@,
            id: self.id.deep_view(),
            params: self.params.deep_view(),
        }
    }
}

/// The document a request serializes to: an absent `params` becomes null.
pub open spec fn spec_envelope(r: RpcRequestData) -> JsonData {
    JsonData::Obj(
        seq![
            ("jsonrpc"@, JsonData::Str(r.jsonrpc)),
            ("method"@, JsonData::Str(r.method)),
            ("id"@, r.id),
            (
                "params"@,
                match r.params {
                    Some(p) => p,
                    None => JsonData::Null,
                },
            ),
        ],
    )
}

impl JsonRpcRequest {
    pub fn new(
        jsonrpc: String,
        method: String,
        id: JsonValue,
        params: Option<JsonValue>,
    ) -> (r: JsonRpcRequest)
        ensures
            r.deep_view() == (RpcRequestData {
                jsonrpc: jsonrpc@,
                method: method@,
                id: id.deep_view(),
                params: params.deep_view(),
            }),
    {
        JsonRpcRequest { jsonrpc, method, id, params }
    }

    /// A request under protocol version 2.0 with request id 1.
    pub fn default(method: String, params: Option<JsonValue>) -> (r: JsonRpcRequest)
        ensures
            r.deep_view() == (RpcRequestData {
                jsonrpc: "2.0"@,
                method: method@,
                id: JsonData::Int(1),
                params: params.deep_view(),
            }),
    {
        JsonRpcRequest {
            jsonrpc: {
                let v = "2.0";
                v.to_owned()
            },
            method,
            id: JsonValue::Int(1),
            params,
        }
    }

    /// The document this request serializes to.
    pub fn into_json(self) -> (r: JsonValue)
        ensures
            r.deep_view() == spec_envelope(self.deep_view()),
    {
        let ghost data = self.deep_view();
        let params = match self.params {
            Some(p) => p,
            None => JsonValue::Null,
        };
        let mut members: Vec<(String, JsonValue)> = Vec::new();
        members.push(
            (
                {
                    let k = "jsonrpc";
                    k.to_owned()
                },
                JsonValue::Str(self.jsonrpc),
            ),
        );
        members.push(
            (
                {
                    let k = "method";
                    k.to_owned()
                },
                JsonValue::Str(self.method),
            ),
        );
        members.push(
            (
                {
                    let k = "id";
                    k.to_owned()
                },
                self.id,
            ),
        );
        members.push(
            (
                {
                    let k = "params";
                    k.to_owned()
                },
                params,
            ),
        );
        let r = JsonValue::Obj(members);
        proof {
            reveal_with_fuel(crate::json::json_view, 2);
            let ms = r.deep_view()->Obj_0;
            assert(ms.len() == 4);
            assert(ms[0] == ("jsonrpc"@, JsonData::Str(data.jsonrpc)));
            assert(ms[1] == ("method"@, JsonData::Str(data.method)));
            assert(ms[2] == ("id"@, data.id));
            assert(ms[3] == (
                "params"@,
                match data.params {
                    Some(p) => p,
                    None => JsonData::Null,
                },
            ));
            assert(ms =~= spec_envelope(data)->Obj_0);
            assert(r.deep_view() =~= spec_envelope(data));
        }
        r
    }
}

/// The payload text of a reply document: the reply must be an object with a
/// `jsonrpc` string and an `id`, whose `result.content` is a non-empty array
/// whose first element carries a `type` string and the payload under `text`.
pub open spec fn spec_reply_text(reply: JsonData) -> Option<Seq<char>> {
    if json_get(reply, "jsonrpc"@) matches Some(JsonData::Str(_)) && json_get(reply, "id"@)
        is Some {
        match json_get(reply, "result"@) {
            Some(result) => match json_get(result, "content"@) {
                Some(JsonData::Arr(items)) => if items.len() > 0 {
                    if json_get(items[0], "type"@) matches Some(JsonData::Str(_)) {
                        match json_get(items[0], "text"@) {
                            Some(JsonData::Str(t)) => Some(t),
                            _ => None,
                        }
                    } else {
                        None
                    }
                } else {
                    None
                },
                _ => None,
            },
            None => None,
        }
    } else {
        None
    }
}

/// What decoding a raw reply yields: `None` stands for a decode error.
pub open spec fn spec_reply_text_of(raw: Seq<char>) -> Option<Seq<char>> {
    match json_parse(raw) {
        Some(reply) => spec_reply_text(reply),
        None => None,
    }
}

/// The decode error for a reply that carries no payload text.
fn decode_err() -> (r: AgentError)
    ensures
        r is Decode,
{
    AgentError::Decode(
        {
            let m = "the reply does not carry a payload text";
            m.to_owned()
        },
    )
}

/// Extracts the payload text out of a raw JSON-RPC reply.
pub fn reply_payload_text(raw: &str) -> (r: Result<String, AgentError>)
    ensures
        match r {
            Ok(t) => spec_reply_text_of(raw@) == Some(t@),
            Err(e) => spec_reply_text_of(raw@) is None && e is Decode,
        },
{
    let reply = match parse_json(raw) {
        Some(v) => v,
        None => {
            return Err(
                AgentError::Decode(
                    {
                        let m = "the reply is not JSON";
                        m.to_owned()
                    },
                ),
            );
        },
    };
    match reply.get("jsonrpc") {
        Some(JsonValue::Str(_)) => {},
        _ => {
            return Err(decode_err());
        },
    }
    if reply.get("id").is_none() {
        return Err(decode_err());
    }
    let result = match reply.get("result") {
        Some(v) => v,
        None => {
            return Err(decode_err());
        },
    };
    let items = match result.get("content") {
        Some(JsonValue::Arr(items)) => items,
        _ => {
            return Err(decode_err());
        },
    };
    if items.len() == 0 {
        return Err(decode_err());
    }
    let first = &items[0];
    proof {
        let result_data = json_get(reply.deep_view(), "result"@)->Some_0;
        let items_data = json_get(result_data, "content"@)->Some_0->Arr_0;
        assert(items_data[0] == first.deep_view());
    }
    match first.get("type") {
        Some(JsonValue::Str(_)) => {},
        _ => {
            return Err(decode_err());
        },
    }
    match first.get("text") {
        Some(JsonValue::Str(t)) => Ok(t.clone()),
        _ => Err(decode_err()),
    }
}

} // verus!
