//! A JSON document model over plain values.
//!
//! Tool arguments, tool outputs, parameter schemas and the JSON-RPC envelope
//! are all JSON documents. `JsonValue` holds one as ordinary Rust data;
//! `JsonData` is its mathematical shape, used by every contract that speaks
//! about a document's contents.

use vstd::prelude::*;

verus! {

broadcast use vstd::std_specs::vec::axiom_vec_index_decreases;

/// The mathematical shape of a JSON document.
#[verifier::ext_equal]
pub enum JsonData {
    Null,
    Bool(bool),
    Int(int),
    /// A number that is not a 64-bit integer, kept as its decimal text.
    Num(Seq<char>),
    Str(Seq<char>),
    Arr(Seq<JsonData>),
    Obj(Seq<(Seq<char>, JsonData)>),
}

/// A JSON document as ordinary Rust data. Object members keep their order.
pub enum JsonValue {
    Null,
    Bool(bool),
    Int(i64),
    /// A number that is not a 64-bit integer, kept as its decimal text.
    Num(String),
    Str(String),
    Arr(Vec<JsonValue>),
    Obj(Vec<(String, JsonValue)>),
}

/// The shape of a document; the recursion lives here so that every contract
/// can unfold it.
pub open spec fn json_view(v: JsonValue) -> JsonData
    decreases v,
{
    match v {
        JsonValue::Null => JsonData::Null,
        JsonValue::Bool(b) => JsonData::Bool(b),
        JsonValue::Int(i) => JsonData::Int(i as int),
        JsonValue::Num(t) => JsonData::Num(t@),
        JsonValue::Str(s) => JsonData::Str(s@),
        JsonValue::Arr(items) => JsonData::Arr(
            Seq::new(
                items.len() as nat,
                |i: int|
                    if 0 <= i < items.len() {
                        json_view(items[i])
                    } else {
                        JsonData::Null
                    },
            ),
        ),
        JsonValue::Obj(members) => JsonData::Obj(
            Seq::new(
                members.len() as nat,
                |i: int|
                    if 0 <= i < members.len() {
                        (members[i].0@, json_view(members[i].1))
                    } else {
                        (Seq::empty(), JsonData::Null)
                    },
            ),
        ),
    }
}

impl DeepView for JsonValue {
    type V = JsonData;

    open spec fn deep_view(&self) -> JsonData {
        json_view(*self)
    }
}

/// The value under a key in an object member list: the first match wins.
pub open spec fn obj_lookup(members: Seq<(Seq<char>, JsonData)>, key: Seq<char>) -> Option<
    JsonData,
>
    decreases members.len(),
{
    if members.len() == 0 {
        None
    } else if members[0].0 == key {
        Some(members[0].1)
    } else {
        obj_lookup(members.drop_first(), key)
    }
}

/// The value under a key of a document: `None` when the document is not an
/// object or the key is absent.
pub open spec fn json_get(v: JsonData, key: Seq<char>) -> Option<JsonData> {
    match v {
        JsonData::Obj(members) => obj_lookup(members, key),
        _ => None,
    }
}

impl JsonValue {
    /// Looks a key up in an object document; the first member wins.
    pub fn get<'a>(&'a self, key: &str) -> (r: Option<&'a JsonValue>)
        ensures
            match r {
                Some(v) => json_get(self.deep_view(), key@) == Some(v.deep_view()),
                None => json_get(self.deep_view(), key@) is None,
            },
    {
        match self {
            JsonValue::Obj(members) => {
                let ghost ms = self.deep_view()->Obj_0;
                proof {
                    assert(*self == JsonValue::Obj(*members));
                    assert(ms.skip(0) =~= ms);
                }
                let mut k: usize = 0;
                while k < members.len()
                    invariant
                        0 <= k <= members@.len(),
                        *self == JsonValue::Obj(*members),
                        ms == self.deep_view()->Obj_0,
                        ms.len() == members@.len(),
                        obj_lookup(ms, key@) == obj_lookup(ms.skip(k as int), key@),
                    decreases members@.len() - k,
                {
                    proof {
                        assert(ms[k as int] == (members@[k as int].0@, json_view(
                            members@[k as int].1,
                        )));
                        assert(ms.skip(k as int)[0] == ms[k as int]);
                        assert(ms.skip(k as int).drop_first() =~= ms.skip(k as int + 1));
                    }
                    if members[k].0 == key.to_owned() {
                        return Some(&members[k].1);
                    }
                    k += 1;
                }
                proof {
                    assert(ms.skip(ms.len() as int) =~= Seq::<(Seq<char>, JsonData)>::empty());
                }
                None
            },
            _ => None,
        }
    }

    /// An exact copy of the document.
    pub fn duplicate(&self) -> (r: JsonValue)
        ensures
            r.deep_view() == self.deep_view(),
        decreases self,
    {
        match self {
            JsonValue::Null => JsonValue::Null,
            JsonValue::Bool(b) => JsonValue::Bool(*b),
            JsonValue::Int(i) => JsonValue::Int(*i),
            JsonValue::Num(t) => JsonValue::Num(t.clone()),
            JsonValue::Str(s) => JsonValue::Str(s.clone()),
            JsonValue::Arr(items) => {
                let ghost idata = self.deep_view()->Arr_0;
                let mut out: Vec<JsonValue> = Vec::new();
                let mut k: usize = 0;
                while k < items.len()
                    invariant
                        0 <= k <= items@.len(),
                        *self == JsonValue::Arr(*items),
                        idata == self.deep_view()->Arr_0,
                        idata.len() == items@.len(),
                        out@.len() == k,
                        forall|i: int| 0 <= i < k ==> json_view(#[trigger] out@[i]) == idata[i],
                    decreases items@.len() - k,
                {
                    proof {
                        assert(self->Arr_0 == *items);
                        assert(decreases_to!(*self => self->Arr_0@[k as int]));
                        assert(idata[k as int] == json_view(items@[k as int]));
                    }
                    let copied = items[k].duplicate();
                    out.push(copied);
                    k += 1;
                }
                let r = JsonValue::Arr(out);
                proof {
                    assert(r.deep_view()->Arr_0 =~= idata);
                    assert(r.deep_view() =~= self.deep_view());
                }
                r
            },
            JsonValue::Obj(members) => {
                let ghost ms = self.deep_view()->Obj_0;
                let mut out: Vec<(String, JsonValue)> = Vec::new();
                let mut k: usize = 0;
                while k < members.len()
                    invariant
                        0 <= k <= members@.len(),
                        *self == JsonValue::Obj(*members),
                        ms == self.deep_view()->Obj_0,
                        ms.len() == members@.len(),
                        out@.len() == k,
                        forall|i: int|
                            0 <= i < k ==> ((#[trigger] out@[i]).0@, json_view(out@[i].1)) == ms[i],
                    decreases members@.len() - k,
                {
                    proof {
                        assert(self->Obj_0 == *members);
                        assert(decreases_to!(*self => self->Obj_0@[k as int].1));
                        assert(ms[k as int] == (members@[k as int].0@, json_view(
                            members@[k as int].1,
                        )));
                    }
                    let copied = members[k].1.duplicate();
                    out.push((members[k].0.clone(), copied));
                    k += 1;
                }
                let r = JsonValue::Obj(out);
                proof {
                    assert(r.deep_view()->Obj_0 =~= ms);
                    assert(r.deep_view() =~= self.deep_view());
                }
                r
            },
        }
    }
}

} // verus!
