//! Values written in a scripting language's literal notation.
//!
//! Some remote servers answer with a dictionary/list literal instead of JSON
//! text. [`Literal`] holds such a value; [`Literal::to_json`] converts it,
//! recursively, to a JSON document: strings, integers and booleans carry
//! over, dictionary members keep their order but lose every pair whose key
//! is not a string, and unsupported kinds of literal become null.

use vstd::prelude::*;

use vstd::string::StrSliceExecFns;

use crate::errors::AgentError;
use crate::json::{JsonData, JsonValue};

verus! {

broadcast use vstd::std_specs::vec::axiom_vec_index_decreases;

/// A parsed literal. `Unsupported` stands for every kind the conversion maps
/// to null: the none value, numbers that are not integers, and tuples.
pub enum Literal {
    Str(String),
    Int(i64),
    Bool(bool),
    List(Vec<Literal>),
    Dict(Vec<(Literal, Literal)>),
    Unsupported,
}

/// The mathematical shape of a [`Literal`].
#[verifier::ext_equal]
pub enum LiteralData {
    Str(Seq<char>),
    Int(int),
    Bool(bool),
    List(Seq<LiteralData>),
    Dict(Seq<(LiteralData, LiteralData)>),
    Unsupported,
}

/// The shape of a literal; the recursion lives here so that every contract
/// can unfold it.
pub open spec fn literal_view(l: Literal) -> LiteralData
    decreases l,
{
    match l {
        Literal::Str(s) => LiteralData::Str(s@),
        Literal::Int(i) => LiteralData::Int(i as int),
        Literal::Bool(b) => LiteralData::Bool(b),
        Literal::List(items) => LiteralData::List(
            Seq::new(
                items.len() as nat,
                |i: int|
                    if 0 <= i < items.len() {
                        literal_view(items[i])
                    } else {
                        LiteralData::Unsupported
                    },
            ),
        ),
        Literal::Dict(pairs) => LiteralData::Dict(
            Seq::new(
                pairs.len() as nat,
                |i: int|
                    if 0 <= i < pairs.len() {
                        (literal_view(pairs[i].0), literal_view(pairs[i].1))
                    } else {
                        (LiteralData::Unsupported, LiteralData::Unsupported)
                    },
            ),
        ),
        Literal::Unsupported => LiteralData::Unsupported,
    }
}

impl DeepView for Literal {
    type V = LiteralData;

    open spec fn deep_view(&self) -> LiteralData {
        literal_view(*self)
    }
}

/// The JSON document a literal converts to.
pub open spec fn json_of_literal(l: LiteralData) -> JsonData
    decreases l,
{
    match l {
        LiteralData::Str(s) => JsonData::Str(s),
        LiteralData::Int(i) => JsonData::Int(i),
        LiteralData::Bool(b) => JsonData::Bool(b),
        LiteralData::List(items) => JsonData::Arr(
            Seq::new(
                items.len(),
                |i: int|
                    if 0 <= i < items.len() {
                        json_of_literal(items[i])
                    } else {
                        JsonData::Null
                    },
            ),
        ),
        LiteralData::Dict(pairs) => JsonData::Obj(string_keyed_members(pairs)),
        LiteralData::Unsupported => JsonData::Null,
    }
}

/// The object members a dictionary converts to: the string-keyed pairs, in
/// order, with converted values; pairs under any other key are dropped.
pub open spec fn string_keyed_members(pairs: Seq<(LiteralData, LiteralData)>) -> Seq<
    (Seq<char>, JsonData),
>
    decreases pairs,
{
    if pairs.len() == 0 {
        Seq::empty()
    } else {
        let rest = string_keyed_members(pairs.drop_first());
        match pairs[0].0 {
            LiteralData::Str(k) => seq![(k, json_of_literal(pairs[0].1))] + rest,
            _ => rest,
        }
    }
}

/// How many pairs of a dictionary carry a string key.
pub open spec fn count_string_keys(pairs: Seq<(LiteralData, LiteralData)>) -> nat
    decreases pairs.len(),
{
    if pairs.len() == 0 {
        0
    } else {
        (if pairs[0].0 is Str {
            1nat
        } else {
            0nat
        }) + count_string_keys(pairs.drop_first())
    }
}

/// Appending one pair appends its converted member, or nothing when its key
/// is not a string.
proof fn lemma_string_keyed_members_push(
    pairs: Seq<(LiteralData, LiteralData)>,
    p: (LiteralData, LiteralData),
)
    ensures
        string_keyed_members(pairs.push(p)) == string_keyed_members(pairs) + (match p.0 {
            LiteralData::Str(k) => seq![(k, json_of_literal(p.1))],
            _ => Seq::<(Seq<char>, JsonData)>::empty(),
        }),
    decreases pairs.len(),
{
    let tailpart = (match p.0 {
        LiteralData::Str(k) => seq![(k, json_of_literal(p.1))],
        _ => Seq::<(Seq<char>, JsonData)>::empty(),
    });
    if pairs.len() == 0 {
        let empty = Seq::<(LiteralData, LiteralData)>::empty();
        assert(pairs.push(p).drop_first() =~= empty);
        assert(string_keyed_members(empty) =~= Seq::<(Seq<char>, JsonData)>::empty());
        assert(pairs.push(p)[0] == p);
        assert(string_keyed_members(pairs) =~= Seq::<(Seq<char>, JsonData)>::empty());
        assert(string_keyed_members(pairs.push(p)) =~= string_keyed_members(pairs) + tailpart);
    } else {
        lemma_string_keyed_members_push(pairs.drop_first(), p);
        assert(pairs.push(p).drop_first() =~= pairs.drop_first().push(p));
        assert(pairs.push(p)[0] == pairs[0]);
        assert(string_keyed_members(pairs.drop_first().push(p)) == string_keyed_members(
            pairs.drop_first(),
        ) + tailpart);
        assert(string_keyed_members(pairs.push(p)) =~= string_keyed_members(pairs) + tailpart);
    }
}

impl Literal {
    /// Converts this literal, recursively, to a JSON document.
    pub fn to_json(&self) -> (r: JsonValue)
        ensures
            r.deep_view() == json_of_literal(self.deep_view()),
        decreases self,
    {
        match self {
            Literal::Str(s) => JsonValue::Str(s.clone()),
            Literal::Int(i) => JsonValue::Int(*i),
            Literal::Bool(b) => JsonValue::Bool(*b),
            Literal::Unsupported => JsonValue::Null,
            Literal::List(items) => {
                let ghost idata = self.deep_view()->List_0;
                let mut out: Vec<JsonValue> = Vec::new();
                let mut k: usize = 0;
                while k < items.len()
                    invariant
                        0 <= k <= items.len(),
                        *self == Literal::List(*items),
                        idata == self.deep_view()->List_0,
                        idata.len() == items.len(),
                        out.len() == k,
                        forall|i: int|
                            0 <= i < k ==> (#[trigger] out[i]).deep_view() == json_of_literal(
                                idata[i],
                            ),
                    decreases items.len() - k,
                {
                    proof {
                        assert(self->List_0 == *items);
                        assert(decreases_to!(*self => self->List_0@[k as int]));
                        assert(idata[k as int] == items[k as int].deep_view());
                    }
                    let converted = items[k].to_json();
                    out.push(converted);
                    k += 1;
                }
                let r = JsonValue::Arr(out);
                proof {
                    let outs = r->Arr_0;
                    let rv = r.deep_view();
                    let t = json_of_literal(self.deep_view());
                    assert(rv->Arr_0.len() == outs.len());
                    assert(forall|i: int|
                        0 <= i < outs.len() ==> #[trigger] rv->Arr_0[i] == outs[i].deep_view());
                    assert(t->Arr_0.len() == idata.len());
                    assert(forall|i: int|
                        0 <= i < idata.len() ==> #[trigger] t->Arr_0[i] == json_of_literal(
                            idata[i],
                        ));
                    assert(rv->Arr_0 =~= t->Arr_0);
                    assert(rv =~= t);
                }
                r
            },
            Literal::Dict(pairs) => {
                let ghost pdata = self.deep_view()->Dict_0;
                let mut out: Vec<(String, JsonValue)> = Vec::new();
                let mut k: usize = 0;
                proof {
                    assert(pdata.take(0) =~= Seq::<(LiteralData, LiteralData)>::empty());
                    assert(string_keyed_members(pdata.take(0)) =~= Seq::<
                        (Seq<char>, JsonData),
                    >::empty());
                }
                while k < pairs.len()
                    invariant
                        0 <= k <= pairs.len(),
                        *self == Literal::Dict(*pairs),
                        pdata == self.deep_view()->Dict_0,
                        pdata.len() == pairs.len(),
                        Seq::new(
                            out.len() as nat,
                            |i: int|
                                if 0 <= i < out.len() {
                                    (out[i].0@, out[i].1.deep_view())
                                } else {
                                    (Seq::empty(), JsonData::Null)
                                },
                        ) == string_keyed_members(pdata.take(k as int)),
                    decreases pairs.len() - k,
                {
                    let ghost before = Seq::new(
                        out.len() as nat,
                        |i: int|
                            if 0 <= i < out.len() {
                                (out[i].0@, out[i].1.deep_view())
                            } else {
                                (Seq::empty(), JsonData::Null)
                            },
                    );
                    proof {
                        assert(self->Dict_0 == *pairs);
                        assert(pdata[k as int] == (
                            pairs[k as int].0.deep_view(),
                            pairs[k as int].1.deep_view(),
                        ));
                        lemma_string_keyed_members_push(pdata.take(k as int), pdata[k as int]);
                        assert(pdata.take(k as int).push(pdata[k as int]) =~= pdata.take(
                            k as int + 1,
                        ));
                    }
                    match &pairs[k].0 {
                        Literal::Str(key) => {
                            proof {
                                assert(decreases_to!(*self => self->Dict_0@[k as int].1));
                            }
                            let converted = pairs[k].1.to_json();
                            out.push((key.clone(), converted));
                            proof {
                                let after = Seq::new(
                                    out.len() as nat,
                                    |i: int|
                                        if 0 <= i < out.len() {
                                            (out[i].0@, out[i].1.deep_view())
                                        } else {
                                            (Seq::empty(), JsonData::Null)
                                        },
                                );
                                assert(after =~= string_keyed_members(pdata.take(k as int + 1)));
                            }
                        },
                        _ => {
                            proof {
                                let after = Seq::new(
                                    out.len() as nat,
                                    |i: int|
                                        if 0 <= i < out.len() {
                                            (out[i].0@, out[i].1.deep_view())
                                        } else {
                                            (Seq::empty(), JsonData::Null)
                                        },
                                );
                                assert(after =~= before);
                                assert(after =~= string_keyed_members(pdata.take(k as int + 1)));
                            }
                        },
                    }
                    k += 1;
                }
                let r = JsonValue::Obj(out);
                proof {
                    let outs = r->Obj_0;
                    let rv = r.deep_view();
                    let t = json_of_literal(self.deep_view());
                    assert(pdata.take(pairs.len() as int) =~= pdata);
                    assert(rv->Obj_0.len() == outs.len());
                    assert(forall|i: int|
                        0 <= i < outs.len() ==> #[trigger] rv->Obj_0[i] == (
                        outs[i].0@,
                        outs[i].1.deep_view(),
                        ));
                    assert(t->Obj_0 == string_keyed_members(pdata));
                    assert(rv->Obj_0 =~= t->Obj_0);
                    assert(rv =~= t);
                }
                r
            },
        }
    }
}

/// Law: the conversion is the identity on JSON-safe scalars: a string stays
/// the same string, a boolean the same boolean, an integer the same integer.
pub proof fn lemma_scalar_conversion_identity(s: Seq<char>, b: bool, i: int)
    ensures
        json_of_literal(LiteralData::Str(s)) == JsonData::Str(s),
        json_of_literal(LiteralData::Bool(b)) == JsonData::Bool(b),
        json_of_literal(LiteralData::Int(i)) == JsonData::Int(i),
{
}

/// Law: the conversion preserves list structure: the array has the same
/// length and each element is the conversion of the element in place.
pub proof fn lemma_list_structure_preserved(items: Seq<LiteralData>)
    ensures
        json_of_literal(LiteralData::List(items)) matches JsonData::Arr(out) && out.len()
            == items.len() && forall|i: int|
            0 <= i < items.len() ==> out[i] == json_of_literal(items[i]),
{
}

/// Law: the conversion keeps exactly the string-keyed pairs of a dictionary,
/// in order: the object has one member per string key, each member's value
/// is the conversion of that pair's value, and pairs under a non-string key
/// are dropped, not retained.
pub proof fn lemma_dict_keys(pairs: Seq<(LiteralData, LiteralData)>)
    ensures
        json_of_literal(LiteralData::Dict(pairs)) matches JsonData::Obj(ms) && ms
            == string_keyed_members(pairs) && ms.len() == count_string_keys(pairs) && ((forall|
            i: int,
        |
            0 <= i < pairs.len() ==> !((#[trigger] pairs[i].0) is Str)) ==> ms.len() == 0),
    decreases pairs.len(),
{
    lemma_member_count(pairs);
}

/// The object member count equals the string-key count.
proof fn lemma_member_count(pairs: Seq<(LiteralData, LiteralData)>)
    ensures
        string_keyed_members(pairs).len() == count_string_keys(pairs),
        (forall|i: int| 0 <= i < pairs.len() ==> !((#[trigger] pairs[i].0) is Str))
            ==> count_string_keys(pairs) == 0,
    decreases pairs.len(),
{
    if pairs.len() == 0 {
    } else {
        lemma_member_count(pairs.drop_first());
        assert(forall|i: int|
            0 <= i < pairs.drop_first().len() ==> pairs.drop_first()[i] == pairs[i + 1]);
    }
}

// ---------------------------------------------------------------------------
// The literal notation's grammar.
// ---------------------------------------------------------------------------

/// Whitespace between tokens.
pub open spec fn is_ws(c: char) -> bool {
    c == ' ' || c == '\n' || c == '\t' || c == '\r'
}

/// A decimal digit.
pub open spec fn is_digit(c: char) -> bool {
    48 <= c as u32 <= 57
}

/// The first non-whitespace position at or after `i`.
pub open spec fn skip_ws(s: Seq<char>, i: int) -> int
    decreases s.len() - i,
{
    if 0 <= i < s.len() && is_ws(s[i]) {
        skip_ws(s, i + 1)
    } else {
        i
    }
}

/// What a backslash escape stands for: the usual control characters, and
/// the escaped character itself otherwise.
pub open spec fn unescaped(c: char) -> char {
    if c == 'n' {
        '\n'
    } else if c == 't' {
        '\t'
    } else if c == 'r' {
        '\r'
    } else {
        c
    }
}

/// The content and end position of a quoted string whose opening quote
/// stands just before `i`: characters up to the closing quote `q`, with
/// backslash escapes; `None` when the quote never closes.
pub open spec fn sp_string_body(s: Seq<char>, i: int, q: char) -> Option<(Seq<char>, int)>
    decreases s.len() - i,
{
    if i < 0 || i >= s.len() {
        None
    } else if s[i] == q {
        Some((Seq::empty(), i + 1))
    } else if s[i] == '\\' {
        if i + 1 < s.len() {
            match sp_string_body(s, i + 2, q) {
                Some((rest, j)) => Some((seq![unescaped(s[i + 1])] + rest, j)),
                None => None,
            }
        } else {
            None
        }
    } else {
        match sp_string_body(s, i + 1, q) {
            Some((rest, j)) => Some((seq![s[i]] + rest, j)),
            None => None,
        }
    }
}

/// The first non-digit position at or after `i`.
pub open spec fn digits_end(s: Seq<char>, i: int) -> int
    decreases s.len() - i,
{
    if 0 <= i < s.len() && is_digit(s[i]) {
        digits_end(s, i + 1)
    } else {
        i
    }
}

/// The value of the digit run `s[i..j)`.
pub open spec fn digits_val(s: Seq<char>, i: int, j: int) -> int
    decreases j - i,
{
    if i >= j {
        0
    } else {
        digits_val(s, i, j - 1) * 10 + (s[j - 1] as u32 - 48)
    }
}

/// The end of a fraction/exponent tail starting at `e`, or `None` when the
/// characters at `e` do not continue the number.
pub open spec fn sp_float_tail(s: Seq<char>, e: int) -> Option<int> {
    if 0 <= e < s.len() && s[e] == '.' {
        let d2 = digits_end(s, e + 1);
        if d2 > e + 1 {
            if d2 < s.len() && (s[d2] == 'e' || s[d2] == 'E') {
                sp_exp_tail(s, d2 + 1)
            } else {
                Some(d2)
            }
        } else {
            None
        }
    } else if 0 <= e < s.len() && (s[e] == 'e' || s[e] == 'E') {
        sp_exp_tail(s, e + 1)
    } else {
        None
    }
}

/// The end of an exponent's digits starting at `p` (after the `e`), with an
/// optional sign.
pub open spec fn sp_exp_tail(s: Seq<char>, p: int) -> Option<int> {
    let q = if 0 <= p < s.len() && (s[p] == '+' || s[p] == '-') {
        p + 1
    } else {
        p
    };
    let d = digits_end(s, q);
    if d > q {
        Some(d)
    } else {
        None
    }
}

/// The literal an integer's digit run denotes: its value when it fits a
/// 64-bit integer, and zero otherwise — the coercion the adapter applies.
pub open spec fn int_literal(neg: bool, m: int) -> LiteralData {
    if neg {
        if -m >= i64::MIN as int {
            LiteralData::Int(-m)
        } else {
            LiteralData::Int(0)
        }
    } else {
        if m <= i64::MAX as int {
            LiteralData::Int(m)
        } else {
            LiteralData::Int(0)
        }
    }
}

/// A number starting at `i`: an optional minus, digits, and an optional
/// fraction or exponent tail. A plain digit run is an integer; one with a
/// tail is a float, which the conversion does not support.
pub open spec fn sp_number(s: Seq<char>, i: int) -> Option<(LiteralData, int)> {
    let start = if 0 <= i < s.len() && s[i] == '-' {
        i + 1
    } else {
        i
    };
    let neg = start != i;
    if 0 <= start < s.len() && is_digit(s[start]) {
        let e = digits_end(s, start);
        match sp_float_tail(s, e) {
            Some(fe) => Some((LiteralData::Unsupported, fe)),
            None => Some((int_literal(neg, digits_val(s, start, e)), e)),
        }
    } else {
        None
    }
}

/// True when the word `w` spells out at position `i`.
pub open spec fn word_at(s: Seq<char>, i: int, w: Seq<char>) -> bool {
    0 <= i && i + w.len() <= s.len() && s.subrange(i, i + w.len()) == w
}

/// One step of the grammar: a parse either runs out of fuel, fails, or
/// yields a literal and the position after it.
pub enum ParseStep {
    OutOfFuel,
    Fail,
    Done(LiteralData, int),
}

/// A value at position `i` (whitespace already skipped): a quoted string, a
/// number, one of the words `True`, `False` and `None`, a list, a
/// dictionary, a parenthesized value, or a tuple (an unsupported kind).
pub open spec fn sp_value(s: Seq<char>, i: int, fuel: nat) -> ParseStep
    decreases fuel,
{
    if fuel == 0 {
        ParseStep::OutOfFuel
    } else if i < 0 || i >= s.len() {
        ParseStep::Fail
    } else {
        let c = s[i];
        if c == '\'' || c == '"' {
            match sp_string_body(s, i + 1, c) {
                Some((content, j)) => ParseStep::Done(LiteralData::Str(content), j),
                None => ParseStep::Fail,
            }
        } else if c == '-' || is_digit(c) {
            match sp_number(s, i) {
                Some((l, j)) => ParseStep::Done(l, j),
                None => ParseStep::Fail,
            }
        } else if word_at(s, i, seq!['T', 'r', 'u', 'e']) {
            ParseStep::Done(LiteralData::Bool(true), i + 4)
        } else if word_at(s, i, seq!['F', 'a', 'l', 's', 'e']) {
            ParseStep::Done(LiteralData::Bool(false), i + 5)
        } else if word_at(s, i, seq!['N', 'o', 'n', 'e']) {
            ParseStep::Done(LiteralData::Unsupported, i + 4)
        } else if c == '[' {
            let j = skip_ws(s, i + 1);
            if 0 <= j < s.len() && s[j] == ']' {
                ParseStep::Done(LiteralData::List(Seq::empty()), j + 1)
            } else {
                sp_items(s, j, (fuel - 1) as nat)
            }
        } else if c == '{' {
            let j = skip_ws(s, i + 1);
            if 0 <= j < s.len() && s[j] == '}' {
                ParseStep::Done(LiteralData::Dict(Seq::empty()), j + 1)
            } else {
                sp_members(s, j, (fuel - 1) as nat)
            }
        } else if c == '(' {
            let j = skip_ws(s, i + 1);
            if 0 <= j < s.len() && s[j] == ')' {
                ParseStep::Done(LiteralData::Unsupported, j + 1)
            } else {
                sp_tuple_items(s, j, (fuel - 1) as nat)
            }
        } else {
            ParseStep::Fail
        }
    }
}

/// What follows the opening parenthesis of a non-empty group: a single
/// value closed directly is just that value in parentheses; one followed by
/// a comma is a tuple, an unsupported kind whose items are parsed and
/// discarded.
pub open spec fn sp_tuple_items(s: Seq<char>, i: int, fuel: nat) -> ParseStep
    decreases fuel,
{
    if fuel == 0 {
        ParseStep::OutOfFuel
    } else {
        match sp_value(s, i, (fuel - 1) as nat) {
            ParseStep::Done(item, j) => {
                let p = skip_ws(s, j);
                if 0 <= p < s.len() && s[p] == ')' {
                    ParseStep::Done(item, p + 1)
                } else if 0 <= p < s.len() && s[p] == ',' {
                    let q = skip_ws(s, p + 1);
                    if 0 <= q < s.len() && s[q] == ')' {
                        ParseStep::Done(LiteralData::Unsupported, q + 1)
                    } else {
                        match sp_tuple_items(s, q, (fuel - 1) as nat) {
                            ParseStep::Done(_, end) => ParseStep::Done(
                                LiteralData::Unsupported,
                                end,
                            ),
                            other => other,
                        }
                    }
                } else {
                    ParseStep::Fail
                }
            },
            other => other,
        }
    }
}

/// The items of a non-empty list from position `i` (whitespace skipped) up
/// to and including the closing bracket; a trailing comma is allowed.
pub open spec fn sp_items(s: Seq<char>, i: int, fuel: nat) -> ParseStep
    decreases fuel,
{
    if fuel == 0 {
        ParseStep::OutOfFuel
    } else {
        match sp_value(s, i, (fuel - 1) as nat) {
            ParseStep::Done(item, j) => {
                let p = skip_ws(s, j);
                if 0 <= p < s.len() && s[p] == ']' {
                    ParseStep::Done(LiteralData::List(seq![item]), p + 1)
                } else if 0 <= p < s.len() && s[p] == ',' {
                    let q = skip_ws(s, p + 1);
                    if 0 <= q < s.len() && s[q] == ']' {
                        ParseStep::Done(LiteralData::List(seq![item]), q + 1)
                    } else {
                        match sp_items(s, q, (fuel - 1) as nat) {
                            ParseStep::Done(l, end) => if l is List {
                                ParseStep::Done(LiteralData::List(seq![item] + l->List_0), end)
                            } else {
                                ParseStep::Fail
                            },
                            other => other,
                        }
                    }
                } else {
                    ParseStep::Fail
                }
            },
            other => other,
        }
    }
}

/// The members of a non-empty dictionary from position `i` (whitespace
/// skipped) up to and including the closing brace; a trailing comma is
/// allowed.
pub open spec fn sp_members(s: Seq<char>, i: int, fuel: nat) -> ParseStep
    decreases fuel,
{
    if fuel == 0 {
        ParseStep::OutOfFuel
    } else {
        match sp_value(s, i, (fuel - 1) as nat) {
            ParseStep::Done(key, j) => {
                let c = skip_ws(s, j);
                if 0 <= c < s.len() && s[c] == ':' {
                    match sp_value(s, skip_ws(s, c + 1), (fuel - 1) as nat) {
                        ParseStep::Done(val, j2) => {
                            let p = skip_ws(s, j2);
                            if 0 <= p < s.len() && s[p] == '}' {
                                ParseStep::Done(LiteralData::Dict(seq![(key, val)]), p + 1)
                            } else if 0 <= p < s.len() && s[p] == ',' {
                                let q = skip_ws(s, p + 1);
                                if 0 <= q < s.len() && s[q] == '}' {
                                    ParseStep::Done(LiteralData::Dict(seq![(key, val)]), q + 1)
                                } else {
                                    match sp_members(s, q, (fuel - 1) as nat) {
                                        ParseStep::Done(l, end) => if l is Dict {
                                            ParseStep::Done(
                                                LiteralData::Dict(seq![(key, val)] + l->Dict_0),
                                                end,
                                            )
                                        } else {
                                            ParseStep::Fail
                                        },
                                        other => other,
                                    }
                                }
                            } else {
                                ParseStep::Fail
                            }
                        },
                        other => other,
                    }
                } else {
                    ParseStep::Fail
                }
            },
            other => other,
        }
    }
}

/// What a whole text denotes: one value between optional whitespace, parsed
/// with fuel that the text's length bounds. `None` stands for malformed
/// text.
pub open spec fn sp_parse(s: Seq<char>) -> Option<LiteralData> {
    let i = skip_ws(s, 0);
    match sp_value(s, i, (2 * s.len() + 4) as nat) {
        ParseStep::Done(l, j) => if skip_ws(s, j) == s.len() {
            Some(l)
        } else {
            None
        },
        _ => None,
    }
}

/// More fuel never changes a parse that did not run out of it.
proof fn lemma_sp_value_mono(s: Seq<char>, i: int, f1: nat, f2: nat)
    requires
        f1 <= f2,
        !(sp_value(s, i, f1) is OutOfFuel),
    ensures
        sp_value(s, i, f2) == sp_value(s, i, f1),
    decreases f1,
{
    if i < 0 || i >= s.len() {
    } else {
        let c = s[i];
        if c == '\'' || c == '"' || c == '-' || is_digit(c) || word_at(
            s,
            i,
            seq!['T', 'r', 'u', 'e'],
        ) || word_at(s, i, seq!['F', 'a', 'l', 's', 'e']) || word_at(
            s,
            i,
            seq!['N', 'o', 'n', 'e'],
        ) {
        } else if c == '[' {
            let j = skip_ws(s, i + 1);
            if !(0 <= j < s.len() && s[j] == ']') {
                lemma_sp_items_mono(s, j, (f1 - 1) as nat, (f2 - 1) as nat);
            }
        } else if c == '{' {
            let j = skip_ws(s, i + 1);
            if !(0 <= j < s.len() && s[j] == '}') {
                lemma_sp_members_mono(s, j, (f1 - 1) as nat, (f2 - 1) as nat);
            }
        } else if c == '(' {
            let j = skip_ws(s, i + 1);
            if !(0 <= j < s.len() && s[j] == ')') {
                lemma_sp_tuple_items_mono(s, j, (f1 - 1) as nat, (f2 - 1) as nat);
            }
        }
    }
}

/// More fuel never changes a tuple parse that did not run out of it.
proof fn lemma_sp_tuple_items_mono(s: Seq<char>, i: int, f1: nat, f2: nat)
    requires
        f1 <= f2,
        !(sp_tuple_items(s, i, f1) is OutOfFuel),
    ensures
        sp_tuple_items(s, i, f2) == sp_tuple_items(s, i, f1),
    decreases f1,
{
    lemma_sp_value_mono(s, i, (f1 - 1) as nat, (f2 - 1) as nat);
    match sp_value(s, i, (f1 - 1) as nat) {
        ParseStep::Done(item, j) => {
            let p = skip_ws(s, j);
            if 0 <= p < s.len() && s[p] == ')' {
            } else if 0 <= p < s.len() && s[p] == ',' {
                let q = skip_ws(s, p + 1);
                if !(0 <= q < s.len() && s[q] == ')') {
                    lemma_sp_tuple_items_mono(s, q, (f1 - 1) as nat, (f2 - 1) as nat);
                }
            }
        },
        _ => {},
    }
}

/// More fuel never changes an item parse that did not run out of it.
proof fn lemma_sp_items_mono(s: Seq<char>, i: int, f1: nat, f2: nat)
    requires
        f1 <= f2,
        !(sp_items(s, i, f1) is OutOfFuel),
    ensures
        sp_items(s, i, f2) == sp_items(s, i, f1),
    decreases f1,
{
    lemma_sp_value_mono(s, i, (f1 - 1) as nat, (f2 - 1) as nat);
    match sp_value(s, i, (f1 - 1) as nat) {
        ParseStep::Done(item, j) => {
            let p = skip_ws(s, j);
            if 0 <= p < s.len() && s[p] == ',' {
                let q = skip_ws(s, p + 1);
                if !(0 <= q < s.len() && s[q] == ']') {
                    lemma_sp_items_mono(s, q, (f1 - 1) as nat, (f2 - 1) as nat);
                }
            }
        },
        _ => {},
    }
}

/// More fuel never changes a member parse that did not run out of it.
proof fn lemma_sp_members_mono(s: Seq<char>, i: int, f1: nat, f2: nat)
    requires
        f1 <= f2,
        !(sp_members(s, i, f1) is OutOfFuel),
    ensures
        sp_members(s, i, f2) == sp_members(s, i, f1),
    decreases f1,
{
    lemma_sp_value_mono(s, i, (f1 - 1) as nat, (f2 - 1) as nat);
    match sp_value(s, i, (f1 - 1) as nat) {
        ParseStep::Done(key, j) => {
            let c = skip_ws(s, j);
            if 0 <= c < s.len() && s[c] == ':' {
                lemma_sp_value_mono(s, skip_ws(s, c + 1), (f1 - 1) as nat, (f2 - 1) as nat);
                match sp_value(s, skip_ws(s, c + 1), (f1 - 1) as nat) {
                    ParseStep::Done(val, j2) => {
                        let p = skip_ws(s, j2);
                        if 0 <= p < s.len() && s[p] == ',' {
                            let q = skip_ws(s, p + 1);
                            if !(0 <= q < s.len() && s[q] == '}') {
                                lemma_sp_members_mono(s, q, (f1 - 1) as nat, (f2 - 1) as nat);
                            }
                        }
                    },
                    _ => {},
                }
            }
        },
        _ => {},
    }
}

// ---------------------------------------------------------------------------
// The executable parser.
// ---------------------------------------------------------------------------

/// Relies on collecting an iterator of characters into `String`: the result
/// holds exactly those characters.
#[verifier::external_body]
pub(crate) fn string_from_chars(v: &Vec<char>) -> (r: String)
    ensures
        r@ == v@,
{
    v.iter().collect()
}

/// The characters of a text, in order.
pub(crate) fn chars_of(text: &str) -> (r: Vec<char>)
    ensures
        r@ == text@,
{
    let n = text.unicode_len();
    let mut out: Vec<char> = Vec::new();
    let mut k: usize = 0;
    while k < n
        invariant
            0 <= k <= n,
            n == text@.len(),
            out@ =~= text@.take(k as int),
        decreases n - k,
    {
        out.push(text.get_char(k));
        k += 1;
    }
    proof {
        assert(text@.take(n as int) =~= text@);
    }
    out
}

/// Whether a character is whitespace.
fn e_is_ws(c: char) -> (r: bool)
    ensures
        r == is_ws(c),
{
    c == ' ' || c == '\n' || c == '\t' || c == '\r'
}

/// Whether a character is a decimal digit.
fn e_is_digit(c: char) -> (r: bool)
    ensures
        r == is_digit(c),
{
    let u = c as u32;
    48 <= u && u <= 57
}

/// Skips whitespace.
fn e_skip_ws(s: &Vec<char>, i: usize) -> (r: usize)
    requires
        i <= s@.len(),
    ensures
        r as int == skip_ws(s@, i as int),
        i <= r <= s@.len(),
{
    let mut k = i;
    while k < s.len() && e_is_ws(s[k])
        invariant
            i <= k <= s@.len(),
            skip_ws(s@, i as int) == skip_ws(s@, k as int),
        decreases s@.len() - k,
    {
        k += 1;
    }
    k
}

/// The characters of a quoted string and the position after its closing
/// quote.
fn p_string_body(s: &Vec<char>, i: usize, q: char) -> (r: Result<(Vec<char>, usize), ()>)
    requires
        i <= s@.len(),
    ensures
        match r {
            Ok((content, j)) => i < j <= s@.len() && sp_string_body(s@, i as int, q) == Some(
                (content@, j as int),
            ),
            Err(_) => sp_string_body(s@, i as int, q) is None,
        },
    decreases s@.len() - i,
{
    if i >= s.len() {
        return Err(());
    }
    let c = s[i];
    if c == q {
        return Ok((Vec::new(), i + 1));
    }
    if c == '\\' {
        if i + 1 < s.len() {
            let e = s[i + 1];
            let unescaped_char = if e == 'n' {
                '\n'
            } else if e == 't' {
                '\t'
            } else if e == 'r' {
                '\r'
            } else {
                e
            };
            match p_string_body(s, i + 2, q) {
                Ok((mut rest, j)) => {
                    rest.insert(0, unescaped_char);
                    proof {
                        assert(rest@ =~= seq![unescaped(s@[i as int + 1])]
                            + rest@.subrange(1, rest@.len() as int));
                    }
                    Ok((rest, j))
                },
                Err(_) => Err(()),
            }
        } else {
            Err(())
        }
    } else {
        match p_string_body(s, i + 1, q) {
            Ok((mut rest, j)) => {
                rest.insert(0, c);
                proof {
                    assert(rest@ =~= seq![s@[i as int]] + rest@.subrange(1, rest@.len() as int));
                }
                Ok((rest, j))
            },
            Err(_) => Err(()),
        }
    }
}

/// The first non-digit position at or after `i`.
fn e_digits_end(s: &Vec<char>, i: usize) -> (r: usize)
    requires
        i <= s@.len(),
    ensures
        r as int == digits_end(s@, i as int),
        i <= r <= s@.len(),
{
    let mut k = i;
    while k < s.len() && e_is_digit(s[k])
        invariant
            i <= k <= s@.len(),
            digits_end(s@, i as int) == digits_end(s@, k as int),
        decreases s@.len() - k,
    {
        k += 1;
    }
    k
}

/// The coerced value of a digit run: the denoted integer when it fits a
/// 64-bit integer, and zero otherwise.
fn e_int_value(s: &Vec<char>, start: usize, e: usize, neg: bool) -> (r: i64)
    requires
        start <= e <= s@.len(),
        forall|i: int| start <= i < e ==> is_digit(s@[i]),
    ensures
        LiteralData::Int(r as int) == int_literal(neg, digits_val(s@, start as int, e as int)),
{
    let limit: u128 = 9223372036854775808;
    let mut acc: u128 = 0;
    let mut k = start;
    while k < e
        invariant
            start <= k <= e <= s@.len(),
            forall|i: int| start <= i < e ==> is_digit(s@[i]),
            acc <= limit + 1,
            limit == 9223372036854775808,
            acc <= limit ==> acc as int == digits_val(s@, start as int, k as int),
            (acc <= limit <==> digits_val(s@, start as int, k as int) <= limit as int),
        decreases e - k,
    {
        let d: u128 = (s[k] as u32 - 48) as u128;
        proof {
            assert(is_digit(s@[k as int]));
            assert(digits_val(s@, start as int, k as int + 1) == digits_val(
                s@,
                start as int,
                k as int,
            ) * 10 + (s@[k as int] as u32 - 48));
            lemma_digits_val_nonneg(s@, start as int, k as int);
        }
        if acc > limit {
            acc = limit + 1;
        } else {
            let a = acc * 10 + d;
            if a > limit {
                acc = limit + 1;
            } else {
                acc = a;
            }
        }
        k += 1;
    }
    if neg {
        if acc < limit {
            -(acc as i64)
        } else if acc == limit {
            i64::MIN
        } else {
            0
        }
    } else {
        if acc < limit {
            acc as i64
        } else {
            0
        }
    }
}

/// A digit run's value is never negative.
proof fn lemma_digits_val_nonneg(s: Seq<char>, i: int, j: int)
    requires
        forall|p: int| i <= p < j ==> is_digit(s[p]),
    ensures
        digits_val(s, i, j) >= 0,
    decreases j - i,
{
    if i < j {
        lemma_digits_val_nonneg(s, i, j - 1);
    }
}

/// The end of a fraction or exponent tail, if the number continues at `e`.
fn e_float_tail(s: &Vec<char>, e: usize) -> (r: Option<usize>)
    requires
        e <= s@.len(),
    ensures
        match r {
            Some(fe) => sp_float_tail(s@, e as int) == Some(fe as int) && e < fe <= s@.len(),
            None => sp_float_tail(s@, e as int) is None,
        },
{
    if e < s.len() && s[e] == '.' {
        let d2 = e_digits_end(s, e + 1);
        if d2 > e + 1 {
            if d2 < s.len() && (s[d2] == 'e' || s[d2] == 'E') {
                e_exp_tail(s, d2 + 1)
            } else {
                Some(d2)
            }
        } else {
            None
        }
    } else if e < s.len() && (s[e] == 'e' || s[e] == 'E') {
        e_exp_tail(s, e + 1)
    } else {
        None
    }
}

/// The end of an exponent's digits, if there are any.
fn e_exp_tail(s: &Vec<char>, p: usize) -> (r: Option<usize>)
    requires
        p <= s@.len(),
    ensures
        match r {
            Some(d) => sp_exp_tail(s@, p as int) == Some(d as int) && p <= d <= s@.len(),
            None => sp_exp_tail(s@, p as int) is None,
        },
{
    let q = if p < s.len() && (s[p] == '+' || s[p] == '-') {
        p + 1
    } else {
        p
    };
    let d = e_digits_end(s, q);
    if d > q {
        Some(d)
    } else {
        None
    }
}

/// A number at position `i`.
fn p_number(s: &Vec<char>, i: usize) -> (r: Result<(Literal, usize), ()>)
    requires
        i < s@.len(),
    ensures
        match r {
            Ok((l, j)) => i < j <= s@.len() && sp_number(s@, i as int) == Some(
                (l.deep_view(), j as int),
            ),
            Err(_) => sp_number(s@, i as int) is None,
        },
{
    let n = s.len();
    let start = if s[i] == '-' {
        i + 1
    } else {
        i
    };
    let neg = start != i;
    if start < n && e_is_digit(s[start]) {
        let e = e_digits_end(s, start);
        proof {
            lemma_digits_end_digits(s@, start as int);
            lemma_digits_end_digits(s@, start as int + 1);
            assert(digits_end(s@, start as int) == digits_end(s@, start as int + 1));
        }
        match e_float_tail(s, e) {
            Some(fe) => Ok((Literal::Unsupported, fe)),
            None => {
                let value = e_int_value(s, start, e, neg);
                Ok((Literal::Int(value), e))
            },
        }
    } else {
        Err(())
    }
}

/// Every position of a digit run holds a digit.
proof fn lemma_digits_end_digits(s: Seq<char>, i: int)
    requires
        0 <= i <= s.len(),
    ensures
        i <= digits_end(s, i) <= s.len(),
        forall|p: int| i <= p < digits_end(s, i) ==> is_digit(s[p]),
    decreases s.len() - i,
{
    if i < s.len() && is_digit(s[i]) {
        lemma_digits_end_digits(s, i + 1);
    }
}

/// A value at position `i`; `Ok` carries the parsed literal and the
/// position after it, with a fuel witness the text's length bounds.
#[verifier::rlimit(60)]
fn p_value(s: &Vec<char>, i: usize) -> (r: Result<(Literal, usize), ()>)
    requires
        i <= s@.len(),
    ensures
        match r {
            Ok((l, j)) => i < j <= s@.len() && exists|f: nat|
                f <= 2 * (s@.len() - i) + 1 && sp_value(s@, i as int, f) == ParseStep::Done(
                    l.deep_view(),
                    j as int,
                ),
            Err(_) => exists|f: nat|
                f <= 2 * (s@.len() - i) + 1 && sp_value(s@, i as int, f) == ParseStep::Fail,
        },
    decreases s@.len() - i, 0int,
{
    if i >= s.len() {
        proof {
            assert(sp_value(s@, i as int, 1) == ParseStep::Fail);
        }
        return Err(());
    }
    let c = s[i];
    if c == '\'' || c == '"' {
        match p_string_body(s, i + 1, c) {
            Ok((content, j)) => {
                let text = string_from_chars(&content);
                proof {
                    assert(sp_value(s@, i as int, 1) == ParseStep::Done(
                        LiteralData::Str(content@),
                        j as int,
                    ));
                }
                Ok((Literal::Str(text), j))
            },
            Err(_) => {
                proof {
                    assert(sp_value(s@, i as int, 1) == ParseStep::Fail);
                }
                Err(())
            },
        }
    } else if c == '-' || e_is_digit(c) {
        match p_number(s, i) {
            Ok((l, j)) => {
                proof {
                    assert(sp_value(s@, i as int, 1) == ParseStep::Done(l.deep_view(), j as int));
                }
                Ok((l, j))
            },
            Err(_) => {
                proof {
                    assert(sp_value(s@, i as int, 1) == ParseStep::Fail);
                }
                Err(())
            },
        }
    } else if word_true(s, i) {
        proof {
            assert(sp_value(s@, i as int, 1) == ParseStep::Done(
                LiteralData::Bool(true),
                i as int + 4,
            ));
        }
        Ok((Literal::Bool(true), i + 4))
    } else if word_false(s, i) {
        proof {
            assert(sp_value(s@, i as int, 1) == ParseStep::Done(
                LiteralData::Bool(false),
                i as int + 5,
            ));
        }
        Ok((Literal::Bool(false), i + 5))
    } else if word_none(s, i) {
        proof {
            assert(sp_value(s@, i as int, 1) == ParseStep::Done(
                LiteralData::Unsupported,
                i as int + 4,
            ));
        }
        Ok((Literal::Unsupported, i + 4))
    } else if c == '[' {
        let j = e_skip_ws(s, i + 1);
        if j < s.len() && s[j] == ']' {
            let empty_items: Vec<Literal> = Vec::new();
            proof {
                assert(sp_value(s@, i as int, 1) == ParseStep::Done(
                    LiteralData::List(Seq::empty()),
                    j as int + 1,
                ));
                let lv = literal_view(Literal::List(empty_items));
                assert(lv is List);
                assert(lv->List_0.len() == 0);
                assert(lv->List_0 =~= Seq::<LiteralData>::empty());
                assert(lv =~~= LiteralData::List(Seq::<LiteralData>::empty()));
                assert(Literal::List(empty_items).deep_view() == lv);
            }
            Ok((Literal::List(empty_items), j + 1))
        } else {
            match p_items(s, j) {
                Ok((items, end)) => {
                    proof {
                        let fi = choose|f: nat|
                            f <= 2 * (s@.len() - j) + 2 && sp_items(s@, j as int, f)
                                == ParseStep::Done(Literal::List(items).deep_view(), end as int);
                        assert(sp_value(s@, i as int, fi + 1) == ParseStep::Done(
                            Literal::List(items).deep_view(),
                            end as int,
                        ));
                        assert(fi + 1 <= 2 * (s@.len() - i) + 1);
                    }
                    Ok((Literal::List(items), end))
                },
                Err(_) => {
                    proof {
                        let fi = choose|f: nat|
                            f <= 2 * (s@.len() - j) + 2 && sp_items(s@, j as int, f)
                                == ParseStep::Fail;
                        assert(sp_value(s@, i as int, fi + 1) == ParseStep::Fail);
                    }
                    Err(())
                },
            }
        }
    } else if c == '(' {
        let j = e_skip_ws(s, i + 1);
        if j < s.len() && s[j] == ')' {
            proof {
                assert(sp_value(s@, i as int, 1) == ParseStep::Done(
                    LiteralData::Unsupported,
                    j as int + 1,
                ));
            }
            Ok((Literal::Unsupported, j + 1))
        } else {
            match p_tuple_items(s, j) {
                Ok((l, end)) => {
                    proof {
                        let fi = choose|f: nat|
                            f <= 2 * (s@.len() - j) + 2 && sp_tuple_items(s@, j as int, f)
                                == ParseStep::Done(l.deep_view(), end as int);
                        assert(sp_value(s@, i as int, fi + 1) == ParseStep::Done(
                            l.deep_view(),
                            end as int,
                        ));
                        assert(fi + 1 <= 2 * (s@.len() - i) + 1);
                    }
                    Ok((l, end))
                },
                Err(_) => {
                    proof {
                        let fi = choose|f: nat|
                            f <= 2 * (s@.len() - j) + 2 && sp_tuple_items(s@, j as int, f)
                                == ParseStep::Fail;
                        assert(sp_value(s@, i as int, fi + 1) == ParseStep::Fail);
                    }
                    Err(())
                },
            }
        }
    } else if c == '{' {
        let j = e_skip_ws(s, i + 1);
        if j < s.len() && s[j] == '}' {
            let empty_pairs: Vec<(Literal, Literal)> = Vec::new();
            proof {
                assert(sp_value(s@, i as int, 1) == ParseStep::Done(
                    LiteralData::Dict(Seq::empty()),
                    j as int + 1,
                ));
                let dv = literal_view(Literal::Dict(empty_pairs));
                assert(dv is Dict);
                assert(dv->Dict_0.len() == 0);
                assert(dv->Dict_0 =~= Seq::<(LiteralData, LiteralData)>::empty());
                assert(dv =~~= LiteralData::Dict(Seq::<(LiteralData, LiteralData)>::empty()));
                assert(Literal::Dict(empty_pairs).deep_view() == dv);
            }
            Ok((Literal::Dict(empty_pairs), j + 1))
        } else {
            match p_members(s, j) {
                Ok((pairs, end)) => {
                    proof {
                        let fi = choose|f: nat|
                            f <= 2 * (s@.len() - j) + 2 && sp_members(s@, j as int, f)
                                == ParseStep::Done(Literal::Dict(pairs).deep_view(), end as int);
                        assert(sp_value(s@, i as int, fi + 1) == ParseStep::Done(
                            Literal::Dict(pairs).deep_view(),
                            end as int,
                        ));
                        assert(fi + 1 <= 2 * (s@.len() - i) + 1);
                    }
                    Ok((Literal::Dict(pairs), end))
                },
                Err(_) => {
                    proof {
                        let fi = choose|f: nat|
                            f <= 2 * (s@.len() - j) + 2 && sp_members(s@, j as int, f)
                                == ParseStep::Fail;
                        assert(sp_value(s@, i as int, fi + 1) == ParseStep::Fail);
                    }
                    Err(())
                },
            }
        }
    } else {
        proof {
            assert(sp_value(s@, i as int, 1) == ParseStep::Fail);
        }
        Err(())
    }
}

/// Whether `True` spells out at position `i`.
fn word_true(s: &Vec<char>, i: usize) -> (r: bool)
    requires
        i <= s@.len(),
    ensures
        r == word_at(s@, i as int, seq!['T', 'r', 'u', 'e']),
{
    if s.len() - i >= 4 && s[i] == 'T' && s[i + 1] == 'r' && s[i + 2] == 'u' && s[i + 3] == 'e' {
        proof {
            assert(s@.subrange(i as int, i as int + 4) =~= seq!['T', 'r', 'u', 'e']);
        }
        true
    } else {
        proof {
            if i + 4 <= s@.len() {
                assert(s@.subrange(i as int, i as int + 4)[0] == s@[i as int]);
                assert(s@.subrange(i as int, i as int + 4)[1] == s@[i as int + 1]);
                assert(s@.subrange(i as int, i as int + 4)[2] == s@[i as int + 2]);
                assert(s@.subrange(i as int, i as int + 4)[3] == s@[i as int + 3]);
            }
        }
        false
    }
}

/// Whether `False` spells out at position `i`.
fn word_false(s: &Vec<char>, i: usize) -> (r: bool)
    requires
        i <= s@.len(),
    ensures
        r == word_at(s@, i as int, seq!['F', 'a', 'l', 's', 'e']),
{
    if s.len() - i >= 5 && s[i] == 'F' && s[i + 1] == 'a' && s[i + 2] == 'l' && s[i + 3] == 's'
        && s[i + 4] == 'e' {
        proof {
            assert(s@.subrange(i as int, i as int + 5) =~= seq!['F', 'a', 'l', 's', 'e']);
        }
        true
    } else {
        proof {
            if i + 5 <= s@.len() {
                assert(s@.subrange(i as int, i as int + 5)[0] == s@[i as int]);
                assert(s@.subrange(i as int, i as int + 5)[1] == s@[i as int + 1]);
                assert(s@.subrange(i as int, i as int + 5)[2] == s@[i as int + 2]);
                assert(s@.subrange(i as int, i as int + 5)[3] == s@[i as int + 3]);
                assert(s@.subrange(i as int, i as int + 5)[4] == s@[i as int + 4]);
            }
        }
        false
    }
}

/// Whether `None` spells out at position `i`.
fn word_none(s: &Vec<char>, i: usize) -> (r: bool)
    requires
        i <= s@.len(),
    ensures
        r == word_at(s@, i as int, seq!['N', 'o', 'n', 'e']),
{
    if s.len() - i >= 4 && s[i] == 'N' && s[i + 1] == 'o' && s[i + 2] == 'n' && s[i + 3] == 'e' {
        proof {
            assert(s@.subrange(i as int, i as int + 4) =~= seq!['N', 'o', 'n', 'e']);
        }
        true
    } else {
        proof {
            if i + 4 <= s@.len() {
                assert(s@.subrange(i as int, i as int + 4)[0] == s@[i as int]);
                assert(s@.subrange(i as int, i as int + 4)[1] == s@[i as int + 1]);
                assert(s@.subrange(i as int, i as int + 4)[2] == s@[i as int + 2]);
                assert(s@.subrange(i as int, i as int + 4)[3] == s@[i as int + 3]);
            }
        }
        false
    }
}

/// The items of a non-empty list, from `i` through the closing bracket.
#[verifier::rlimit(60)]
fn p_items(s: &Vec<char>, i: usize) -> (r: Result<(Vec<Literal>, usize), ()>)
    requires
        i <= s@.len(),
    ensures
        match r {
            Ok((items, end)) => i < end <= s@.len() && exists|f: nat|
                f <= 2 * (s@.len() - i) + 2 && sp_items(s@, i as int, f) == ParseStep::Done(
                    Literal::List(items).deep_view(),
                    end as int,
                ),
            Err(_) => exists|f: nat|
                f <= 2 * (s@.len() - i) + 2 && sp_items(s@, i as int, f) == ParseStep::Fail,
        },
    decreases s@.len() - i, 1int,
{
    let (item, j) = match p_value(s, i) {
        Ok(pair) => pair,
        Err(_) => {
            proof {
                let fv = choose|f: nat|
                    f <= 2 * (s@.len() - i) + 1 && sp_value(s@, i as int, f) == ParseStep::Fail;
                assert(sp_items(s@, i as int, fv + 1) == ParseStep::Fail);
            }
            return Err(());
        },
    };
    let ghost fv = choose|f: nat|
        f <= 2 * (s@.len() - i) + 1 && sp_value(s@, i as int, f) == ParseStep::Done(
            item.deep_view(),
            j as int,
        );
    let p = e_skip_ws(s, j);
    if p < s.len() && s[p] == ']' {
        let mut items: Vec<Literal> = Vec::new();
        items.push(item);
        proof {
            assert(sp_items(s@, i as int, fv + 1) matches ParseStep::Done(l, end) && l
                == Literal::List(items).deep_view() && end == p as int + 1) by {
                assert(Literal::List(items).deep_view()->List_0 =~= seq![items@[0].deep_view()]);
            }
        }
        Ok((items, p + 1))
    } else if p < s.len() && s[p] == ',' {
        let q = e_skip_ws(s, p + 1);
        if q < s.len() && s[q] == ']' {
            let mut items: Vec<Literal> = Vec::new();
            items.push(item);
            proof {
                assert(sp_items(s@, i as int, fv + 1) matches ParseStep::Done(l, end) && l
                    == Literal::List(items).deep_view() && end == q as int + 1) by {
                    assert(Literal::List(items).deep_view()->List_0
                        =~= seq![items@[0].deep_view()]);
                }
            }
            Ok((items, q + 1))
        } else {
            match p_items(s, q) {
                Ok((mut items, end)) => {
                    let ghost rest_view = Literal::List(items).deep_view();
                    let ghost fr = choose|f: nat|
                        f <= 2 * (s@.len() - q) + 2 && sp_items(s@, q as int, f) == ParseStep::Done(
                            rest_view,
                            end as int,
                        );
                    let ghost item_view = item.deep_view();
                    let ghost items_before = items@;
                    items.insert(0, item);
                    proof {
                        let fmax = if fv >= fr {
                            fv
                        } else {
                            fr
                        };
                        lemma_sp_value_mono(s@, i as int, fv, fmax);
                        lemma_sp_items_mono(s@, q as int, fr, fmax);
                        assert(items@ =~= seq![items@[0]] + items_before);
                        assert(Literal::List(items).deep_view()->List_0 =~= seq![item_view]
                            + rest_view->List_0);
                        assert(sp_items(s@, i as int, fmax + 1) == ParseStep::Done(
                            Literal::List(items).deep_view(),
                            end as int,
                        ));
                        assert(fmax + 1 <= 2 * (s@.len() - i) + 2);
                    }
                    Ok((items, end))
                },
                Err(_) => {
                    proof {
                        let fr = choose|f: nat|
                            f <= 2 * (s@.len() - q) + 2 && sp_items(s@, q as int, f)
                                == ParseStep::Fail;
                        let fmax = if fv >= fr {
                            fv
                        } else {
                            fr
                        };
                        lemma_sp_value_mono(s@, i as int, fv, fmax);
                        lemma_sp_items_mono(s@, q as int, fr, fmax);
                        assert(sp_items(s@, i as int, fmax + 1) == ParseStep::Fail);
                    }
                    Err(())
                },
            }
        }
    } else {
        proof {
            assert(sp_items(s@, i as int, fv + 1) == ParseStep::Fail);
        }
        Err(())
    }
}

/// What follows the opening parenthesis of a non-empty group, through the
/// closing parenthesis: a directly closed single value, or a tuple whose
/// items are parsed and discarded.
#[verifier::rlimit(60)]
fn p_tuple_items(s: &Vec<char>, i: usize) -> (r: Result<(Literal, usize), ()>)
    requires
        i <= s@.len(),
    ensures
        match r {
            Ok((l, end)) => i < end <= s@.len() && exists|f: nat|
                f <= 2 * (s@.len() - i) + 2 && sp_tuple_items(s@, i as int, f) == ParseStep::Done(
                    l.deep_view(),
                    end as int,
                ),
            Err(_) => exists|f: nat|
                f <= 2 * (s@.len() - i) + 2 && sp_tuple_items(s@, i as int, f) == ParseStep::Fail,
        },
    decreases s@.len() - i, 1int,
{
    let (item, j) = match p_value(s, i) {
        Ok(pair) => pair,
        Err(_) => {
            proof {
                let fv = choose|f: nat|
                    f <= 2 * (s@.len() - i) + 1 && sp_value(s@, i as int, f) == ParseStep::Fail;
                assert(sp_tuple_items(s@, i as int, fv + 1) == ParseStep::Fail);
            }
            return Err(());
        },
    };
    let ghost fv = choose|f: nat|
        f <= 2 * (s@.len() - i) + 1 && sp_value(s@, i as int, f) == ParseStep::Done(
            item.deep_view(),
            j as int,
        );
    let p = e_skip_ws(s, j);
    if p < s.len() && s[p] == ')' {
        proof {
            assert(sp_tuple_items(s@, i as int, fv + 1) == ParseStep::Done(
                item.deep_view(),
                p as int + 1,
            ));
        }
        Ok((item, p + 1))
    } else if p < s.len() && s[p] == ',' {
        let q = e_skip_ws(s, p + 1);
        if q < s.len() && s[q] == ')' {
            proof {
                assert(sp_tuple_items(s@, i as int, fv + 1) == ParseStep::Done(
                    LiteralData::Unsupported,
                    q as int + 1,
                ));
            }
            Ok((Literal::Unsupported, q + 1))
        } else {
            match p_tuple_items(s, q) {
                Ok((rest_value, end)) => {
                    let ghost fr = choose|f: nat|
                        f <= 2 * (s@.len() - q) + 2 && sp_tuple_items(s@, q as int, f)
                            == ParseStep::Done(rest_value.deep_view(), end as int);
                    proof {
                        let fmax = if fv >= fr {
                            fv
                        } else {
                            fr
                        };
                        lemma_sp_value_mono(s@, i as int, fv, fmax);
                        lemma_sp_tuple_items_mono(s@, q as int, fr, fmax);
                        assert(sp_tuple_items(s@, i as int, fmax + 1) == ParseStep::Done(
                            LiteralData::Unsupported,
                            end as int,
                        ));
                        assert(fmax + 1 <= 2 * (s@.len() - i) + 2);
                    }
                    Ok((Literal::Unsupported, end))
                },
                Err(_) => {
                    proof {
                        let fr = choose|f: nat|
                            f <= 2 * (s@.len() - q) + 2 && sp_tuple_items(s@, q as int, f)
                                == ParseStep::Fail;
                        let fmax = if fv >= fr {
                            fv
                        } else {
                            fr
                        };
                        lemma_sp_value_mono(s@, i as int, fv, fmax);
                        lemma_sp_tuple_items_mono(s@, q as int, fr, fmax);
                        assert(sp_tuple_items(s@, i as int, fmax + 1) == ParseStep::Fail);
                    }
                    Err(())
                },
            }
        }
    } else {
        proof {
            assert(sp_tuple_items(s@, i as int, fv + 1) == ParseStep::Fail);
        }
        Err(())
    }
}

/// The members of a non-empty dictionary, from `i` through the closing
/// brace.
#[verifier::rlimit(60)]
fn p_members(s: &Vec<char>, i: usize) -> (r: Result<(Vec<(Literal, Literal)>, usize), ()>)
    requires
        i <= s@.len(),
    ensures
        match r {
            Ok((pairs, end)) => i < end <= s@.len() && exists|f: nat|
                f <= 2 * (s@.len() - i) + 2 && sp_members(s@, i as int, f) == ParseStep::Done(
                    Literal::Dict(pairs).deep_view(),
                    end as int,
                ),
            Err(_) => exists|f: nat|
                f <= 2 * (s@.len() - i) + 2 && sp_members(s@, i as int, f) == ParseStep::Fail,
        },
    decreases s@.len() - i, 1int,
{
    let (key, j) = match p_value(s, i) {
        Ok(pair) => pair,
        Err(_) => {
            proof {
                let fk = choose|f: nat|
                    f <= 2 * (s@.len() - i) + 1 && sp_value(s@, i as int, f) == ParseStep::Fail;
                assert(sp_members(s@, i as int, fk + 1) == ParseStep::Fail);
            }
            return Err(());
        },
    };
    let ghost fk = choose|f: nat|
        f <= 2 * (s@.len() - i) + 1 && sp_value(s@, i as int, f) == ParseStep::Done(
            key.deep_view(),
            j as int,
        );
    let c = e_skip_ws(s, j);
    if !(c < s.len() && s[c] == ':') {
        proof {
            assert(sp_members(s@, i as int, fk + 1) == ParseStep::Fail);
        }
        return Err(());
    }
    let v0 = e_skip_ws(s, c + 1);
    let (val, j2) = match p_value(s, v0) {
        Ok(pair) => pair,
        Err(_) => {
            proof {
                let fv = choose|f: nat|
                    f <= 2 * (s@.len() - v0) + 1 && sp_value(s@, v0 as int, f) == ParseStep::Fail;
                let fmax = if fk >= fv {
                    fk
                } else {
                    fv
                };
                lemma_sp_value_mono(s@, i as int, fk, fmax);
                lemma_sp_value_mono(s@, v0 as int, fv, fmax);
                assert(sp_members(s@, i as int, fmax + 1) == ParseStep::Fail);
            }
            return Err(());
        },
    };
    let ghost fv = choose|f: nat|
        f <= 2 * (s@.len() - v0) + 1 && sp_value(s@, v0 as int, f) == ParseStep::Done(
            val.deep_view(),
            j2 as int,
        );
    let ghost key_view = key.deep_view();
    let ghost val_view = val.deep_view();
    let p = e_skip_ws(s, j2);
    if p < s.len() && s[p] == '}' {
        let mut pairs: Vec<(Literal, Literal)> = Vec::new();
        pairs.push((key, val));
        proof {
            let fmax = if fk >= fv {
                fk
            } else {
                fv
            };
            lemma_sp_value_mono(s@, i as int, fk, fmax);
            lemma_sp_value_mono(s@, v0 as int, fv, fmax);
            assert(Literal::Dict(pairs).deep_view()->Dict_0 =~= seq![(key_view, val_view)]);
            assert(sp_members(s@, i as int, fmax + 1) == ParseStep::Done(
                Literal::Dict(pairs).deep_view(),
                p as int + 1,
            ));
            assert(fmax + 1 <= 2 * (s@.len() - i) + 2);
        }
        Ok((pairs, p + 1))
    } else if p < s.len() && s[p] == ',' {
        let q = e_skip_ws(s, p + 1);
        if q < s.len() && s[q] == '}' {
            let mut pairs: Vec<(Literal, Literal)> = Vec::new();
            pairs.push((key, val));
            proof {
                let fmax = if fk >= fv {
                    fk
                } else {
                    fv
                };
                lemma_sp_value_mono(s@, i as int, fk, fmax);
                lemma_sp_value_mono(s@, v0 as int, fv, fmax);
                assert(Literal::Dict(pairs).deep_view()->Dict_0 =~= seq![(key_view, val_view)]);
                assert(sp_members(s@, i as int, fmax + 1) == ParseStep::Done(
                    Literal::Dict(pairs).deep_view(),
                    q as int + 1,
                ));
                assert(fmax + 1 <= 2 * (s@.len() - i) + 2);
            }
            Ok((pairs, q + 1))
        } else {
            match p_members(s, q) {
                Ok((mut pairs, end)) => {
                    let ghost rest_view = Literal::Dict(pairs).deep_view();
                    let ghost fr = choose|f: nat|
                        f <= 2 * (s@.len() - q) + 2 && sp_members(s@, q as int, f)
                            == ParseStep::Done(rest_view, end as int);
                    let ghost pairs_before = pairs@;
                    pairs.insert(0, (key, val));
                    proof {
                        let f2 = if fk >= fv {
                            fk
                        } else {
                            fv
                        };
                        let fmax = if f2 >= fr {
                            f2
                        } else {
                            fr
                        };
                        lemma_sp_value_mono(s@, i as int, fk, fmax);
                        lemma_sp_value_mono(s@, v0 as int, fv, fmax);
                        lemma_sp_members_mono(s@, q as int, fr, fmax);
                        assert(pairs@ =~= seq![pairs@[0]] + pairs_before);
                        assert(Literal::Dict(pairs).deep_view()->Dict_0
                            =~= seq![(key_view, val_view)] + rest_view->Dict_0);
                        assert(sp_members(s@, i as int, fmax + 1) == ParseStep::Done(
                            Literal::Dict(pairs).deep_view(),
                            end as int,
                        ));
                        assert(fmax + 1 <= 2 * (s@.len() - i) + 2);
                    }
                    Ok((pairs, end))
                },
                Err(_) => {
                    proof {
                        let fr = choose|f: nat|
                            f <= 2 * (s@.len() - q) + 2 && sp_members(s@, q as int, f)
                                == ParseStep::Fail;
                        let f2 = if fk >= fv {
                            fk
                        } else {
                            fv
                        };
                        let fmax = if f2 >= fr {
                            f2
                        } else {
                            fr
                        };
                        lemma_sp_value_mono(s@, i as int, fk, fmax);
                        lemma_sp_value_mono(s@, v0 as int, fv, fmax);
                        lemma_sp_members_mono(s@, q as int, fr, fmax);
                        assert(sp_members(s@, i as int, fmax + 1) == ParseStep::Fail);
                    }
                    Err(())
                },
            }
        }
    } else {
        proof {
            let fmax = if fk >= fv {
                fk
            } else {
                fv
            };
            lemma_sp_value_mono(s@, i as int, fk, fmax);
            lemma_sp_value_mono(s@, v0 as int, fv, fmax);
            assert(sp_members(s@, i as int, fmax + 1) == ParseStep::Fail);
        }
        Err(())
    }
}

/// Parses one literal out of a text: one value between optional
/// whitespace. Malformed text is a decode error.
pub fn parse_literal(text: &str) -> (r: Result<Literal, AgentError>)
    ensures
        match r {
            Ok(l) => sp_parse(text@) == Some(l.deep_view()),
            Err(e) => sp_parse(text@) is None && e is Decode,
        },
{
    let chars = chars_of(text);
    let i0 = e_skip_ws(&chars, 0);
    match p_value(&chars, i0) {
        Ok((l, j)) => {
            let end = e_skip_ws(&chars, j);
            proof {
                let f = choose|f: nat|
                    f <= 2 * (chars@.len() - i0) + 1 && sp_value(chars@, i0 as int, f)
                        == ParseStep::Done(l.deep_view(), j as int);
                lemma_sp_value_mono(chars@, i0 as int, f, (2 * chars@.len() + 4) as nat);
            }
            if end == chars.len() {
                Ok(l)
            } else {
                Err(malformed_literal())
            }
        },
        Err(_) => {
            proof {
                let f = choose|f: nat|
                    f <= 2 * (chars@.len() - i0) + 1 && sp_value(chars@, i0 as int, f)
                        == ParseStep::Fail;
                lemma_sp_value_mono(chars@, i0 as int, f, (2 * chars@.len() + 4) as nat);
            }
            Err(malformed_literal())
        },
    }
}

/// The decode error for text that is not a literal.
fn malformed_literal() -> (r: AgentError)
    ensures
        r is Decode,
{
    AgentError::Decode(
        {
            let m = "the payload is not a literal";
            m.to_owned()
        },
    )
}

} // verus!
