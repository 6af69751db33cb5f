//! JSON values as the protocol handler and the file formats read and build
//! them, with their mathematical model.
use vstd::prelude::*;
use crate::text::{name_le, str_eq};
use serde_json::Value;

verus! {

/// A JSON value.
///
/// Integers are held exactly; a number that is not an integer is carried
/// through as its JSON text, since nothing here computes with it. An object
/// keeps its members in order.
#[derive(Debug, PartialEq)]
pub enum Json {
    Null,
    Bool(bool),
    Int(i128),
    Float(String),
    Str(String),
    Array(Vec<Json>),
    Object(Vec<(String, Json)>),
}

/// The mathematical model of a JSON value.
pub enum JsonView {
    Null,
    Bool(bool),
    Int(int),
    Float(Seq<char>),
    Str(Seq<char>),
    Array(Seq<JsonView>),
    Object(Seq<(Seq<char>, JsonView)>),
}

/// The models of a sequence of JSON values.
pub open spec fn view_items(items: Seq<Json>) -> Seq<JsonView>
    decreases items,
{
    if items.len() == 0 {
        Seq::empty()
    } else {
        view_items(items.drop_last()).push(view_json(items.last()))
    }
}

/// The models of the members of a JSON object.
pub open spec fn view_fields(fields: Seq<(String, Json)>) -> Seq<(Seq<char>, JsonView)>
    decreases fields,
{
    if fields.len() == 0 {
        Seq::empty()
    } else {
        view_fields(fields.drop_last()).push((fields.last().0@, view_json(fields.last().1)))
    }
}

/// The model of a JSON value.
pub open spec fn view_json(j: Json) -> JsonView
    decreases j,
{
    match j {
        Json::Null => JsonView::Null,
        Json::Bool(b) => JsonView::Bool(b),
        Json::Int(n) => JsonView::Int(n as int),
        Json::Float(t) => JsonView::Float(t@),
        Json::Str(s) => JsonView::Str(s@),
        Json::Array(items) => JsonView::Array(view_items(items@)),
        Json::Object(fields) => JsonView::Object(view_fields(fields@)),
    }
}

impl View for Json {
    type V = JsonView;

    open spec fn view(&self) -> JsonView {
        view_json(*self)
    }
}

pub proof fn lemma_view_items(items: Seq<Json>)
    ensures
        view_items(items).len() == items.len(),
        forall|i: int| 0 <= i < items.len() ==> #[trigger] view_items(items)[i] == view_json(items[i]),
    decreases items.len(),
{
    if items.len() > 0 {
        lemma_view_items(items.drop_last());
    }
}

pub proof fn lemma_view_fields(fields: Seq<(String, Json)>)
    ensures
        view_fields(fields).len() == fields.len(),
        forall|i: int|
            0 <= i < fields.len() ==> #[trigger] view_fields(fields)[i] == (
                fields[i].0@,
                view_json(fields[i].1),
            ),
    decreases fields.len(),
{
    if fields.len() > 0 {
        lemma_view_fields(fields.drop_last());
    }
}

/// The value of the first member named `key`, if any.
pub open spec fn lookup(fields: Seq<(Seq<char>, JsonView)>, key: Seq<char>) -> Option<JsonView>
    decreases fields.len(),
{
    if fields.len() == 0 {
        None
    } else if fields[0].0 == key {
        Some(fields[0].1)
    } else {
        lookup(fields.drop_first(), key)
    }
}

/// What indexing a JSON value by a key gives: the member of an object, and
/// nothing for any other value.
pub open spec fn get(v: JsonView, key: Seq<char>) -> Option<JsonView> {
    match v {
        JsonView::Object(fields) => lookup(fields, key),
        _ => None,
    }
}

/// How many members of an object carry the name `key`.
pub open spec fn members_named(fields: Seq<(Seq<char>, JsonView)>, key: Seq<char>) -> nat
    decreases fields.len(),
{
    if fields.len() == 0 {
        0
    } else {
        (if fields[0].0 == key { 1nat } else { 0nat }) + members_named(fields.drop_first(), key)
    }
}

/// The text of a JSON string, and nothing for any other value.
pub open spec fn str_of(v: Option<JsonView>) -> Option<Seq<char>> {
    match v {
        Some(JsonView::Str(s)) => Some(s),
        _ => None,
    }
}

/// The empty JSON object.
pub open spec fn empty_object() -> JsonView {
    JsonView::Object(Seq::empty())
}

/// The model of a JSON string.
pub open spec fn jstr(s: Seq<char>) -> JsonView {
    JsonView::Str(s)
}

pub proof fn lemma_lookup_found(fields: Seq<(Seq<char>, JsonView)>, key: Seq<char>, i: int)
    requires
        0 <= i < fields.len(),
        fields[i].0 == key,
        forall|k: int| 0 <= k < i ==> fields[k].0 != key,
    ensures
        lookup(fields, key) == Some(fields[i].1),
    decreases i,
{
    if i > 0 {
        lemma_lookup_found(fields.drop_first(), key, i - 1);
    }
}

pub proof fn lemma_lookup_absent(fields: Seq<(Seq<char>, JsonView)>, key: Seq<char>)
    requires
        forall|k: int| 0 <= k < fields.len() ==> fields[k].0 != key,
    ensures
        lookup(fields, key) is None,
    decreases fields.len(),
{
    if fields.len() > 0 {
        lemma_lookup_absent(fields.drop_first(), key);
    }
}

/// Builds a JSON string from a string slice.
pub fn json_str(s: &str) -> (r: Json)
    ensures
        r@ == jstr(s@),
{
    Json::Str(s.to_owned())
}

/// Appends an item to a JSON array under construction.
pub fn push_item(items: &mut Vec<Json>, item: Json)
    ensures
        view_items(final(items)@) == view_items(old(items)@).push(item@),
        final(items)@.len() == old(items)@.len() + 1,
{
    let ghost before = items@;
    items.push(item);
    assert(items@.drop_last() == before);
}

/// Appends a member to a JSON object under construction.
pub fn push_field(fields: &mut Vec<(String, Json)>, key: &str, value: Json)
    ensures
        view_fields(final(fields)@) == view_fields(old(fields)@).push((key@, value@)),
        final(fields)@.len() == old(fields)@.len() + 1,
{
    let ghost before = fields@;
    fields.push((key.to_owned(), value));
    assert(fields@.drop_last() == before);
}

impl Json {
    /// A deep copy of the value.
    pub fn copy(&self) -> (r: Json)
        ensures
            r@ == self@,
        decreases self,
    {
        match self {
            Json::Null => Json::Null,
            Json::Bool(b) => Json::Bool(*b),
            Json::Int(n) => Json::Int(*n),
            Json::Float(t) => Json::Float(t.clone()),
            Json::Str(s) => Json::Str(s.clone()),
            Json::Array(items) => {
                let mut out: Vec<Json> = Vec::new();
                let mut i: usize = 0;
                while i < items.len()
                    invariant
                        i <= items@.len(),
                        *self == Json::Array(*items),
                        view_items(out@) == view_items(items@.take(i as int)),
                    decreases items@.len() - i,
                {
                    proof {
                        assert(decreases_to!(*self => (*self)->Array_0));
                        assert(decreases_to!(*items => items@));
                        assert(decreases_to!(items@ => items@[i as int]));
                    }
                    let c = items[i].copy();
                    push_item(&mut out, c);
                    assert(items@.take(i + 1).drop_last() == items@.take(i as int));
                    i = i + 1;
                }
                assert(items@.take(items@.len() as int) == items@);
                Json::Array(out)
            },
            Json::Object(fields) => {
                let mut out: Vec<(String, Json)> = Vec::new();
                let mut i: usize = 0;
                while i < fields.len()
                    invariant
                        i <= fields@.len(),
                        *self == Json::Object(*fields),
                        view_fields(out@) == view_fields(fields@.take(i as int)),
                    decreases fields@.len() - i,
                {
                    proof {
                        assert(decreases_to!(*self => (*self)->Object_0));
                        assert(decreases_to!(*fields => fields@));
                        assert(decreases_to!(fields@ => fields@[i as int]));
                        assert(decreases_to!(fields@[i as int] => fields@[i as int].1));
                    }
                    let c = fields[i].1.copy();
                    let ghost before = out@;
                    out.push((fields[i].0.clone(), c));
                    assert(out@.drop_last() == before);
                    assert(fields@.take(i + 1).drop_last() == fields@.take(i as int));
                    i = i + 1;
                }
                assert(fields@.take(fields@.len() as int) == fields@);
                Json::Object(out)
            },
        }
    }

    /// The member named `key` of an object (the first, should the name
    /// occur twice); nothing for any other value.
    pub fn get(&self, key: &str) -> (r: Option<&Json>)
        ensures
            match r {
                Some(v) => get(self@, key@) == Some(v@),
                None => get(self@, key@) is None,
            },
    {
        match self {
            Json::Object(fields) => {
                proof {
                    lemma_view_fields(fields@);
                }
                let mut i: usize = 0;
                while i < fields.len()
                    invariant
                        i <= fields@.len(),
                        self@ == JsonView::Object(view_fields(fields@)),
                        view_fields(fields@).len() == fields@.len(),
                        forall|k: int| 0 <= k < i ==> view_fields(fields@)[k].0 != key@,
                        forall|k: int|
                            0 <= k < fields@.len() ==> #[trigger] view_fields(fields@)[k] == (
                                fields@[k].0@,
                                view_json(fields@[k].1),
                            ),
                    decreases fields@.len() - i,
                {
                    if str_eq(fields[i].0.as_str(), key) {
                        proof {
                            lemma_lookup_found(view_fields(fields@), key@, i as int);
                            assert(view_fields(fields@)[i as int] == (
                                fields@[i as int].0@,
                                view_json(fields@[i as int].1),
                            ));
                        }
                        return Some(&fields[i].1);
                    }
                    i = i + 1;
                }
                proof {
                    lemma_lookup_absent(view_fields(fields@), key@);
                }
                None
            },
            _ => None,
        }
    }

    /// Whether an object has more than one member named `key`; false for
    /// any other value.
    pub fn repeats_member(&self, key: &str) -> (r: bool)
        ensures
            r == (self@ matches JsonView::Object(fields) && members_named(fields, key@) > 1),
    {
        match self {
            Json::Object(fields) => {
                proof {
                    lemma_view_fields(fields@);
                }
                let ghost fv = view_fields(fields@);
                let mut count: usize = 0;
                let mut i: usize = fields.len();
                while i > 0
                    invariant
                        i <= fields@.len(),
                        fv == view_fields(fields@),
                        fv.len() == fields@.len(),
                        forall|k: int|
                            0 <= k < fields@.len() ==> #[trigger] fv[k] == (
                                fields@[k].0@,
                                view_json(fields@[k].1),
                            ),
                        count <= 2,
                        count == (if members_named(fv.skip(i as int), key@) > 2 { 2 } else {
                            members_named(fv.skip(i as int), key@)
                        }),
                    decreases i,
                {
                    i = i - 1;
                    assert(fv.skip(i as int).drop_first() =~= fv.skip(i + 1));
                    assert(fv.skip(i as int)[0] == fv[i as int]);
                    if count < 2 && str_eq(fields[i].0.as_str(), key) {
                        count = count + 1;
                    }
                }
                assert(fv.skip(0) =~= fv);
                count > 1
            },
            _ => false,
        }
    }

    /// The text of a JSON string; nothing for any other value.
    pub fn as_str(&self) -> (r: Option<&String>)
        ensures
            match r {
                Some(s) => self@ == jstr(s@),
                None => !(self@ is Str),
            },
    {
        match self {
            Json::Str(s) => Some(s),
            _ => None,
        }
    }
}

/// Whether the names of an object's members are in strictly ascending
/// order of `str`, as serde_json's own objects keep them.
pub open spec fn keys_ascending<T>(fields: Seq<(Seq<char>, T)>) -> bool {
    forall|i: int, j: int|
        0 <= i < j < fields.len() ==> name_le(#[trigger] fields[i].0, #[trigger] fields[j].0)
            && fields[i].0 != fields[j].0
}

/// Whether a value is one that serde_json holds as it is: integers within
/// 64 bits, no other numbers, the members of each object in ascending name
/// order, and arrays and objects nested at most `depth` deep.
pub open spec fn plain_json(v: JsonView, depth: nat) -> bool
    decreases v,
{
    match v {
        JsonView::Int(n) => i64::MIN <= n <= u64::MAX,
        JsonView::Float(_) => false,
        JsonView::Array(items) => depth > 0 && plain_items(items, (depth - 1) as nat),
        JsonView::Object(fields) => depth > 0 && keys_ascending(fields) && plain_members(
            fields,
            (depth - 1) as nat,
        ),
        _ => true,
    }
}

/// Whether each value of a sequence is plain within `depth`.
pub open spec fn plain_items(items: Seq<JsonView>, depth: nat) -> bool
    decreases items,
{
    if items.len() == 0 {
        true
    } else {
        plain_items(items.drop_last(), depth) && plain_json(items.last(), depth)
    }
}

/// Whether the value of each member of an object is plain within `depth`.
pub open spec fn plain_members(fields: Seq<(Seq<char>, JsonView)>, depth: nat) -> bool
    decreases fields,
{
    if fields.len() == 0 {
        true
    } else {
        plain_members(fields.drop_last(), depth) && plain_json(fields.last().1, depth)
    }
}

pub proof fn lemma_plain_members(fields: Seq<(Seq<char>, JsonView)>, depth: nat)
    requires
        forall|i: int| 0 <= i < fields.len() ==> plain_json(#[trigger] fields[i].1, depth),
    ensures
        plain_members(fields, depth),
    decreases fields.len(),
{
    if fields.len() > 0 {
        let init = fields.drop_last();
        assert forall|i: int| 0 <= i < init.len() implies plain_json(#[trigger] init[i].1, depth) by {
            assert(init[i] == fields[i]);
        }
        lemma_plain_members(init, depth);
    }
}

/// serde_json's dynamically typed JSON value, read and written only at the
/// text boundary.
#[verifier::external_type_specification]
#[verifier::external_body]
pub struct ExValue(Value);

/// What `serde_json::from_str::<serde_json::Value>` reads from a text: the
/// value, or nothing when the text is not one JSON value.
pub uninterp spec fn parsed_json(text: Seq<char>) -> Option<JsonView>;

/// The message of the error that `serde_json::from_str::<serde_json::Value>`
/// gives for a text that it cannot read.
pub uninterp spec fn json_error_text(text: Seq<char>) -> Seq<char>;

/// The compact JSON text that serde_json writes for a value.
pub uninterp spec fn json_text_of(v: JsonView) -> Seq<char>;

/// The indented JSON text that `serde_json::to_string_pretty` writes for a
/// value.
pub uninterp spec fn json_pretty_text_of(v: JsonView) -> Seq<char>;

/// The value in this form, member for member.
#[verifier::external_body]
fn json_from_value(v: &Value) -> Json {
    match v {
        Value::Null => Json::Null,
        Value::Bool(b) => Json::Bool(*b),
        Value::Number(n) => match (n.as_i64(), n.as_u64()) {
            (Some(i), _) => Json::Int(i as i128),
            (None, Some(u)) => Json::Int(u as i128),
            _ => Json::Float(n.to_string()),
        },
        Value::String(s) => Json::Str(s.clone()),
        Value::Array(items) => Json::Array(items.iter().map(json_from_value).collect()),
        Value::Object(m) => Json::Object(m.iter().map(|(k, v)| (k.clone(), json_from_value(v))).collect()),
    }
}

/// serde_json's form of the value, member for member (an integer outside
/// 64 bits, or a number text serde_json cannot read, becomes `null`).
#[verifier::external_body]
fn value_from_json(j: &Json) -> Value {
    match j {
        Json::Null => Value::Null,
        Json::Bool(b) => Value::Bool(*b),
        Json::Int(n) => u64::try_from(*n).map(Value::from).or_else(|_| i64::try_from(*n).map(Value::from)).unwrap_or(Value::Null),
        Json::Float(t) => serde_json::from_str(t).unwrap_or(Value::Null),
        Json::Str(s) => Value::String(s.clone()),
        Json::Array(items) => Value::Array(items.iter().map(value_from_json).collect()),
        Json::Object(fields) => Value::Object(fields.iter().map(|(k, v)| (k.clone(), value_from_json(v))).collect()),
    }
}

/// Reads one JSON value from a text.
///
/// Calls `serde_json::from_str::<serde_json::Value>`, a function of the text
/// alone, and takes the value it reads into this form; the contract names
/// the value, or the error message, and says nothing more of them.
#[verifier::external_body]
pub fn parse_json(text: &str) -> (r: Result<Json, String>)
    ensures
        match r {
            Ok(j) => parsed_json(text@) == Some(j@),
            Err(e) => parsed_json(text@) is None && e@ == json_error_text(text@),
        },
{
    match serde_json::from_str::<Value>(text) {
        Ok(v) => Ok(json_from_value(&v)),
        Err(e) => Err(e.to_string()),
    }
}

/// The compact JSON text of a value.
///
/// Calls serde_json's `Display` for `serde_json::Value` on the value in
/// serde_json's form; the contract names the text, a function of the value
/// alone.
#[verifier::external_body]
pub fn json_text(j: &Json) -> (r: String)
    ensures
        r@ == json_text_of(j@),
{
    value_from_json(j).to_string()
}

/// The indented JSON text of a value.
///
/// Calls `serde_json::to_string_pretty` on the value in serde_json's form
/// (which cannot fail for a `serde_json::Value`); the contract names the
/// text, a function of the value alone. It also states that
/// `serde_json::from_str` reads a plain value back from that text: strings
/// are escaped and unescaped exactly, 64-bit integers are written and read
/// as such, a `serde_json::Map` keeps its members in ascending name order,
/// and the reader refuses only nesting deeper than 127 levels.
#[verifier::external_body]
pub fn json_pretty_text(j: &Json) -> (r: String)
    ensures
        r@ == json_pretty_text_of(j@),
        plain_json(j@, 127) ==> parsed_json(r@) == Some(j@),
{
    serde_json::to_string_pretty(&value_from_json(j)).unwrap_or_default()
}

} // verus!
