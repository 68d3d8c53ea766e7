//! JSON through `serde_json`: the library reads parsed documents through a
//! small set of accessors whose contracts are stated over `JsonTree`, the
//! content of a `serde_json::Value`, and it writes JSON text by quoting
//! strings with `serde_json` and joining them into objects whose keys stand in
//! the order `serde_json` prints them (sorted).
use vstd::prelude::*;

verus! {

#[verifier::external_type_specification]
#[verifier::external_body]
pub struct ExJsonValue(serde_json::Value);

/// The content of a JSON value. Object entries stand in the order in which
/// the value's map yields them (ascending key order), each key once.
pub enum JsonTree {
    Null,
    Bool(bool),
    /// A number, by its JSON text.
    Number(Seq<char>),
    Str(Seq<char>),
    Array(Seq<JsonTree>),
    Object(Seq<(Seq<char>, JsonTree)>),
}

/// What a `serde_json::Value` holds.
pub uninterp spec fn json_content(v: serde_json::Value) -> JsonTree;

/// What `serde_json::from_slice::<Value>` parses the given bytes to, `None`
/// where it reports an error.
pub uninterp spec fn json_parse_bytes(bytes: Seq<u8>) -> Option<JsonTree>;

/// What `serde_json::from_str::<Value>` parses the given text to, `None`
/// where it reports an error.
pub uninterp spec fn json_parse_text(text: Seq<char>) -> Option<JsonTree>;

/// The value stored under `key` in an object (`None` for a missing key or a
/// value that is not an object).
pub open spec fn json_field(t: JsonTree, key: Seq<char>) -> Option<JsonTree> {
    match t {
        JsonTree::Object(entries) => entry_lookup(entries, key),
        _ => None,
    }
}

pub open spec fn entry_lookup(entries: Seq<(Seq<char>, JsonTree)>, key: Seq<char>) -> Option<
    JsonTree,
>
    decreases entries.len(),
{
    if entries.len() == 0 {
        None
    } else if entries[0].0 == key {
        Some(entries[0].1)
    } else {
        entry_lookup(entries.drop_first(), key)
    }
}

/// The string held by a JSON string value.
pub open spec fn json_str(t: Option<JsonTree>) -> Option<Seq<char>> {
    match t {
        Some(JsonTree::Str(s)) => Some(s),
        _ => None,
    }
}

/// The boolean held by a JSON boolean value.
pub open spec fn json_bool(t: Option<JsonTree>) -> Option<bool> {
    match t {
        Some(JsonTree::Bool(b)) => Some(b),
        _ => None,
    }
}

/// The member `key` of an optional value (`None` when absent).
pub open spec fn json_get_opt(t: Option<JsonTree>, key: Seq<char>) -> Option<JsonTree> {
    match t {
        Some(v) => json_field(v, key),
        None => None,
    }
}

/// Parses bytes as a JSON document (`serde_json::from_slice`).
#[verifier::external_body]
pub(crate) fn parse_json_bytes(bytes: &[u8]) -> (r: Option<serde_json::Value>)
    ensures
        r is Some == json_parse_bytes(bytes@) is Some,
        r matches Some(v) ==> json_content(v) == json_parse_bytes(bytes@)->0,
{
    serde_json::from_slice::<serde_json::Value>(bytes).ok()
}

/// Parses text as a JSON document (`serde_json::from_str`).
#[verifier::external_body]
pub(crate) fn parse_json_text(text: &str) -> (r: Option<serde_json::Value>)
    ensures
        r is Some == json_parse_text(text@) is Some,
        r matches Some(v) ==> json_content(v) == json_parse_text(text@)->0,
{
    serde_json::from_str::<serde_json::Value>(text).ok()
}

/// `Value::get` with a string key: the member of an object.
#[verifier::external_body]
pub(crate) fn json_get<'a>(v: &'a serde_json::Value, key: &str) -> (r: Option<&'a serde_json::Value>)
    ensures
        r is Some == json_field(json_content(*v), key@) is Some,
        r matches Some(x) ==> json_content(*x) == json_field(json_content(*v), key@)->0,
{
    v.get(key)
}

/// `Value::as_str`: the text of a string value.
#[verifier::external_body]
pub(crate) fn json_as_str(v: &serde_json::Value) -> (r: Option<&str>)
    ensures
        r is Some == json_str(Some(json_content(*v))) is Some,
        r matches Some(s) ==> s@ == json_str(Some(json_content(*v)))->0,
{
    v.as_str()
}

/// `Value::as_bool`: the value of a boolean.
#[verifier::external_body]
pub(crate) fn json_as_bool(v: &serde_json::Value) -> (r: Option<bool>)
    ensures
        r == json_bool(Some(json_content(*v))),
{
    v.as_bool()
}

/// `Value::as_array`: the elements of an array.
#[verifier::external_body]
pub(crate) fn json_as_array(v: &serde_json::Value) -> (r: Option<&Vec<serde_json::Value>>)
    ensures
        r is Some == json_content(*v) is Array,
        r matches Some(a) ==> {
            &&& a@.len() == json_content(*v)->Array_0.len()
            &&& forall|i: int|
                0 <= i < a@.len() ==> json_content(#[trigger] a@[i]) == json_content(
                    *v,
                )->Array_0[i]
        },
{
    v.as_array()
}

/// `Map::values` of an object value: its member values in iteration order.
#[verifier::external_body]
pub(crate) fn json_object_values(v: &serde_json::Value) -> (r: Option<Vec<&serde_json::Value>>)
    ensures
        r is Some == json_content(*v) is Object,
        r matches Some(a) ==> {
            &&& a@.len() == json_content(*v)->Object_0.len()
            &&& forall|i: int|
                0 <= i < a@.len() ==> json_content(*#[trigger] a@[i]) == json_content(
                    *v,
                )->Object_0[i].1
        },
{
    match v {
        serde_json::Value::Object(m) => Some(m.values().collect()),
        _ => None,
    }
}

/// How `serde_json` writes one character inside a JSON string.
pub open spec fn json_escape_char(c: char) -> Seq<char> {
    if c == '"' {
        seq!['\\', '"']
    } else if c == '\\' {
        seq!['\\', '\\']
    } else if c == '\u{8}' {
        seq!['\\', 'b']
    } else if c == '\u{9}' {
        seq!['\\', 't']
    } else if c == '\u{a}' {
        seq!['\\', 'n']
    } else if c == '\u{c}' {
        seq!['\\', 'f']
    } else if c == '\u{d}' {
        seq!['\\', 'r']
    } else if (c as u32) < 0x20 {
        seq!['\\', 'u', '0', '0', lower_hex_digit((c as u32 / 16) as nat), lower_hex_digit((c as u32 % 16) as nat)]
    } else {
        seq![c]
    }
}

pub open spec fn lower_hex_digit(d: nat) -> char {
    if d < 10 {
        (('0' as u32) + d) as char
    } else {
        (('a' as u32) + d - 10) as char
    }
}

/// The escaped contents of a JSON string.
pub open spec fn json_escape(s: Seq<char>) -> Seq<char>
    decreases s.len(),
{
    if s.len() == 0 {
        seq![]
    } else {
        json_escape(s.drop_last()) + json_escape_char(s.last())
    }
}

/// A JSON string literal holding `s`, as `serde_json` writes it.
pub open spec fn json_quote(s: Seq<char>) -> Seq<char> {
    seq!['"'] + json_escape(s) + seq!['"']
}

/// A string that `serde_json` writes without escapes.
pub open spec fn json_plain(s: Seq<char>) -> bool {
    forall|i: int|
        0 <= i < s.len() ==> (#[trigger] s[i] as u32) >= 0x20 && s[i] != '"' && s[i] != '\\'
}

/// A plain string is written as it is.
pub proof fn lemma_json_escape_plain(s: Seq<char>)
    requires
        json_plain(s),
    ensures
        json_escape(s) == s,
    decreases s.len(),
{
    if s.len() > 0 {
        assert(json_plain(s.drop_last()));
        lemma_json_escape_plain(s.drop_last());
        assert(s.drop_last().push(s.last()) =~= s);
    }
}

/// A JSON object member: the quoted key, a colon, the value's text.
pub open spec fn json_member(key: Seq<char>, value: Seq<char>) -> Seq<char> {
    json_quote(key) + seq![':'] + value
}

/// A compact JSON object made of the given members, in order.
pub open spec fn json_object_text(members: Seq<Seq<char>>) -> Seq<char> {
    seq!['{'] + crate::text::join(members, seq![',']) + seq!['}']
}

/// A compact JSON array made of the given items, in order.
pub open spec fn json_array_text(items: Seq<Seq<char>>) -> Seq<char> {
    seq!['['] + crate::text::join(items, seq![',']) + seq![']']
}

/// `serde_json`'s rendering of a JSON string value holding `s`
/// (`Value::String(..).to_string()`).
#[verifier::external_body]
pub(crate) fn quote_json(s: &str) -> (r: String)
    ensures
        r@ == json_quote(s@),
{
    serde_json::Value::String(s.to_string()).to_string()
}

} // verus!

verus! {

/// Appends a JSON string literal holding `s` to `out`.
pub fn push_quoted(out: &mut Vec<char>, s: &str)
    ensures
        final(out)@ == old(out)@ + json_quote(s@),
{
    let q = quote_json(s);
    crate::text::push_str_chars(out, q.as_str());
}

} // verus!
