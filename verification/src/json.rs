//! JSON documents as texts: reading single values, rewriting the model name,
//! and quoting.

use vstd::prelude::*;
use crate::text::texts;

verus! {

/// What stands at one place of a document.
#[derive(Debug)]
pub enum Json {
    /// There is no such place, or the text is no JSON document.
    Missing,
    Null,
    Bool(bool),
    /// A number that fits in 64 bits without a sign.
    Unsigned(u64),
    /// Any other number.
    Number,
    Text(String),
    /// An array of this length.
    Array(usize),
    Object,
}

/// The same, as mathematical values.
pub enum JsonView {
    Missing,
    Null,
    Bool(bool),
    Unsigned(u64),
    Number,
    Text(Seq<char>),
    Array(usize),
    Object,
}

impl View for Json {
    type V = JsonView;

    open spec fn view(&self) -> JsonView {
        match self {
            Json::Missing => JsonView::Missing,
            Json::Null => JsonView::Null,
            Json::Bool(b) => JsonView::Bool(*b),
            Json::Unsigned(n) => JsonView::Unsigned(*n),
            Json::Number => JsonView::Number,
            Json::Text(t) => JsonView::Text(t@),
            Json::Array(n) => JsonView::Array(*n),
            Json::Object => JsonView::Object,
        }
    }
}

/// What stands in the document `text` at the place that `pointer` (a JSON
/// Pointer) denotes.
pub uninterp spec fn json_read(text: Seq<char>, pointer: Seq<char>) -> JsonView;

/// Calls `serde_json::from_str` and `serde_json::Value::pointer`. What they
/// give is a function of the two texts, and is called `json_read`; nothing
/// more is said of it here.
#[verifier::external_body]
pub(crate) fn read_json(text: &str, pointer: &str) -> (r: Json)
    ensures
        r@ == json_read(text@, pointer@),
{
    let parsed = serde_json::from_str::<serde_json::Value>(text);
    match parsed.ok().as_ref().and_then(|v| v.pointer(pointer)) {
        None => Json::Missing,
        Some(serde_json::Value::Null) => Json::Null,
        Some(serde_json::Value::Bool(b)) => Json::Bool(*b),
        Some(serde_json::Value::Number(n)) => n.as_u64().map_or(Json::Number, Json::Unsigned),
        Some(serde_json::Value::String(t)) => Json::Text(t.clone()),
        Some(serde_json::Value::Array(a)) => Json::Array(a.len()),
        Some(serde_json::Value::Object(_)) => Json::Object,
    }
}

/// The part of the document `text` that `pointer` denotes, as a document of
/// its own.
pub uninterp spec fn json_part(text: Seq<char>, pointer: Seq<char>) -> Option<Seq<char>>;

/// An optional text, as a mathematical value.
pub open spec fn option_text(t: Option<String>) -> Option<Seq<char>> {
    match t {
        Some(s) => Some(s@),
        None => None,
    }
}

/// Calls `serde_json::from_str`, `serde_json::Value::pointer` and
/// `serde_json::Value::to_string`. What they give is a function of the two
/// texts, and is called `json_part`.
#[verifier::external_body]
pub(crate) fn part_of_json(text: &str, pointer: &str) -> (r: Option<String>)
    ensures
        option_text(r) == json_part(text@, pointer@),
{
    let parsed = serde_json::from_str::<serde_json::Value>(text).ok()?;
    parsed.pointer(pointer).map(|part| part.to_string())
}

/// The document that bytes hold, in compact form; or what is wrong with them.
pub uninterp spec fn json_document(bytes: Seq<u8>) -> Result<Seq<char>, Seq<char>>;

/// A text or a message, as mathematical values.
pub open spec fn result_text(r: Result<String, String>) -> Result<Seq<char>, Seq<char>> {
    match r {
        Ok(t) => Ok(t@),
        Err(e) => Err(e@),
    }
}

/// Calls `serde_json::from_slice` and `serde_json::Value::to_string`. What they
/// give is a function of the bytes, and is called `json_document`.
#[verifier::external_body]
pub(crate) fn parse_document(bytes: &[u8]) -> (r: Result<String, String>)
    ensures
        result_text(r) == json_document(bytes@),
{
    match serde_json::from_slice::<serde_json::Value>(bytes) {
        Ok(v) => Ok(v.to_string()),
        Err(e) => Err(e.to_string()),
    }
}

/// A member name that a JSON Pointer holds as it is, and that is no index of
/// an array.
pub open spec fn plain_key(key: Seq<char>) -> bool {
    &&& key.len() > 0
    &&& !('0' <= key[0] && key[0] <= '9')
    &&& forall|i: int| 0 <= i < key.len() ==> key[i] != '/' && key[i] != '~'
}

/// The document with another text in the member `key`.
pub uninterp spec fn json_with_member(text: Seq<char>, key: Seq<char>, value: Seq<char>) -> Seq<
    char,
>;

/// Calls `serde_json::Value::index_mut` on a document, read by
/// `serde_json::from_str` and written by `serde_json::Value::to_string`, to set
/// a member that is a text. The result is a function of the three texts, and is
/// called `json_with_member`. Where it can be read again, the member has the
/// new text, and what stands at any other place is of the same kind and value
/// as before, except that nothing is said of the value of numbers that do not
/// fit in 64 bits without a sign. A document that is nested too deeply cannot
/// be read again; nothing more is said of that one.
#[verifier::external_body]
pub(crate) fn set_member(text: &str, key: &str, value: &str) -> (r: String)
    requires
        plain_key(key@),
        json_read(text@, "/"@ + key@) is Text,
    ensures
        r@ == json_with_member(text@, key@, value@),
        json_read(r@, ""@) is Object ==> json_read(r@, "/"@ + key@) == JsonView::Text(value@),
        json_read(r@, ""@) is Object ==> forall|pointer: Seq<char>|
            pointer != "/"@ + key@ ==> #[trigger] json_read(r@, pointer) == json_read(
                text@,
                pointer,
            ),
{
    let mut v = serde_json::from_str::<serde_json::Value>(text).unwrap_or_default();
    v[key] = serde_json::Value::String(value.to_owned());
    v.to_string()
}

/// A text as a JSON string, with quotes and escapes.
pub uninterp spec fn json_quoted(text: Seq<char>) -> Seq<char>;

/// Calls `serde_json::to_string` on a text. The result is a function of the
/// text, and is called `json_quoted`. Read as a document, it gives the text.
#[verifier::external_body]
pub(crate) fn quote(text: &str) -> (r: String)
    ensures
        r@ == json_quoted(text@),
        json_read(r@, ""@) == JsonView::Text(text@),
{
    serde_json::to_string(text).unwrap_or_default()
}

// ── Reading ─────────────────────────────────────────────────────────────────

/// An unsigned number at a place; 0 where there is none.
pub open spec fn number_or_zero(v: JsonView) -> u64 {
    match v {
        JsonView::Unsigned(n) => n,
        _ => 0,
    }
}

/// The unsigned number in a value, or 0.
pub fn unsigned_or_zero(v: Json) -> (r: u64)
    ensures
        r == number_or_zero(v@),
{
    match v {
        Json::Unsigned(n) => n,
        _ => 0,
    }
}

/// A truth value at a place; false where there is none.
pub open spec fn is_true(v: JsonView) -> bool {
    v == JsonView::Bool(true)
}

/// Whether a value is `true`.
pub fn flag(v: Json) -> (r: bool)
    ensures
        r == is_true(v@),
{
    match v {
        Json::Bool(b) => b,
        _ => false,
    }
}

/// A text at a place.
pub open spec fn text_in(v: JsonView) -> Option<Seq<char>> {
    match v {
        JsonView::Text(t) => Some(t),
        _ => None,
    }
}

/// The text in a value.
pub fn text_of(v: Json) -> (r: Option<String>)
    ensures
        option_text(r) == text_in(v@),
{
    match v {
        Json::Text(t) => Some(t),
        _ => None,
    }
}

// ── Writing ─────────────────────────────────────────────────────────────────

/// Texts as JSON strings.
pub open spec fn all_quoted(items: Seq<Seq<char>>) -> Seq<Seq<char>> {
    items.map_values(|t: Seq<char>| json_quoted(t))
}

/// Quotes every text.
pub fn quote_all(items: &Vec<String>) -> (r: Vec<String>)
    ensures
        texts(r@) == all_quoted(texts(items@)),
{
    let mut out: Vec<String> = Vec::new();
    assert(texts(out@) =~= all_quoted(texts(items@).take(0)));
    for i in 0..items.len()
        invariant
            texts(out@) == all_quoted(texts(items@).take(i as int)),
    {
        let ghost before = out@;
        out.push(quote(items[i].as_str()));
        assert(texts(out@) =~= texts(before).push(json_quoted(items@[i as int]@)));
        assert(texts(items@)[i as int] == items@[i as int]@);
        assert(all_quoted(texts(items@).take(i + 1)) =~= all_quoted(
            texts(items@).take(i as int),
        ).push(json_quoted(items@[i as int]@)));
    }
    assert(texts(items@).take(items@.len() as int) =~= texts(items@));
    out
}

/// What is taken from a value: a text only from a text, a number only from an
/// unsigned number, and `true` only from that.
pub proof fn law_json_values(v: JsonView, t: Seq<char>, n: u64)
    ensures
        text_in(JsonView::Text(t)) == Some(t),
        !(v is Text) ==> text_in(v) is None,
        number_or_zero(JsonView::Unsigned(n)) == n,
        !(v is Unsigned) ==> number_or_zero(v) == 0,
        is_true(v) <==> v == JsonView::Bool(true),
{
}

} // verus!
