//! A scalar field of a JSON document as the code reading it sees it, and
//! what `as_i64`, `as_u64` and `as_str` give of it.
use vstd::prelude::*;

verus! {

/// A JSON field: absent, a string, an integer (split by range), another
/// number, a boolean, an array (by its length), an object, or null.
#[derive(Debug)]
pub enum JsonField {
    Absent,
    Text(String),
    /// An integer that fits in `i64`.
    Integer(i64),
    /// An integer above `i64::MAX` that fits in `u64`.
    Unsigned(u64),
    /// A number that is not an integer of `u64` or `i64`.
    OtherNumber,
    Boolean(bool),
    /// An array of this many elements.
    Array(usize),
    Object,
    /// `null`.
    Other,
}

/// A JSON field as a mathematical value.
pub enum JsonScalar {
    Absent,
    Text(Seq<char>),
    Integer(i64),
    Unsigned(u64),
    OtherNumber,
    Boolean(bool),
    Array(usize),
    Object,
    Other,
}

impl View for JsonField {
    type V = JsonScalar;

    open spec fn view(&self) -> JsonScalar {
        match self {
            JsonField::Absent => JsonScalar::Absent,
            JsonField::Text(s) => JsonScalar::Text(s@),
            JsonField::Integer(n) => JsonScalar::Integer(*n),
            JsonField::Unsigned(u) => JsonScalar::Unsigned(*u),
            JsonField::OtherNumber => JsonScalar::OtherNumber,
            JsonField::Boolean(b) => JsonScalar::Boolean(*b),
            JsonField::Array(n) => JsonScalar::Array(*n),
            JsonField::Object => JsonScalar::Object,
            JsonField::Other => JsonScalar::Other,
        }
    }
}

/// What `as_i64` gives of a field.
pub open spec fn field_i64(f: JsonField) -> Option<i64> {
    match f {
        JsonField::Integer(n) => Some(n),
        JsonField::Unsigned(u) => if u <= i64::MAX as u64 {
            Some(u as i64)
        } else {
            None
        },
        _ => None,
    }
}

/// What `as_u64` gives of a field.
pub open spec fn field_u64(f: JsonField) -> Option<u64> {
    match f {
        JsonField::Integer(n) => if n >= 0 {
            Some(n as u64)
        } else {
            None
        },
        JsonField::Unsigned(u) => Some(u),
        _ => None,
    }
}

/// What `as_str` gives of a field.
pub open spec fn field_str(f: JsonField) -> Option<Seq<char>> {
    match f {
        JsonField::Text(s) => Some(s@),
        _ => None,
    }
}

/// The field as an `i64`, if it is an integer in range.
pub fn json_as_i64(f: &JsonField) -> (r: Option<i64>)
    ensures
        r == field_i64(*f),
{
    match f {
        JsonField::Integer(n) => Some(*n),
        JsonField::Unsigned(u) => if *u <= i64::MAX as u64 {
            Some(*u as i64)
        } else {
            None
        },
        _ => None,
    }
}

/// The field as a `u64`, if it is a non-negative integer in range.
pub fn json_as_u64(f: &JsonField) -> (r: Option<u64>)
    ensures
        r == field_u64(*f),
{
    match f {
        JsonField::Integer(n) => if *n >= 0 {
            Some(*n as u64)
        } else {
            None
        },
        JsonField::Unsigned(u) => Some(*u),
        _ => None,
    }
}

/// The field's string, if it is one.
pub fn json_as_str(f: &JsonField) -> (r: Option<&str>)
    ensures
        match r {
            Some(s) => field_str(*f) == Some(s@),
            None => field_str(*f) is None,
        },
{
    match f {
        JsonField::Text(s) => Some(s.as_str()),
        _ => None,
    }
}

// ---------------------------------------------------------------------------
// JSON documents, parsed by serde_json
// ---------------------------------------------------------------------------

/// Whether serde_json parses `text` as a JSON value.
pub uninterp spec fn json_parses(text: Seq<char>) -> bool;

/// serde_json's message for a text it cannot parse.
pub uninterp spec fn json_error_text(text: Seq<char>) -> Seq<char>;

/// The field that serde_json's `Value::pointer(pointer)` finds in the value
/// parsed from `text`, as a `JsonField` sees it (`Absent` when the pointer
/// finds nothing).
pub uninterp spec fn json_at(text: Seq<char>, pointer: Seq<char>) -> JsonScalar;

/// The declaration of serde_json's value type.
#[verifier::external_type_specification]
#[verifier::external_body]
pub struct ExJsonValue(serde_json::Value);

/// A JSON document with the text it was parsed from. Only `parse_json`
/// makes one, so the value is always serde_json's parse of the text.
pub struct JsonDoc {
    text: String,
    value: serde_json::Value,
}

impl View for JsonDoc {
    type V = Seq<char>;

    closed spec fn view(&self) -> Seq<char> {
        self.text@
    }
}

/// serde_json's `from_str::<Value>`. The contract names whether the text
/// parses and the error's message; the document keeps the text.
#[verifier::external_body]
pub(crate) fn parse_json(text: &str) -> (r: Result<JsonDoc, String>)
    ensures
        r is Ok <==> json_parses(text@),
        r matches Ok(d) ==> d@ == text@,
        r matches Err(e) ==> e@ == json_error_text(text@),
{
    match serde_json::from_str::<serde_json::Value>(text) {
        Ok(value) => Ok(JsonDoc { text: text.to_string(), value }),
        Err(e) => Err(e.to_string()),
    }
}

/// serde_json's `Value::pointer` on a parsed document, the value found
/// converted variant by variant (numbers by `as_i64`, then `as_u64`; an
/// array by its length, an object by nothing more). The contract names the
/// result.
#[verifier::external_body]
pub(crate) fn json_value_at(doc: &JsonDoc, pointer: &str) -> (r: JsonField)
    ensures
        r@ == json_at(doc@, pointer@),
{
    match doc.value.pointer(pointer) {
        None => JsonField::Absent,
        Some(serde_json::Value::String(s)) => JsonField::Text(s.clone()),
        Some(serde_json::Value::Number(n)) => match (n.as_i64(), n.as_u64()) {
            (Some(i), _) => JsonField::Integer(i),
            (None, Some(u)) => JsonField::Unsigned(u),
            (None, None) => JsonField::OtherNumber,
        },
        Some(serde_json::Value::Bool(b)) => JsonField::Boolean(*b),
        Some(serde_json::Value::Array(a)) => JsonField::Array(a.len()),
        Some(serde_json::Value::Object(_)) => JsonField::Object,
        Some(serde_json::Value::Null) => JsonField::Other,
    }
}

/// The string at `pointer`, if it is one.
pub open spec fn str_at(text: Seq<char>, pointer: Seq<char>) -> Option<Seq<char>> {
    match json_at(text, pointer) {
        JsonScalar::Text(s) => Some(s),
        _ => None,
    }
}

/// The boolean at `pointer`, if it is one.
pub open spec fn bool_at(text: Seq<char>, pointer: Seq<char>) -> Option<bool> {
    match json_at(text, pointer) {
        JsonScalar::Boolean(b) => Some(b),
        _ => None,
    }
}

/// The string at `pointer` of a document (`as_str`).
pub fn doc_str(doc: &JsonDoc, pointer: &str) -> (r: Option<String>)
    ensures
        match r {
            Some(s) => str_at(doc@, pointer@) == Some(s@),
            None => str_at(doc@, pointer@) is None,
        },
{
    match json_value_at(doc, pointer) {
        JsonField::Text(s) => Some(s),
        _ => None,
    }
}

/// The boolean at `pointer` of a document (`as_bool`).
pub fn doc_bool(doc: &JsonDoc, pointer: &str) -> (r: Option<bool>)
    ensures
        r == bool_at(doc@, pointer@),
{
    match json_value_at(doc, pointer) {
        JsonField::Boolean(b) => Some(b),
        _ => None,
    }
}

/// The pointer to member `key` of the value at `base`.
pub fn child_pointer(base: &str, key: &str) -> (r: String)
    ensures
        r@ == base@ + seq!['/'] + key@,
{
    let mut r = crate::text::owned(base);
    crate::text::push_str(&mut r, "/");
    proof {
        reveal_strlit("/");
    }
    crate::text::push_str(&mut r, key);
    r
}

/// The pointer to element `i` of the array at `base`.
pub fn index_pointer(base: &str, i: usize) -> (r: String)
    ensures
        r@ == base@ + seq!['/'] + crate::text::dec_digits(i as nat),
{
    let mut r = crate::text::owned(base);
    crate::text::push_str(&mut r, "/");
    proof {
        reveal_strlit("/");
    }
    crate::text::push_dec_u64(&mut r, i as u64);
    r
}

/// The pointer finds something in the document `t`.
pub open spec fn present(t: Seq<char>, p: Seq<char>) -> bool {
    !(json_at(t, p) is Absent)
}

/// Whether the pointer finds something in the document.
pub fn doc_has(doc: &JsonDoc, p: &str) -> (b: bool)
    ensures
        b == present(doc@, p@),
{
    match json_value_at(doc, p) {
        JsonField::Absent => false,
        _ => true,
    }
}

} // verus!
