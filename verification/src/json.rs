//! Reading JSON: what `serde_json` makes of a text, seen as a tree.
use vstd::prelude::*;

use crate::text;

verus! {

/// A JSON value.
pub enum Json {
    Null,
    Bool(bool),
    /// A number; its value where it is an integer that fits 64 bits without a sign.
    Number(Option<u64>),
    Text(Seq<char>),
    Array(Seq<Json>),
    Object(Map<Seq<char>, Json>),
}

/// `serde_json::Value`, a parsed JSON value.
#[verifier::external_type_specification]
#[verifier::external_body]
pub struct ExJsonValue(serde_json::Value);

/// What a parsed value holds.
pub uninterp spec fn tree(value: serde_json::Value) -> Json;

/// What `serde_json::from_str` makes of a text: a value, or the words in which it refuses it.
pub uninterp spec fn parsed(text: Seq<char>) -> Result<Json, Seq<char>>;

/// Parses a text with `serde_json::from_str` into a `serde_json::Value`.
///
/// The outcome depends on the text alone. A refusal is handed on as the text of the error.
#[verifier::external_body]
pub(crate) fn parse(text: &str) -> (r: Result<serde_json::Value, String>)
    ensures
        match r {
            Ok(value) => parsed(text@) == Ok::<Json, Seq<char>>(tree(value)),
            Err(message) => parsed(text@) == Err::<Json, Seq<char>>(message@),
        },
{
    serde_json::from_str::<serde_json::Value>(text).map_err(|e| e.to_string())
}

/// `serde_json::Value::get` with a text: the entry of an object under that key; `None` where the
/// object lacks it, and of every other value.
#[verifier::external_body]
pub(crate) fn get<'a>(value: &'a serde_json::Value, key: &str) -> (r: Option<&'a serde_json::Value>)
    ensures
        match r {
            Some(entry) => tree(*value) matches Json::Object(m) && m.contains_key(key@) && tree(
                *entry,
            ) == m[key@],
            None => tree(*value) matches Json::Object(m) ==> !m.contains_key(key@),
        },
{
    value.get(key)
}

/// `serde_json::Value::as_str`: the text of a text value, `None` of every other value.
#[verifier::external_body]
pub(crate) fn as_text(value: &serde_json::Value) -> (r: Option<&str>)
    ensures
        match r {
            Some(s) => tree(*value) == Json::Text(s@),
            None => !(tree(*value) is Text),
        },
{
    value.as_str()
}

/// `serde_json::Value::as_u64`: the value of an integer that fits 64 bits without a sign, `None`
/// of every other value.
#[verifier::external_body]
pub(crate) fn as_u64(value: &serde_json::Value) -> (r: Option<u64>)
    ensures
        r == number(tree(*value)),
{
    value.as_u64()
}

/// `serde_json::Value::as_array`: the elements of an array, `None` of every other value.
#[verifier::external_body]
pub(crate) fn as_array(value: &serde_json::Value) -> (r: Option<&Vec<serde_json::Value>>)
    ensures
        match r {
            Some(list) => tree(*value) == Json::Array(trees(list@)),
            None => !(tree(*value) is Array),
        },
{
    value.as_array()
}

/// `serde_json::Value::is_null`: whether the value is the null value.
#[verifier::external_body]
pub(crate) fn is_null(value: &serde_json::Value) -> (r: bool)
    ensures
        r == (tree(*value) is Null),
{
    value.is_null()
}

/// What a list of parsed values holds.
pub open spec fn trees(list: Seq<serde_json::Value>) -> Seq<Json> {
    Seq::new(list.len(), |i: int| tree(list[i]))
}

/// The integer that a value is.
pub open spec fn number(j: Json) -> Option<u64> {
    match j {
        Json::Number(n) => n,
        _ => None,
    }
}

/// The entry of an object under a key.
pub open spec fn entry(j: Json, key: Seq<char>) -> Option<Json> {
    match j {
        Json::Object(m) => if m.contains_key(key) {
            Some(m[key])
        } else {
            None
        },
        _ => None,
    }
}

/// The text under a key.
pub open spec fn text_at(j: Json, key: Seq<char>) -> Option<Seq<char>> {
    match entry(j, key) {
        Some(Json::Text(s)) => Some(s),
        _ => None,
    }
}

/// The integer under a key.
pub open spec fn number_at(j: Json, key: Seq<char>) -> Option<u64> {
    match entry(j, key) {
        Some(v) => number(v),
        None => None,
    }
}

pub(crate) fn text_field(value: &serde_json::Value, key: &str) -> (r: Option<String>)
    ensures
        text::content_of(r) == text_at(tree(*value), key@),
{
    match get(value, key) {
        Some(v) => match as_text(v) {
            Some(s) => Some(s.to_owned()),
            None => None,
        },
        None => None,
    }
}

pub(crate) fn number_field(value: &serde_json::Value, key: &str) -> (r: Option<u64>)
    ensures
        r == number_at(tree(*value), key@),
{
    match get(value, key) {
        Some(v) => as_u64(v),
        None => None,
    }
}

/// A digit of a number to the base sixteen.
pub open spec fn hex_digit(n: int) -> char {
    if n < 10 {
        ('0' as int + n) as char
    } else {
        ('a' as int + n - 10) as char
    }
}

/// A character as it stands inside a JSON literal. Seven characters have a short escape, the
/// other control characters are written by number, and all the rest stand for themselves.
pub open spec fn escaped(c: char) -> Seq<char> {
    if c == '"' || c == '\\' {
        seq!['\\', c]
    } else if c == '\n' {
        seq!['\\', 'n']
    } else if c == '\r' {
        seq!['\\', 'r']
    } else if c == '\t' {
        seq!['\\', 't']
    } else if c == '\u{8}' {
        seq!['\\', 'b']
    } else if c == '\u{c}' {
        seq!['\\', 'f']
    } else if (c as int) < 0x20 {
        seq!['\\', 'u', '0', '0', hex_digit(c as int / 16), hex_digit(c as int % 16)]
    } else {
        seq![c]
    }
}

/// The characters of a text as they stand inside a JSON literal.
pub open spec fn escaped_text(text: Seq<char>) -> Seq<char>
    decreases text.len(),
{
    if text.len() == 0 {
        Seq::empty()
    } else {
        escaped_text(text.drop_last()) + escaped(text.last())
    }
}

/// A text as a JSON literal, in quotes and with escapes.
pub open spec fn literal(text: Seq<char>) -> Seq<char> {
    seq!['"'] + escaped_text(text) + seq!['"']
}

/// Writes a text as a JSON literal with `serde_json::to_string`, which cannot fail on a text.
///
/// The literal is the text between quotes, with the short escapes for quotes, backslashes, line
/// feeds, carriage returns, tabs, backspaces and form feeds, with `\u00` and two lower-case digits
/// for the other characters below the space, and with every other character as it is.
#[verifier::external_body]
pub(crate) fn quote(text: &str) -> (r: String)
    ensures
        r@ == literal(text@),
{
    serde_json::to_string(text).unwrap_or_default()
}

/// A text is quoted sign by sign, from the first to the last, between two quotation marks.
pub proof fn law_texts_are_quoted_sign_by_sign(a: Seq<char>, b: Seq<char>, c: char)
    ensures
        escaped_text(a + b) == escaped_text(a) + escaped_text(b),
        escaped_text(a.push(c)) == escaped_text(a) + escaped(c),
        literal(a)[0] == '"' && literal(a).last() == '"',
        literal(a).len() == escaped_text(a).len() + 2,
        escaped_text(Seq::empty()).len() == 0,
    decreases b.len(),
{
    assert(a.push(c).drop_last() =~= a);
    if b.len() > 0 {
        assert((a + b).drop_last() =~= a + b.drop_last());
        law_texts_are_quoted_sign_by_sign(a, b.drop_last(), c);
        assert(escaped_text(a + b) =~= escaped_text(a) + escaped_text(b));
    } else {
        assert(a + b =~= a);
        assert(escaped_text(a) + escaped_text(b) =~= escaped_text(a));
    }
}

/// No two signs are written alike, a sign that needs no escape is written as it is, and a written
/// sign begins with a back slash exactly when it was escaped. Nothing that is written is a control
/// character, and no quotation mark stands alone.
pub proof fn law_signs_are_escaped_apart(a: char, b: char, i: int)
    ensures
        escaped(a) == escaped(b) ==> a == b,
        escaped(a).len() > 0,
        escaped(a)[0] == '\\' <==> a == '"' || a == '\\' || (a as int) < 0x20,
        escaped(a)[0] != '\\' ==> escaped(a) == seq![a],
        0 <= i < escaped(a).len() ==> escaped(a)[i] as int >= 0x20,
        escaped(a)[0] != '"',
        escaped(a)[0] == '\\' ==> escaped(a).len() >= 2,
{
    let x = escaped(a);
    let y = escaped(b);
    if x == y {
        assert(x.len() == y.len());
        assert(x[0] == y[0]);
        if x.len() > 1 {
            assert(x[1] == y[1]);
        }
        if x.len() > 2 {
            assert(x[4] == y[4] && x[5] == y[5]);
        }
    }
}

/// What a key holds is found under that key alone, and a text is no number.
pub proof fn law_entries_are_found_by_their_key(
    m: Map<Seq<char>, Json>,
    key: Seq<char>,
    other: Seq<char>,
    s: Seq<char>,
    n: u64,
)
    ensures
        entry(Json::Object(m), key) is Some <==> m.contains_key(key),
        text_at(Json::Object(m.insert(key, Json::Text(s))), key) == Some(s),
        number_at(Json::Object(m.insert(key, Json::Number(Some(n)))), key) == Some(n),
        number_at(Json::Object(m.insert(key, Json::Text(s))), key) is None,
        text_at(Json::Object(m.insert(key, Json::Number(Some(n)))), key) is None,
        text_at(Json::Object(m.insert(key, Json::Null)), key) is None,
        number_at(Json::Object(m.insert(key, Json::Number(None))), key) is None,
        other != key ==> entry(Json::Object(m.insert(key, Json::Text(s))), other) == entry(
            Json::Object(m),
            other,
        ),
        entry(Json::Object(m.remove(key)), key) is None,
        entry(Json::Text(s), key) is None && entry(Json::Null, key) is None,
{
}

} // verus!
