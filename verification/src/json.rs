//! JSON documents, as `serde_json` reads, holds and prints them.
//!
//! A document is held as `serde_json::Value`. The contracts speak of what it says, a [`Json`].
use serde_json::{Error, Map as JsonMap, Value};
use std::collections::HashMap;
use vstd::prelude::*;

verus! {

/// What a JSON document says. A number stands for its printed form.
pub enum Json {
    Null,
    Bool(bool),
    Number(Seq<char>),
    Text(Seq<char>),
    Array(Seq<Json>),
    Object(Map<Seq<char>, Json>),
}

// ── The types of serde_json ─────────────────────────────────────────────────

/// `serde_json::Value`, a JSON document.
#[verifier::external_type_specification]
#[verifier::external_body]
pub struct ExValue(serde_json::Value);

/// `serde_json::Error`, why a document could not be read or printed.
#[verifier::external_type_specification]
#[verifier::external_body]
pub struct ExError(serde_json::Error);

/// `serde_json::Map`, the members of an object.
#[verifier::external_type_specification]
#[verifier::external_body]
#[verifier::reject_recursive_types(K)]
#[verifier::reject_recursive_types(V)]
pub struct ExMap<K, V>(serde_json::Map<K, V>);

/// What a document says.
pub uninterp spec fn json_of(v: Value) -> Json;

/// What the members of an object say.
pub uninterp spec fn members(m: JsonMap<String, Value>) -> Map<Seq<char>, Json>;

/// What the documents of an array say.
pub open spec fn elements(v: Seq<Value>) -> Seq<Json> {
    v.map_values(|e: Value| json_of(e))
}

// ── Reading and printing ────────────────────────────────────────────────────

/// What `serde_json::from_slice` reads in some bytes, where they are one JSON document.
pub uninterp spec fn parsed(bytes: Seq<u8>) -> Option<Json>;

/// The bytes that `serde_json::to_vec` prints of a document.
pub uninterp spec fn compact_bytes(j: Json) -> Seq<u8>;

/// The text that `serde_json::Value` displays as.
pub uninterp spec fn compact_text(j: Json) -> Seq<char>;

/// How deep arrays and objects may stand in each other for `serde_json` to read them.
pub open spec fn nesting_limit() -> nat {
    127
}

/// Whether arrays and objects stand in each other at most `depth` deep.
pub open spec fn within(j: Json, depth: nat) -> bool
    decreases depth,
{
    match j {
        Json::Array(items) => depth > 0 && forall|i: int|
            0 <= i < items.len() ==> within(#[trigger] items[i], (depth - 1) as nat),
        Json::Object(m) => depth > 0 && forall|k: Seq<char>| #[trigger]
            m.contains_key(k) ==> within(m[k], (depth - 1) as nat),
        _ => true,
    }
}

/// Whether a printed number is a whole one: digits and a sign, no fraction and no exponent.
pub open spec fn whole_number(s: Seq<char>) -> bool {
    forall|i: int| 0 <= i < s.len() ==> crate::text::is_digit(#[trigger] s[i]) || s[i] == '-'
}

/// Whether a number is printed without an exponent.
pub open spec fn plain_number(s: Seq<char>) -> bool {
    forall|i: int|
        0 <= i < s.len() ==> crate::text::is_digit(#[trigger] s[i]) || s[i] == '-' || s[i] == '.'
}

/// Whether every number down to `depth` is printed without an exponent.
pub open spec fn plain_numbers(j: Json, depth: nat) -> bool
    decreases depth,
{
    match j {
        Json::Number(s) => plain_number(s),
        Json::Array(items) => depth > 0 ==> forall|i: int|
            0 <= i < items.len() ==> plain_numbers(#[trigger] items[i], (depth - 1) as nat),
        Json::Object(m) => depth > 0 ==> forall|k: Seq<char>| #[trigger]
            m.contains_key(k) ==> plain_numbers(m[k], (depth - 1) as nat),
        _ => true,
    }
}

/// Whether a document nests at most `depth` deep and every number in it is whole.
pub open spec fn whole_numbers(j: Json, depth: nat) -> bool
    decreases depth,
{
    match j {
        Json::Number(s) => whole_number(s),
        Json::Array(items) => depth > 0 && forall|i: int|
            0 <= i < items.len() ==> whole_numbers(#[trigger] items[i], (depth - 1) as nat),
        Json::Object(m) => depth > 0 && forall|k: Seq<char>| #[trigger]
            m.contains_key(k) ==> whole_numbers(m[k], (depth - 1) as nat),
        _ => true,
    }
}

/// Whether `back` is the document `j`, which nests at most `depth` deep, but for the last digits
/// of numbers that are not whole.
pub open spec fn reads_as(j: Json, back: Json, depth: nat) -> bool
    decreases depth,
{
    match j {
        Json::Number(s) => back is Number && (whole_number(s) ==> back == j),
        Json::Array(items) => depth > 0 && (back matches Json::Array(others) && others.len()
            == items.len() && forall|i: int|
            0 <= i < items.len() ==> reads_as(
                #[trigger] items[i],
                others[i],
                (depth - 1) as nat,
            )),
        Json::Object(m) => depth > 0 && (back matches Json::Object(n) && n.dom() == m.dom()
            && forall|k: Seq<char>| #[trigger]
            m.contains_key(k) ==> reads_as(m[k], n[k], (depth - 1) as nat)),
        _ => back == j,
    }
}

/// A document without fractions that is printed and read again comes back as it was.
pub proof fn law_whole_document_comes_back(j: Json, back: Json, depth: nat)
    requires
        whole_numbers(j, depth),
        reads_as(j, back, depth),
    ensures
        back == j,
    decreases depth,
{
    match j {
        Json::Array(items) => {
            let others = back->Array_0;
            assert forall|i: int| 0 <= i < items.len() implies others[i] == #[trigger] items[i] by {
                law_whole_document_comes_back(items[i], others[i], (depth - 1) as nat);
            }
            assert(others =~= items);
        },
        Json::Object(m) => {
            let n = back->Object_0;
            assert forall|k: Seq<char>| #[trigger] m.contains_key(k) implies n[k] == m[k] by {
                law_whole_document_comes_back(m[k], n[k], (depth - 1) as nat);
            }
            assert(n =~= m);
        },
        _ => {},
    }
}

/// `serde_json::from_slice::<Value>`: what it reads depends on the bytes alone, and nests no
/// deeper than the limit.
#[verifier::external_body]
pub(crate) fn parse(bytes: &[u8]) -> (res: Result<Value, Error>)
    ensures
        match res {
            Ok(v) => parsed(bytes@) == Some(json_of(v)) && within(json_of(v), nesting_limit()),
            Err(_) => parsed(bytes@) is None,
        },
{
    serde_json::from_slice(bytes)
}

/// `serde_json::to_vec` on a document. It does not fail on one, and what it prints depends on what
/// the document says. `serde_json::from_slice` reads the bytes again where the document nests no
/// deeper than the limit and no number is printed with an exponent; of a number with an exponent,
/// which may stand at the end of the range, it is not claimed. What is read again is the document
/// that was printed; that a number with a fraction comes back to the last digit is not claimed.
#[verifier::external_body]
pub(crate) fn print_bytes(v: &Value) -> (res: Result<Vec<u8>, Error>)
    ensures
        res is Ok,
        res matches Ok(bytes) ==> bytes@ == compact_bytes(json_of(*v)) && match parsed(bytes@) {
            Some(back) => reads_as(json_of(*v), back, nesting_limit()),
            None => !within(json_of(*v), nesting_limit()) || !plain_numbers(
                json_of(*v),
                nesting_limit(),
            ),
        },
{
    serde_json::to_vec(v)
}

/// `to_string` of a document, by its `Display`: what it prints depends on what the document says.
#[verifier::external_body]
pub(crate) fn print_text(v: &Value) -> (res: String)
    ensures
        res@ == compact_text(json_of(*v)),
{
    v.to_string()
}

// ── Looking into a document ─────────────────────────────────────────────────

/// `Value::get` with a name: the member of that name, if the document is an object and has one.
#[verifier::external_body]
pub(crate) fn member<'a>(v: &'a Value, key: &str) -> (res: Option<&'a Value>)
    ensures
        match res {
            Some(w) => json_of(*v) matches Json::Object(m) && m.contains_key(key@) && m[key@]
                == json_of(*w),
            None => json_of(*v) matches Json::Object(m) ==> !m.contains_key(key@),
        },
{
    v.get(key)
}

/// `Value::as_str`: the text of a document that is a text.
pub assume_specification[ Value::as_str ](v: &Value) -> (res: Option<&str>)
    ensures
        match res {
            Some(s) => json_of(*v) == Json::Text(s@),
            None => !(json_of(*v) is Text),
        },
;

/// `Value::as_object_mut`: the members of a document that is an object, to be changed in place.
pub assume_specification[ Value::as_object_mut ](v: &mut Value) -> (res: Option<
    &mut JsonMap<String, Value>,
>)
    ensures
        match res {
            Some(m) => {
                &&& json_of(*old(v)) == Json::Object(members(*m))
                &&& json_of(*final(v)) == Json::Object(members(*final(m)))
            },
            None => !(json_of(*old(v)) is Object) && *final(v) == *old(v),
        },
;

/// `Map::contains_key`: whether an object has a member of that name.
#[verifier::external_body]
pub(crate) fn has_member(m: &JsonMap<String, Value>, key: &str) -> (res: bool)
    ensures
        res == members(*m).contains_key(key@),
{
    m.contains_key(key)
}

// ── Making a document ───────────────────────────────────────────────────────

/// `Map::new`: no members.
pub assume_specification[ JsonMap::<String, Value>::new ]() -> (res: JsonMap<String, Value>)
    ensures
        members(res).dom() == Set::<Seq<char>>::empty(),
;

/// `Map::insert`: sets one member and gives what it was before.
pub assume_specification[ JsonMap::<String, Value>::insert ](
    m: &mut JsonMap<String, Value>,
    k: String,
    v: Value,
) -> (res: Option<Value>)
    ensures
        members(*final(m)) == members(*old(m)).insert(k@, json_of(v)),
        match res {
            Some(w) => members(*old(m)).contains_key(k@) && members(*old(m))[k@] == json_of(w),
            None => !members(*old(m)).contains_key(k@),
        },
;

/// `Value`'s `clone`: a document that says the same.
pub assume_specification[ <Value as Clone>::clone ](v: &Value) -> (res: Value)
    ensures
        json_of(res) == json_of(*v),
;

/// `Value::from` of a text.
#[verifier::external_body]
pub(crate) fn text_value(s: String) -> (v: Value)
    ensures
        json_of(v) == Json::Text(s@),
{
    Value::from(s)
}

/// `Value::from` of a truth value.
#[verifier::external_body]
pub(crate) fn bool_value(b: bool) -> (v: Value)
    ensures
        json_of(v) == Json::Bool(b),
{
    Value::from(b)
}

/// `Value::from` of an unsigned number: it prints in decimal.
#[verifier::external_body]
pub(crate) fn number_value(n: u32) -> (v: Value)
    ensures
        json_of(v) == Json::Number(crate::text::decimal(n as nat)),
{
    Value::from(n)
}

/// `Value::from` of members: an object.
#[verifier::external_body]
pub(crate) fn object_value(m: JsonMap<String, Value>) -> (v: Value)
    ensures
        json_of(v) == Json::Object(members(m)),
{
    Value::from(m)
}

/// `Value::from` of documents: an array.
#[verifier::external_body]
pub(crate) fn array_value(elems: Vec<Value>) -> (v: Value)
    ensures
        json_of(v) == Json::Array(elements(elems@)),
{
    Value::from(elems)
}

// ── Saved state ─────────────────────────────────────────────────────────────

/// The map that some pairs write, the later of two pairs with one name counting.
pub open spec fn map_of_pairs(pairs: Seq<(String, String)>) -> Map<Seq<char>, Seq<char>>
    decreases pairs.len(),
{
    if pairs.len() == 0 {
        Map::empty()
    } else {
        map_of_pairs(pairs.drop_last()).insert(pairs.last().0@, pairs.last().1@)
    }
}

/// What `serde_json::from_str` reads in a text as a map from texts to texts.
pub uninterp spec fn string_map(text: Seq<char>) -> Option<Map<Seq<char>, Seq<char>>>;

/// What `serde_json::from_str` reads in a text as a list of texts.
pub uninterp spec fn string_list(text: Seq<char>) -> Option<Seq<Seq<char>>>;

/// What `serde_json::to_string_pretty` prints of a list of texts.
pub uninterp spec fn pretty_list(items: Seq<Seq<char>>) -> Seq<char>;

/// `serde_json::from_str::<HashMap<String, String>>`, the entries in any order.
#[verifier::external_body]
pub(crate) fn parse_string_map(text: &str) -> (res: Option<Vec<(String, String)>>)
    ensures
        match res {
            Some(pairs) => string_map(text@) == Some(map_of_pairs(pairs@)) && forall|i: int, j: int|
                0 <= i < j < pairs.len() ==> (#[trigger] pairs[i]).0@ != (#[trigger] pairs[j]).0@,
            None => string_map(text@) is None,
        },
{
    match serde_json::from_str::<HashMap<String, String>>(text) {
        Ok(map) => Some(map.into_iter().collect()),
        Err(_) => None,
    }
}

/// `serde_json::to_string_pretty` on a `HashMap<String, String>`. It does not fail on texts, and
/// `serde_json::from_str` reads the same map back; in what order the entries are printed is left
/// open, for a hash map has none.
#[verifier::external_body]
pub(crate) fn print_string_map(pairs: &Vec<(String, String)>) -> (res: Result<String, Error>)
    ensures
        res is Ok,
        res matches Ok(text) ==> string_map(text@) == Some(map_of_pairs(pairs@)),
{
    let map: HashMap<&String, &String> = pairs.iter().map(|pair| (&pair.0, &pair.1)).collect();
    serde_json::to_string_pretty(&map)
}

/// `serde_json::from_str::<Vec<String>>`.
#[verifier::external_body]
pub(crate) fn parse_string_list(text: &str) -> (res: Result<Vec<String>, Error>)
    ensures
        match res {
            Ok(items) => string_list(text@) == Some(items.deep_view()),
            Err(_) => string_list(text@) is None,
        },
{
    serde_json::from_str(text)
}

/// `serde_json::to_string_pretty` on a list of texts. It does not fail on texts, and
/// `serde_json::from_str` reads the same list back.
#[verifier::external_body]
pub(crate) fn print_string_list(items: &Vec<String>) -> (res: Result<String, Error>)
    ensures
        res is Ok,
        res matches Ok(text) ==> text@ == pretty_list(items.deep_view()) && string_list(text@)
            == Some(items.deep_view()),
{
    serde_json::to_string_pretty(items)
}

} // verus!
