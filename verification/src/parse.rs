use crate::json::{JsonModel, JsonNumber, JsonValue, NumberModel, items_view, members_view};
use vstd::prelude::*;

verus! {

/// `serde_json::Value`: a JSON document as the parser hands it out. Nothing
/// inside it is visible to proofs.
#[verifier::external_type_specification]
#[verifier::external_body]
pub struct ExValue(serde_json::Value);

/// `serde_json::Number`: a JSON number as the parser hands it out.
#[verifier::external_type_specification]
#[verifier::external_body]
pub struct ExNumber(serde_json::Number);

/// `serde_json::Error`: why the parser rejected a text.
#[verifier::external_type_specification]
#[verifier::external_body]
pub struct ExError(serde_json::Error);

/// What `serde_json::from_str` reads from a text as a `serde_json::Value`: the
/// document that the text denotes, or `None` where it rejects the text.
pub uninterp spec fn parsed_json(text: Seq<char>) -> Option<JsonModel>;

/// The document that a `serde_json::Value` holds.
pub uninterp spec fn value_model(v: serde_json::Value) -> JsonModel;

/// What `serde_json::Number::as_i64` gives for a number: the number where it
/// is an integer that fits 64 bits with a sign, else nothing.
pub uninterp spec fn number_integer(n: serde_json::Number) -> Option<int>;

/// The text that a `serde_json::Number` displays.
pub uninterp spec fn number_text(n: serde_json::Number) -> Seq<char>;

/// The number that a `serde_json::Number` holds: its integer where it has
/// one, else its text.
pub open spec fn number_model(n: serde_json::Number) -> NumberModel {
    match number_integer(n) {
        Some(i) => NumberModel::Integer(i),
        None => NumberModel::Other(number_text(n)),
    }
}

/// One level of a `serde_json::Value`: the number, the items of an array and
/// the members of an object as the parser holds them.
pub enum JsonNode {
    Null,
    Bool(bool),
    Number(serde_json::Number),
    String(String),
    Array(Vec<serde_json::Value>),
    Object(Vec<(String, serde_json::Value)>),
}

/// The document that a node holds.
pub open spec fn node_model(n: JsonNode) -> JsonModel {
    match n {
        JsonNode::Null => JsonModel::Null,
        JsonNode::Bool(b) => JsonModel::Bool(b),
        JsonNode::Number(x) => JsonModel::Number(number_model(x)),
        JsonNode::String(s) => JsonModel::String(s@),
        JsonNode::Array(items) => JsonModel::Array(
            Seq::new(items@.len(), |i: int| value_model(items@[i])),
        ),
        JsonNode::Object(members) => JsonModel::Object(
            Seq::new(members@.len(), |i: int| (members@[i].0@, value_model(members@[i].1))),
        ),
    }
}

/// Calls `serde_json::from_str` for a `serde_json::Value`: the result is the
/// document that the text denotes, or an error where the text is rejected.
#[verifier::external_body]
fn parse_value(text: &str) -> (r: Result<serde_json::Value, serde_json::Error>)
    ensures
        match r {
            Ok(v) => parsed_json(text@) == Some(value_model(v)),
            Err(_) => parsed_json(text@) is None,
        },
{
    serde_json::from_str::<serde_json::Value>(text)
}

/// Takes a `serde_json::Value` apart by its variant, moving what the
/// variant holds; the members of an object come in the order of `Map::into_iter`.
#[verifier::external_body]
fn unpack(v: serde_json::Value) -> (n: JsonNode)
    ensures
        node_model(n) == value_model(v),
{
    match v {
        serde_json::Value::Null => JsonNode::Null,
        serde_json::Value::Bool(b) => JsonNode::Bool(b),
        serde_json::Value::Number(x) => JsonNode::Number(x),
        serde_json::Value::String(s) => JsonNode::String(s),
        serde_json::Value::Array(items) => JsonNode::Array(items),
        serde_json::Value::Object(members) => JsonNode::Object(members.into_iter().collect()),
    }
}

/// Calls `serde_json::Number::as_i64`.
#[verifier::external_body]
fn number_as_i64(n: &serde_json::Number) -> (r: Option<i64>)
    ensures
        match r {
            Some(i) => number_integer(*n) == Some(i as int),
            None => number_integer(*n) is None,
        },
{
    n.as_i64()
}

/// Calls `to_string` on a `serde_json::Number`: the text that it displays.
#[verifier::external_body]
fn number_to_text(n: &serde_json::Number) -> (r: String)
    ensures
        r@ == number_text(*n),
{
    n.to_string()
}

/// Calls `to_string` on a `serde_json::Error`: its message, with line and column.
#[verifier::external_body]
fn error_text(e: &serde_json::Error) -> (message: String) {
    e.to_string()
}

/// Converts a `serde_json::Value` into a [`JsonValue`] that holds the same document.
pub fn from_value(v: serde_json::Value) -> (j: JsonValue)
    ensures
        j@ == value_model(v),
    decreases value_model(v),
{
    let ghost whole = value_model(v);
    match unpack(v) {
        JsonNode::Null => JsonValue::Null,
        JsonNode::Bool(b) => JsonValue::Bool(b),
        JsonNode::Number(x) => match number_as_i64(&x) {
            Some(i) => JsonValue::Number(JsonNumber::Integer(i)),
            None => JsonValue::Number(JsonNumber::Other(number_to_text(&x))),
        },
        JsonNode::String(s) => JsonValue::String(s),
        JsonNode::Array(items) => {
            let ghost models = Seq::new(items@.len(), |i: int| value_model(items@[i]));
            let mut items = items;
            let mut reversed: Vec<JsonValue> = Vec::new();
            let ghost all = items@;
            while items.len() > 0
                invariant
                    whole == value_model(v),
                    whole == JsonModel::Array(models),
                    models == Seq::new(all.len(), |i: int| value_model(all[i])),
                    items@ == all.take(items@.len() as int),
                    reversed@.len() + items@.len() == all.len(),
                    forall|k: int|
                        0 <= k < reversed@.len() ==> (#[trigger] reversed@[k])@ == models[all.len()
                            - 1 - k],
                decreases items@.len(),
            {
                let item = items.pop().unwrap();
                assert(value_model(item) == models[items@.len() as int]);
                assert(decreases_to!(whole => whole->Array_0));
                assert(decreases_to!(whole->Array_0 => (whole->Array_0)[items@.len() as int]));
                assert(decreases_to!(whole => value_model(item)));
                reversed.push(from_value(item));
            }
            let mut out: Vec<JsonValue> = Vec::new();
            while reversed.len() > 0
                invariant
                    reversed@.len() + out@.len() == all.len(),
                    models.len() == all.len(),
                    forall|k: int| 0 <= k < out@.len() ==> (#[trigger] out@[k])@ == models[k],
                    forall|k: int|
                        0 <= k < reversed@.len() ==> (#[trigger] reversed@[k])@ == models[all.len()
                            - 1 - k],
                decreases reversed@.len(),
            {
                let item = reversed.pop().unwrap();
                out.push(item);
            }
            assert(items_view(out@) =~= models);
            JsonValue::Array(out)
        },
        JsonNode::Object(members) => {
            let ghost models = Seq::new(
                members@.len(),
                |i: int| (members@[i].0@, value_model(members@[i].1)),
            );
            let mut members = members;
            let mut reversed: Vec<(String, JsonValue)> = Vec::new();
            let ghost all = members@;
            while members.len() > 0
                invariant
                    whole == value_model(v),
                    whole == JsonModel::Object(models),
                    models == Seq::new(all.len(), |i: int| (all[i].0@, value_model(all[i].1))),
                    members@ == all.take(members@.len() as int),
                    reversed@.len() + members@.len() == all.len(),
                    forall|k: int|
                        0 <= k < reversed@.len() ==> ((#[trigger] reversed@[k]).0@, reversed@[k].1@)
                            == models[all.len() - 1 - k],
                decreases members@.len(),
            {
                let (name, item) = members.pop().unwrap();
                assert((name@, value_model(item)) == models[members@.len() as int]);
                assert(decreases_to!(whole => whole->Object_0));
                assert(decreases_to!(whole->Object_0 => (whole->Object_0)[members@.len() as int]));
                assert(decreases_to!((whole->Object_0)[members@.len() as int] => (whole->Object_0)[members@.len() as int].1));
                assert(decreases_to!(whole => value_model(item)));
                reversed.push((name, from_value(item)));
            }
            let mut out: Vec<(String, JsonValue)> = Vec::new();
            while reversed.len() > 0
                invariant
                    reversed@.len() + out@.len() == all.len(),
                    models.len() == all.len(),
                    forall|k: int|
                        0 <= k < out@.len() ==> ((#[trigger] out@[k]).0@, out@[k].1@) == models[k],
                    forall|k: int|
                        0 <= k < reversed@.len() ==> ((#[trigger] reversed@[k]).0@, reversed@[k].1@)
                            == models[all.len() - 1 - k],
                decreases reversed@.len(),
            {
                let item = reversed.pop().unwrap();
                out.push(item);
            }
            assert(members_view(out@) =~= models);
            JsonValue::Object(out)
        },
    }
}

/// Reads a JSON text: the document that `serde_json` finds in it, or the
/// message of the error with which it rejects the text.
pub fn parse_json(text: &str) -> (r: Result<JsonValue, String>)
    ensures
        match r {
            Ok(j) => parsed_json(text@) == Some(j@),
            Err(_) => parsed_json(text@) is None,
        },
{
    match parse_value(text) {
        Ok(v) => Ok(from_value(v)),
        Err(e) => Err(error_text(&e)),
    }
}

} // verus!
