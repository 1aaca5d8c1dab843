//! The library's own model of a parsed JSON document.
//!
//! JSON syntax is delegated to serde_json behind one trusted boundary;
//! everything the builder decides (document structure, property lookup,
//! geometry shape) is verified code over [`JsonValue`], a plain-value tree.
//! Number nodes keep the decimal text of the number, so that coordinate
//! parsing is verified code too.
use vstd::prelude::*;

verus! {

/// A JSON value as plain data: the builder's verified logic reads this,
/// never a type of an outside crate.
#[derive(Debug)]
pub enum JsonValue {
    Null,
    Bool(bool),
    /// The decimal text of a number, as serde_json renders it.
    Num(Vec<u8>),
    Text(String),
    Arr(Vec<JsonValue>),
    Obj(Vec<(String, JsonValue)>),
}

/// What parsing a byte sequence yields: `Some` of the document tree when
/// the parser accepts the bytes, `None` when it refuses them (not
/// well-formed JSON, or nested beyond the parser's depth limit). Parsing
/// is a pure function of the bytes, so the result only gets a name here;
/// `parse_json` ties the name to the real parser.
pub uninterp spec fn json_doc(bytes: Seq<u8>) -> Option<JsonValue>;

/// Declares serde_json's value type so that the conversion helper below
/// may take it; the library never reads inside such a value.
#[verifier::external_type_specification]
#[verifier::external_body]
pub struct ExValue(serde_json::Value);

/// Helper of `parse_json` and not called anywhere else: copies a parsed
/// `serde_json::Value` tree into the library's own `JsonValue`, node for
/// node. A number node keeps serde_json's decimal rendering of the number
/// (integers exactly; floats in the shortest round-tripping form), which is
/// a function of the number's value alone.
#[verifier::external_body]
fn tree_of_value(v: &serde_json::Value) -> JsonValue {
    match v {
        serde_json::Value::Null => JsonValue::Null,
        serde_json::Value::Bool(b) => JsonValue::Bool(*b),
        serde_json::Value::Number(n) => JsonValue::Num(n.to_string().into_bytes()),
        serde_json::Value::String(s) => JsonValue::Text(s.clone()),
        serde_json::Value::Array(a) => JsonValue::Arr(a.iter().map(tree_of_value).collect()),
        serde_json::Value::Object(o) => JsonValue::Obj(
            o.iter().map(|e| (e.0.clone(), tree_of_value(e.1))).collect(),
        ),
    }
}

/// Relies on `serde_json::from_slice::<serde_json::Value>`: the parse is
/// a pure function of the input bytes, and duplicate object keys are
/// resolved by the parser (the last wins) before the tree reaches the
/// library.
#[verifier::external_body]
pub(crate) fn parse_json(bytes: &[u8]) -> (r: Result<JsonValue, String>)
    ensures
        match r {
            Ok(v) => json_doc(bytes@) == Some(v),
            Err(_) => json_doc(bytes@) is None,
        },
{
    match serde_json::from_slice::<serde_json::Value>(bytes) {
        Ok(v) => Ok(tree_of_value(&v)),
        Err(e) => Err(e.to_string()),
    }
}

/// First entry of `entries` whose key reads `key`, if any. serde_json keeps
/// object keys unique, so this is simply the entry under `key`.
pub open spec fn obj_get(entries: Seq<(String, JsonValue)>, key: Seq<char>) -> Option<JsonValue>
    decreases entries.len(),
{
    if entries.len() == 0 {
        None
    } else if entries[0].0@ == key {
        Some(entries[0].1)
    } else {
        obj_get(entries.drop_first(), key)
    }
}

pub(crate) fn obj_find<'a>(entries: &'a Vec<(String, JsonValue)>, key: &String) -> (r: Option<
    &'a JsonValue,
>)
    ensures
        match r {
            Some(v) => obj_get(entries@, key@) == Some(*v),
            None => obj_get(entries@, key@) is None,
        },
{
    let n = entries.len();
    let mut i: usize = 0;
    proof {
        assert(entries@.skip(0) =~= entries@);
    }
    while i < n
        invariant
            0 <= i <= n,
            n == entries@.len(),
            obj_get(entries@.skip(i as int), key@) == obj_get(entries@, key@),
        decreases n - i,
    {
        proof {
            assert(entries@.skip(i as int)[0] == entries@[i as int]);
            assert(entries@.skip(i as int).drop_first() =~= entries@.skip(i as int + 1));
        }
        if entries[i].0.eq(key) {
            return Some(&entries[i].1);
        }
        i = i + 1;
    }
    proof {
        assert(entries@.skip(n as int).len() == 0);
    }
    None
}

} // verus!
