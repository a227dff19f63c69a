//! The JSON values that requests and responses carry (`serde_json::Value`).
use vstd::prelude::*;
use crate::param_map::pair_views;

verus! {

#[verifier::external_type_specification]
#[verifier::external_body]
pub struct ExJsonValue(serde_json::Value);

/// What `serde_json::from_str::<serde_json::Value>` gives for `text`: the value, or the
/// message of the error it reports.
pub uninterp spec fn json_from_text(text: Seq<char>) -> Result<serde_json::Value, Seq<char>>;

/// The JSON object that `serde_json::Value::from_iter` builds from name/value members.
pub uninterp spec fn json_object(members: Seq<(Seq<char>, serde_json::Value)>) -> serde_json::Value;

/// The JSON string that `serde_json::Value::from` makes of a text.
pub uninterp spec fn json_string(text: Seq<char>) -> serde_json::Value;

/// The JSON object whose members have string values.
pub open spec fn json_string_object(pairs: Seq<(Seq<char>, Seq<char>)>) -> serde_json::Value {
    json_object(pairs.map_values(|p: (Seq<char>, Seq<char>)| (p.0, json_string(p.1))))
}

/// The views of name/value members.
pub open spec fn member_views(ms: Seq<(String, serde_json::Value)>) -> Seq<(Seq<char>, serde_json::Value)> {
    ms.map_values(|m: (String, serde_json::Value)| (m.0@, m.1))
}

/// The compact JSON text that `serde_json::Value`'s `Display` writes for a value.
pub uninterp spec fn json_text(v: serde_json::Value) -> Seq<char>;

/// The compact JSON text of a value (`serde_json::Value`'s `Display`, through
/// `to_string`). The contract claims only that the text is a function of the value.
#[verifier::external_body]
pub(crate) fn value_text(v: &serde_json::Value) -> (r: String)
    ensures
        r@ == json_text(*v),
{
    v.to_string()
}

/// Parses `text` as JSON with `serde_json::from_str`. The contract claims only that the
/// outcome (the value, or the error's `Display` text) is a function of `text`.
#[verifier::external_body]
pub(crate) fn parse_json(text: &str) -> (r: Result<serde_json::Value, String>)
    ensures
        match r {
            Ok(v) => json_from_text(text@) == Ok::<serde_json::Value, Seq<char>>(v),
            Err(m) => json_from_text(text@) == Err::<serde_json::Value, Seq<char>>(m@),
        },
{
    match serde_json::from_str::<serde_json::Value>(text) {
        Ok(v) => Ok(v),
        Err(e) => Err(e.to_string()),
    }
}

/// A JSON object with the given members, built with `serde_json::Value::from_iter`.
/// The contract claims only that the object is a function of the members.
#[verifier::external_body]
pub(crate) fn value_object(members: Vec<(String, serde_json::Value)>) -> (r: serde_json::Value)
    ensures
        r == json_object(member_views(members@)),
{
    serde_json::Value::from_iter(members)
}

/// A JSON string, built with `serde_json::Value::from`. The contract claims only that the
/// value is a function of the text.
#[verifier::external_body]
pub(crate) fn string_value(text: String) -> (r: serde_json::Value)
    ensures
        r == json_string(text@),
{
    serde_json::Value::from(text)
}

/// The views of members after a push.
proof fn lemma_member_views_push(ms: Seq<(String, serde_json::Value)>, m: (String, serde_json::Value))
    ensures
        member_views(ms.push(m)) == member_views(ms).push((m.0@, m.1)),
{
    assert(member_views(ms.push(m)) =~= member_views(ms).push((m.0@, m.1)));
}

/// A JSON object with the given string members.
pub fn string_object(pairs: Vec<(String, String)>) -> (r: serde_json::Value)
    ensures
        r == json_string_object(pair_views(pairs@)),
{
    let ghost target = pair_views(pairs@).map_values(|p: (Seq<char>, Seq<char>)| (p.0, json_string(p.1)));
    let mut members: Vec<(String, serde_json::Value)> = Vec::new();
    let mut i: usize = 0;
    while i < pairs.len()
        invariant
            i <= pairs@.len(),
            target == pair_views(pairs@).map_values(|p: (Seq<char>, Seq<char>)| (p.0, json_string(p.1))),
            member_views(members@) == target.take(i as int),
        decreases pairs@.len() - i,
    {
        let name = pairs[i].0.clone();
        let value = string_value(pairs[i].1.clone());
        proof {
            assert(target[i as int] == (name@, value));
            lemma_member_views_push(members@, (name, value));
            assert(member_views(members@).push((name@, value)) =~= target.take(i + 1));
        }
        members.push((name, value));
        i += 1;
    }
    assert(target.take(i as int) =~= target);
    value_object(members)
}

/// The members of a JSON object, in the order its map yields them (`Value::as_object`,
/// then iteration); `None` for a value that is not an object.
pub uninterp spec fn json_members(v: serde_json::Value) -> Option<Seq<(Seq<char>, serde_json::Value)>>;

/// The unsigned integer that a JSON value holds (`Value::as_u64`).
pub uninterp spec fn json_u64(v: serde_json::Value) -> Option<u64>;

/// The signed integer that a JSON value holds (`Value::as_i64`).
pub uninterp spec fn json_i64(v: serde_json::Value) -> Option<i64>;

/// The text of a JSON string (`Value::as_str`); `None` for any other value.
pub uninterp spec fn json_str(v: serde_json::Value) -> Option<Seq<char>>;

/// The members of an object (`serde_json::Value::as_object`, then the map's `iter`), each
/// name and value copied. The contract claims that the members are a function of the
/// value and, as the members of a map, have distinct names.
#[verifier::external_body]
pub(crate) fn object_members(v: &serde_json::Value) -> (r: Option<Vec<(String, serde_json::Value)>>)
    ensures
        match r {
            Some(ms) => {
                &&& json_members(*v) == Some(member_views(ms@))
                &&& forall|i: int, j: int| 0 <= i < j < ms@.len() ==> ms@[i].0@ != ms@[j].0@
            },
            None => json_members(*v) is None,
        },
{
    v.as_object().map(|m| m.iter().map(|(k, x)| (k.clone(), x.clone())).collect())
}

/// `serde_json::Value::as_u64`. The contract claims only that the result is a function
/// of the value.
#[verifier::external_body]
pub(crate) fn value_u64(v: &serde_json::Value) -> (r: Option<u64>)
    ensures
        r == json_u64(*v),
{
    v.as_u64()
}

/// `serde_json::Value::as_i64`. The contract claims only that the result is a function
/// of the value.
#[verifier::external_body]
pub(crate) fn value_i64(v: &serde_json::Value) -> (r: Option<i64>)
    ensures
        r == json_i64(*v),
{
    v.as_i64()
}

/// `serde_json::Value::as_str`, the text copied. The contract claims only that the
/// result is a function of the value.
#[verifier::external_body]
pub(crate) fn value_str(v: &serde_json::Value) -> (r: Option<String>)
    ensures
        match r {
            Some(t) => json_str(*v) == Some(t@),
            None => json_str(*v) is None,
        },
{
    v.as_str().map(|t| t.to_string())
}

/// `serde_json::Value::clone` copies the whole tree, so the copy is the same value.
pub assume_specification[ <serde_json::Value as Clone>::clone ](v: &serde_json::Value) -> (r: serde_json::Value)
    ensures
        r == *v,
;

} // verus!
