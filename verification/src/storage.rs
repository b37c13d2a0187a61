//! Reading a storage document from its JSON text with `serde_json`.
use vstd::prelude::*;
use crate::json::{
    distinct_keys, get, has_key, key_pos, lemma_first_key_unique, node_wf, walk, wf, Json,
};
use serde_json::Value;

verus! {

/// The error `serde_json` reports for a text it cannot read.
#[verifier::external_type_specification]
#[verifier::external_body]
pub struct ExJsonError(serde_json::Error);

/// A JSON value split one level: an object's entries, a string, or any other value whole.
pub enum ValueParts {
    Object(Vec<(String, Value)>),
    Str(String),
    Other(Value),
}

/// No two entries share a name.
pub open spec fn distinct_names(entries: Seq<(String, Value)>) -> bool {
    forall|i: int, j: int| 0 <= i < j < entries.len() ==> entries[i].0@ != entries[j].0@
}

/// `serde_json::from_slice` into a `serde_json::Map`, whose entries it then hands out: the
/// entries of the JSON object that `bytes` hold, or the error `serde_json` reports. A `Map`
/// holds each name once, and that is all the contract claims.
#[verifier::external_body]
fn parse_object(bytes: &[u8]) -> (r: Result<Vec<(String, Value)>, serde_json::Error>)
    ensures
        r matches Ok(entries) ==> distinct_names(entries@),
{
    match serde_json::from_slice::<serde_json::Map<String, Value>>(bytes) {
        Ok(m) => Ok(m.into_iter().collect()),
        Err(e) => Err(e),
    }
}

/// Tells the variants of a `serde_json::Value` apart, handing out an object's entries (each
/// name once, as a `Map` holds them), a string's text, or the value itself.
#[verifier::external_body]
fn value_parts(v: Value) -> (r: ValueParts)
    ensures
        r matches ValueParts::Object(entries) ==> distinct_names(entries@),
{
    match v {
        Value::Object(m) => ValueParts::Object(m.into_iter().collect()),
        Value::String(s) => ValueParts::Str(s),
        other => ValueParts::Other(other),
    }
}

/// Entries with distinct names, each holding a node whose objects have distinct names,
/// make a document whose objects all have distinct names.
pub proof fn lemma_wf_from_entries(entries: Seq<(String, Json)>)
    requires
        distinct_keys(entries),
        forall|j: int| 0 <= j < entries.len() ==> node_wf(#[trigger] entries[j].1),
    ensures
        wf(entries),
{
    assert forall|p: Seq<Seq<char>>| #[trigger] walk(entries, p) is Ok implies distinct_keys(
        walk(entries, p)->Ok_0,
    ) by {
        if p.len() > 0 {
            let i = key_pos(entries, p[0]);
            assert(node_wf(entries[i].1));
            let c = get(entries, p[0])->0->Object_0;
            assert(walk(c@, p.drop_first()) is Ok);
        }
    }
}

/// The node for a JSON value, reading objects nested up to `depth` levels deep (this value
/// is the first level); deeper values are carried whole, unread. A text of `n` bytes nests
/// no deeper than `n` levels, since each level takes a `{` of the text.
pub fn json_from_value(v: Value, depth: usize) -> (r: Json)
    ensures
        node_wf(r),
        depth == 0 ==> r == Json::Other(v),
    decreases depth, 2usize,
{
    if depth == 0 {
        return Json::Other(v);
    }
    json_from_parts(value_parts(v), depth)
}

/// The node for a JSON value split one level, that level the first of `depth`: a string
/// stays that string, any other non-object value is carried whole, and an object's entries
/// keep their names, read as `entries_from_values` reads them.
pub fn json_from_parts(parts: ValueParts, depth: usize) -> (r: Json)
    requires
        parts matches ValueParts::Object(children) ==> distinct_names(children@),
    ensures
        node_wf(r),
        match parts {
            ValueParts::Str(s) => r == Json::Str(s),
            ValueParts::Other(o) => r == Json::Other(o),
            ValueParts::Object(children) => r matches Json::Object(entries) && same_names_reversed(
                entries@,
                children@,
            ),
        },
    decreases depth, 1usize,
{
    match parts {
        ValueParts::Object(children) => Json::Object(entries_from_values(children, depth)),
        ValueParts::Str(s) => Json::Str(s),
        ValueParts::Other(o) => Json::Other(o),
    }
}

/// `entries` hold the names of `children` in reverse order.
pub open spec fn same_names_reversed(entries: Seq<(String, Json)>, children: Seq<(String, Value)>) -> bool {
    &&& entries.len() == children.len()
    &&& forall|j: int| 0 <= j < entries.len() ==> #[trigger] entries[j].0 == children[children.len() - 1 - j].0
}

/// The entries of an object at the first of `depth` levels, last first; their values are
/// read with the levels left, and carried whole where none are left.
pub fn entries_from_values(children: Vec<(String, Value)>, depth: usize) -> (r: Vec<(String, Json)>)
    requires
        distinct_names(children@),
    ensures
        wf(r@),
        same_names_reversed(r@, children@),
    decreases depth, 0usize,
{
    let ghost orig = children@;
    let n = children.len();
    let mut children = children;
    let mut entries: Vec<(String, Json)> = Vec::new();
    while children.len() > 0
        invariant
            n == orig.len(),
            distinct_names(orig),
            children@ == orig.take(children@.len() as int),
            entries@.len() + children@.len() == n,
            forall|j: int| 0 <= j < entries@.len() ==> #[trigger] entries@[j].0 == orig[n - 1 - j].0,
            forall|j: int| 0 <= j < entries@.len() ==> node_wf(#[trigger] entries@[j].1),
        decreases children@.len(),
    {
        let (k, c) = children.pop().unwrap();
        proof {
            assert(children@ =~= orig.take(children@.len() as int));
        }
        let node = if depth == 0 {
            Json::Other(c)
        } else {
            json_from_value(c, depth - 1)
        };
        entries.push((k, node));
    }
    proof {
        assert forall|i: int, j: int| 0 <= i < j < entries@.len() implies entries@[i].0@
            != entries@[j].0@ by {
            assert(entries@[i].0 == orig[n - 1 - i].0);
            assert(entries@[j].0 == orig[n - 1 - j].0);
        }
        lemma_wf_from_entries(entries@);
    }
    entries
}

/// The storage document that a JSON text holds: the entries of its top-level object (last
/// first), every object with distinct names, or the error `serde_json` reports for the text.
pub fn parse_storage(bytes: &[u8]) -> (r: Result<Vec<(String, Json)>, serde_json::Error>)
    ensures
        r matches Ok(storage) ==> wf(storage@),
{
    let children = parse_object(bytes)?;
    Ok(entries_from_values(children, bytes.len()))
}

} // verus!
