//! A plain-data model of parsed JSON.
//!
//! The embedded page configuration and the portal's client-configuration
//! object both arrive as JSON text.  Parsing is delegated to the `json`
//! crate behind one trusted wrapper; the parsed value is carried as
//! [`JsonNode`], a tree of plain values the rest of the library reads with
//! verified lookups.  Numbers keep only their exact unsigned 64-bit value
//! where they have one — the only numbers this pipeline reads are pixel
//! dimensions.

use vstd::prelude::*;
use vstd::string::StringExecFns;

verus! {

/// The mathematical shape of a parsed JSON value.
pub enum JsonModel {
    Null,
    Bool(bool),
    Num(Option<u64>),
    Str(Seq<char>),
    Arr(Seq<JsonModel>),
    Obj(Seq<(Seq<char>, JsonModel)>),
}

/// A parsed JSON value as plain data.
pub enum JsonNode {
    Null,
    Bool(bool),
    Num(Option<u64>),
    Str(String),
    Arr(Vec<JsonNode>),
    Obj(Vec<(String, JsonNode)>),
}

/// The model of each node in a list, in order.
pub open spec fn model_seq(items: Seq<JsonNode>) -> Seq<JsonModel>
    decreases items,
{
    if items.len() == 0 {
        Seq::empty()
    } else {
        seq![items[0].model()] + model_seq(items.subrange(1, items.len() as int))
    }
}

/// The model of each object entry in a list, in order.
pub open spec fn model_entries(entries: Seq<(String, JsonNode)>) -> Seq<(Seq<char>, JsonModel)>
    decreases entries,
{
    if entries.len() == 0 {
        Seq::empty()
    } else {
        seq![(entries[0].0@, entries[0].1.model())] + model_entries(
            entries.subrange(1, entries.len() as int),
        )
    }
}

impl JsonNode {
    /// The mathematical value of this node.
    pub open spec fn model(self) -> JsonModel
        decreases self,
    {
        match self {
            JsonNode::Null => JsonModel::Null,
            JsonNode::Bool(b) => JsonModel::Bool(b),
            JsonNode::Num(n) => JsonModel::Num(n),
            JsonNode::Str(s) => JsonModel::Str(s@),
            JsonNode::Arr(items) => JsonModel::Arr(model_seq(items@)),
            JsonNode::Obj(entries) => JsonModel::Obj(model_entries(entries@)),
        }
    }
}

impl View for JsonNode {
    type V = JsonModel;

    open spec fn view(&self) -> JsonModel {
        self.model()
    }
}

pub proof fn lemma_model_seq_len(items: Seq<JsonNode>)
    ensures
        model_seq(items).len() == items.len(),
    decreases items,
{
    if items.len() > 0 {
        lemma_model_seq_len(items.subrange(1, items.len() as int));
    }
}

pub proof fn lemma_model_seq_index(items: Seq<JsonNode>, i: int)
    requires
        0 <= i < items.len(),
    ensures
        model_seq(items).len() == items.len(),
        model_seq(items)[i] == items[i].model(),
    decreases items,
{
    lemma_model_seq_len(items);
    if i > 0 {
        lemma_model_seq_index(items.subrange(1, items.len() as int), i - 1);
        assert(items.subrange(1, items.len() as int)[i - 1] == items[i]);
    }
}

pub proof fn lemma_model_entries_len(entries: Seq<(String, JsonNode)>)
    ensures
        model_entries(entries).len() == entries.len(),
    decreases entries,
{
    if entries.len() > 0 {
        lemma_model_entries_len(entries.subrange(1, entries.len() as int));
    }
}

pub proof fn lemma_model_entries_index(entries: Seq<(String, JsonNode)>, i: int)
    requires
        0 <= i < entries.len(),
    ensures
        model_entries(entries).len() == entries.len(),
        model_entries(entries)[i] == (entries[i].0@, entries[i].1.model()),
    decreases entries,
{
    lemma_model_entries_len(entries);
    if i > 0 {
        lemma_model_entries_index(entries.subrange(1, entries.len() as int), i - 1);
        assert(entries.subrange(1, entries.len() as int)[i - 1] == entries[i]);
    }
}

/// The value under `key` in an object's entry list: the first entry with the
/// key, or `Null` where the key is absent.
pub open spec fn member_in(entries: Seq<(Seq<char>, JsonModel)>, key: Seq<char>) -> JsonModel
    decreases entries.len(),
{
    if entries.len() == 0 {
        JsonModel::Null
    } else if entries[0].0 == key {
        entries[0].1
    } else {
        member_in(entries.drop_first(), key)
    }
}

/// The value under `key`: `Null` where the value is no object or lacks the
/// key, mirroring how indexing a parsed JSON value behaves.
pub open spec fn member(m: JsonModel, key: Seq<char>) -> JsonModel {
    match m {
        JsonModel::Obj(entries) => member_in(entries, key),
        _ => JsonModel::Null,
    }
}

proof fn lemma_member_in_skip(entries: Seq<(Seq<char>, JsonModel)>, key: Seq<char>, i: int)
    requires
        0 <= i <= entries.len(),
        forall|m: int| 0 <= m < i ==> (#[trigger] entries[m]).0 != key,
    ensures
        member_in(entries, key) == member_in(entries.skip(i), key),
    decreases i,
{
    if i == 0 {
        assert(entries.skip(0) =~= entries);
    } else {
        assert(entries.len() > 0);
        assert(entries[0].0 != key);
        lemma_member_in_skip(entries.drop_first(), key, i - 1);
        assert(entries.drop_first().skip(i - 1) =~= entries.skip(i));
        assert(forall|m: int|
            0 <= m < i - 1 ==> (#[trigger] entries.drop_first()[m]) == entries[m + 1]);
    }
}

/// Looks up `key` in an object node: the first entry's value, or `None`
/// where the node is no object or lacks the key.
pub fn get_member<'a>(n: &'a JsonNode, key: &str) -> (r: Option<&'a JsonNode>)
    ensures
        match r {
            Some(v) => v@ == member(n@, key@),
            None => member(n@, key@) == JsonModel::Null,
        },
{
    let k = String::from_str(key);
    match n {
        JsonNode::Obj(entries) => {
            let ghost j_entries = model_entries(entries@);
            proof {
                lemma_model_entries_len(entries@);
            }
            let mut i: usize = 0;
            while i < entries.len()
                invariant
                    0 <= i <= entries@.len(),
                    k@ == key@,
                    j_entries == model_entries(entries@),
                    j_entries.len() == entries@.len(),
                    n@ == JsonModel::Obj(j_entries),
                    forall|m: int| 0 <= m < i ==> (#[trigger] j_entries[m]).0 != key@,
                decreases entries@.len() - i,
            {
                proof {
                    lemma_model_entries_index(entries@, i as int);
                }
                if entries[i].0 == k {
                    proof {
                        lemma_member_in_skip(j_entries, key@, i as int);
                        assert(j_entries.skip(i as int)[0] == j_entries[i as int]);
                        assert(member_in(j_entries.skip(i as int), key@) == j_entries[i as int].1);
                    }
                    return Some(&entries[i].1);
                }
                i += 1;
            }
            proof {
                lemma_member_in_skip(j_entries, key@, entries@.len() as int);
                assert(j_entries.skip(entries@.len() as int).len() == 0);
            }
            None
        },
        _ => None,
    }
}

/// The characters of a string node, `None` for any other shape.
pub open spec fn model_str(m: JsonModel) -> Option<Seq<char>> {
    match m {
        JsonModel::Str(s) => Some(s),
        _ => None,
    }
}

/// The exact unsigned 64-bit value of a number node, `None` for any other
/// shape and for numbers without one.
pub open spec fn model_u64(m: JsonModel) -> Option<u64> {
    match m {
        JsonModel::Num(n) => n,
        _ => None,
    }
}

/// The string held by a string node.
pub fn node_str<'a>(n: &'a JsonNode) -> (r: Option<&'a String>)
    ensures
        match r {
            Some(s) => model_str(n@) == Some(s@),
            None => model_str(n@) is None,
        },
{
    match n {
        JsonNode::Str(s) => Some(s),
        _ => None,
    }
}

/// The unsigned 64-bit value held by a number node.
pub fn node_u64(n: &JsonNode) -> (r: Option<u64>)
    ensures
        r == model_u64(n@),
{
    match n {
        JsonNode::Num(v) => *v,
        _ => None,
    }
}

#[verifier::external_type_specification]
#[verifier::external_body]
pub struct ExJsonValue(json::JsonValue);

/// What `json::parse` returns on the given text: `None` where the text is no
/// valid JSON document, the parsed tree otherwise.
pub uninterp spec fn json_parse(s: Seq<char>) -> Option<JsonModel>;

/// Relies on `json::parse`: a deterministic function of its input text that
/// succeeds exactly on valid JSON.  The parsed value is carried over into
/// [`JsonNode`] by [`node_from`], variant for variant.
#[verifier::external_body]
pub fn parse_json(s: &str) -> (r: Option<JsonNode>)
    ensures
        r is Some <==> json_parse(s@) is Some,
        r matches Some(n) ==> n@ == json_parse(s@)->0,
{
    match json::parse(s) {
        Ok(v) => Some(node_from(&v)),
        Err(_) => None,
    }
}

/// Conversion behind [`parse_json`]: maps each `json::JsonValue` variant to
/// the `JsonNode` variant of the same name, moving the fields.  A number
/// keeps its exact `u64` value where `u64::try_from` gives it one.
#[verifier::external_body]
fn node_from(v: &json::JsonValue) -> JsonNode {
    match v {
        json::JsonValue::Null => JsonNode::Null,
        json::JsonValue::Boolean(b) => JsonNode::Bool(*b),
        json::JsonValue::Short(s) => JsonNode::Str(s.as_str().to_string()),
        json::JsonValue::String(s) => JsonNode::Str(s.clone()),
        json::JsonValue::Number(n) => JsonNode::Num(u64::try_from(*n).ok()),
        json::JsonValue::Array(items) => JsonNode::Arr(items.iter().map(node_from).collect()),
        json::JsonValue::Object(o) => JsonNode::Obj(
            o.iter().map(|(k, val)| (k.to_string(), node_from(val))).collect(),
        ),
    }
}

} // verus!
