//! The JSON document model that every format is parsed into and emitted from.
use crate::codecs::{
    serde_array, serde_bool, serde_node, serde_null, serde_number, serde_object, serde_string,
    serde_tree, SerdeNode,
};
use vstd::prelude::*;

verus! {

/// The mathematical model of a JSON document.
///
/// Objects are sequences of key/value pairs in insertion order; numbers are
/// carried as the `serde_json::Number` they were built from.
pub enum Json {
    Null,
    Bool(bool),
    Number(serde_json::Number),
    Str(Seq<char>),
    Array(Seq<Json>),
    Object(Seq<(Seq<char>, Json)>),
}

/// A JSON document held by the library.
///
/// Objects keep their members in insertion order, and (as in a JSON map) a
/// key occurs at most once in an object: see [`wf_json`].
#[derive(Debug, PartialEq)]
pub enum JsonValue {
    Null,
    Bool(bool),
    Number(serde_json::Number),
    String(String),
    Array(Vec<JsonValue>),
    Object(Vec<(String, JsonValue)>),
}

impl View for JsonValue {
    type V = Json;

    open spec fn view(&self) -> Json
        decreases self,
    {
        match self {
            JsonValue::Null => Json::Null,
            JsonValue::Bool(b) => Json::Bool(*b),
            JsonValue::Number(n) => Json::Number(*n),
            JsonValue::String(s) => Json::Str(s@),
            JsonValue::Array(items) => Json::Array(
                Seq::new(
                    items@.len(),
                    |i: int|
                        if 0 <= i < items@.len() {
                            items@[i].view()
                        } else {
                            Json::Null
                        },
                ),
            ),
            JsonValue::Object(members) => Json::Object(
                Seq::new(
                    members@.len(),
                    |i: int|
                        if 0 <= i < members@.len() {
                            member_model(members@[i])
                        } else {
                            (Seq::<char>::empty(), Json::Null)
                        },
                ),
            ),
        }
    }
}

/// The model of one member of an object.
pub open spec fn member_model(m: (String, JsonValue)) -> (Seq<char>, Json)
    decreases m,
{
    (m.0@, m.1.view())
}

/// The keys of an object's members, in order.
pub open spec fn member_keys(members: Seq<(Seq<char>, Json)>) -> Seq<Seq<char>> {
    members.map_values(|m: (Seq<char>, Json)| m.0)
}

/// No key occurs twice among the members.
pub open spec fn distinct_keys(members: Seq<(Seq<char>, Json)>) -> bool {
    forall|i: int, j: int|
        0 <= i < members.len() && 0 <= j < members.len() && i != j ==> #[trigger] members[i].0
            != #[trigger] members[j].0
}

/// Every object in the document has distinct keys: the invariant that a JSON
/// map has by construction.
pub open spec fn wf_json(j: Json) -> bool
    decreases j,
{
    match j {
        Json::Array(items) => forall|i: int| 0 <= i < items.len() ==> wf_json(#[trigger] items[i]),
        Json::Object(members) => distinct_keys(members) && forall|i: int|
            0 <= i < members.len() ==> wf_json(#[trigger] members[i].1),
        _ => true,
    }
}

/// An array or an object.
pub open spec fn is_container(j: Json) -> bool {
    j is Array || j is Object
}

pub proof fn lemma_array_view(items: Vec<JsonValue>, kids: Seq<Json>)
    requires
        items@.len() == kids.len(),
        forall|k: int| 0 <= k < kids.len() ==> #[trigger] items@[k]@ == kids[k],
    ensures
        JsonValue::Array(items)@ == Json::Array(kids),
{
    let j = JsonValue::Array(items)@;
    assert forall|k: int| 0 <= k < kids.len() implies j->Array_0[k] == kids[k] by {
        assert(items@[k]@ == kids[k]);
    }
    assert(j->Array_0 =~= kids);
}

pub proof fn lemma_object_view(members: Vec<(String, JsonValue)>, kids: Seq<(Seq<char>, Json)>)
    requires
        members@.len() == kids.len(),
        forall|k: int|
            #![trigger members@[k]]
            0 <= k < kids.len() ==> members@[k].0@ == kids[k].0 && members@[k].1@ == kids[k].1,
    ensures
        JsonValue::Object(members)@ == Json::Object(kids),
{
    let j = JsonValue::Object(members)@;
    assert forall|k: int| 0 <= k < kids.len() implies j->Object_0[k] == kids[k] by {
        assert(members@[k].0@ == kids[k].0 && members@[k].1@ == kids[k].1);
        assert(member_model(members@[k]) == (members@[k].0@, members@[k].1@));
    }
    assert(j->Object_0 =~= kids);
}

pub proof fn lemma_array_view_index(items: Vec<JsonValue>)
    ensures
        JsonValue::Array(items)@ is Array,
        JsonValue::Array(items)@->Array_0.len() == items@.len(),
        forall|k: int|
            0 <= k < items@.len() ==> #[trigger] JsonValue::Array(items)@->Array_0[k] == items@[k]@,
{
}

pub proof fn lemma_object_view_index(members: Vec<(String, JsonValue)>)
    ensures
        JsonValue::Object(members)@ is Object,
        JsonValue::Object(members)@->Object_0.len() == members@.len(),
        forall|k: int|
            #![trigger members@[k]]
            0 <= k < members@.len() ==> JsonValue::Object(members)@->Object_0[k] == (
                members@[k].0@,
                members@[k].1@,
            ),
{
    assert forall|k: int|
        #![trigger members@[k]]
        0 <= k < members@.len() implies JsonValue::Object(members)@->Object_0[k] == (
        members@[k].0@,
        members@[k].1@,
    ) by {
        assert(member_model(members@[k]) == (members@[k].0@, members@[k].1@));
    }
}

/// The models of a sequence of documents.
pub open spec fn items_model(items: Seq<JsonValue>) -> Seq<Json> {
    Seq::new(items.len(), |k: int| items[k]@)
}

/// The models of an object's members.
pub open spec fn members_model(members: Seq<(String, JsonValue)>) -> Seq<(Seq<char>, Json)> {
    Seq::new(members.len(), |k: int| (members[k].0@, members[k].1@))
}

/// An array's model holds its items' models.
pub proof fn lemma_array_model(items: Vec<JsonValue>)
    ensures
        JsonValue::Array(items)@ == Json::Array(items_model(items@)),
{
    lemma_array_view(items, items_model(items@));
}

/// An object's model holds its members' models.
pub proof fn lemma_object_model(members: Vec<(String, JsonValue)>)
    ensures
        JsonValue::Object(members)@ == Json::Object(members_model(members@)),
{
    lemma_object_view(members, members_model(members@));
}

/// Reads a `serde_json::Value` into the library's document type.
pub fn from_serde(v: &serde_json::Value) -> (r: JsonValue)
    ensures
        r@ == serde_tree(*v),
        wf_json(r@),
    decreases serde_tree(*v),
{
    let node = serde_node(v);
    match node {
        SerdeNode::Null => JsonValue::Null,
        SerdeNode::Bool(b) => JsonValue::Bool(b),
        SerdeNode::Number(n) => JsonValue::Number(n.clone()),
        SerdeNode::Str(s) => JsonValue::String(s.clone()),
        SerdeNode::Array(items) => {
            let ghost kids = items@.map_values(|x: serde_json::Value| serde_tree(x));
            let mut out: Vec<JsonValue> = Vec::new();
            let mut i: usize = 0;
            while i < items.len()
                invariant
                    i <= items@.len(),
                    kids == items@.map_values(|x: serde_json::Value| serde_tree(x)),
                    serde_tree(*v) == Json::Array(kids),
                    out@.len() == i,
                    forall|k: int| 0 <= k < i ==> #[trigger] out@[k]@ == kids[k],
                    forall|k: int| 0 <= k < i ==> wf_json(#[trigger] out@[k]@),
                decreases items@.len() - i,
            {
                proof {
                    let whole = serde_tree(*v);
                    assert(decreases_to!(whole => whole->Array_0));
                    assert(decreases_to!(kids => kids[i as int]));
                }
                let x = from_serde(&items[i]);
                out.push(x);
                i = i + 1;
            }
            proof {
                lemma_array_view(out, kids);
                assert forall|k: int| 0 <= k < kids.len() implies wf_json(#[trigger] kids[k]) by {
                    assert(out@[k]@ == kids[k]);
                }
            }
            JsonValue::Array(out)
        },
        SerdeNode::Object(members) => {
            let ghost kids = members@.map_values(
                |m: (&String, &serde_json::Value)| (m.0@, serde_tree(*m.1)),
            );
            let mut out: Vec<(String, JsonValue)> = Vec::new();
            let mut i: usize = 0;
            while i < members.len()
                invariant
                    i <= members@.len(),
                    kids == members@.map_values(
                        |m: (&String, &serde_json::Value)| (m.0@, serde_tree(*m.1)),
                    ),
                    serde_tree(*v) == Json::Object(kids),
                    distinct_keys(kids),
                    out@.len() == i,
                    forall|k: int|
                        #![trigger out@[k]]
                        0 <= k < i ==> out@[k].0@ == kids[k].0 && out@[k].1@ == kids[k].1,
                    forall|k: int| #![trigger out@[k]] 0 <= k < i ==> wf_json(out@[k].1@),
                decreases members@.len() - i,
            {
                proof {
                    let whole = serde_tree(*v);
                    assert(decreases_to!(whole => whole->Object_0));
                    assert(decreases_to!(kids => kids[i as int]));
                    assert(decreases_to!(kids[i as int] => kids[i as int].1));
                }
                let key = members[i].0.clone();
                let x = from_serde(members[i].1);
                out.push((key, x));
                i = i + 1;
            }
            proof {
                lemma_object_view(out, kids);
                assert forall|k: int| 0 <= k < kids.len() implies wf_json(#[trigger] kids[k].1) by {
                    assert(out@[k].1@ == kids[k].1);
                }
            }
            JsonValue::Object(out)
        },
    }
}

/// Writes a document of the library into a `serde_json::Value`.
pub fn to_serde(v: &JsonValue) -> (r: serde_json::Value)
    requires
        wf_json(v@),
    ensures
        serde_tree(r) == v@,
    decreases v@,
{
    match v {
        JsonValue::Null => serde_null(),
        JsonValue::Bool(b) => serde_bool(*b),
        JsonValue::Number(n) => serde_number(n.clone()),
        JsonValue::String(s) => serde_string(s.clone()),
        JsonValue::Array(items) => {
            proof {
                lemma_array_view_index(*items);
            }
            let mut out: Vec<serde_json::Value> = Vec::new();
            let mut i: usize = 0;
            while i < items.len()
                invariant
                    i <= items@.len(),
                    wf_json(v@),
                    v@ is Array,
                    v@->Array_0.len() == items@.len(),
                    forall|k: int| 0 <= k < items@.len() ==> #[trigger] v@->Array_0[k] == items@[k]@,
                    out@.len() == i,
                    forall|k: int| 0 <= k < i ==> #[trigger] serde_tree(out@[k]) == items@[k]@,
                decreases items@.len() - i,
            {
                proof {
                    let whole = v@;
                    assert(decreases_to!(whole => whole->Array_0));
                    assert(decreases_to!(whole->Array_0 => whole->Array_0[i as int]));
                    assert(v@->Array_0[i as int] == items@[i as int]@);
                    assert(wf_json(v@->Array_0[i as int]));
                }
                let x = to_serde(&items[i]);
                out.push(x);
                i = i + 1;
            }
            proof {
                assert(out@.map_values(|x: serde_json::Value| serde_tree(x)) =~= v@->Array_0);
            }
            serde_array(out)
        },
        JsonValue::Object(members) => {
            proof {
                lemma_object_view_index(*members);
            }
            let mut out: Vec<(String, serde_json::Value)> = Vec::new();
            let mut i: usize = 0;
            while i < members.len()
                invariant
                    i <= members@.len(),
                    wf_json(v@),
                    v@ is Object,
                    v@->Object_0.len() == members@.len(),
                    forall|k: int|
                        #![trigger members@[k]]
                        0 <= k < members@.len() ==> v@->Object_0[k] == (members@[k].0@, members@[k].1@),
                    out@.len() == i,
                    forall|k: int|
                        #![trigger out@[k]]
                        0 <= k < i ==> out@[k].0@ == members@[k].0@ && serde_tree(out@[k].1)
                            == members@[k].1@,
                decreases members@.len() - i,
            {
                proof {
                    let whole = v@;
                    assert(decreases_to!(whole => whole->Object_0));
                    assert(decreases_to!(whole->Object_0 => whole->Object_0[i as int]));
                    assert(decreases_to!(whole->Object_0[i as int] => whole->Object_0[i as int].1));
                    assert(v@->Object_0[i as int].1 == members@[i as int].1@);
                    assert(wf_json(v@->Object_0[i as int].1));
                }
                let member = &members[i];
                let key = member.0.clone();
                let x = to_serde(&member.1);
                out.push((key, x));
                i = i + 1;
            }
            proof {
                assert(out@.map_values(
                    |m: (String, serde_json::Value)| (m.0@, serde_tree(m.1)),
                ) =~= v@->Object_0);
            }
            serde_object(out)
        },
    }
}

} // verus!
