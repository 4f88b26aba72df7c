//! JSON documents as plain values, and the lenient reader that theme files go through.
use crate::text::same_text;
use serde_json::Value;
use vstd::prelude::*;

verus! {

/// A JSON document. The members of an object keep the order in which they were read.
#[derive(Debug)]
pub enum Json {
    Null,
    Bool(bool),
    /// A number, as its text.
    Number(String),
    Text(String),
    Array(Vec<Json>),
    Object(Vec<(String, Json)>),
}

/// What a JSON document says.
pub ghost enum JsonModel {
    Null,
    Bool(bool),
    Number(Seq<char>),
    Text(Seq<char>),
    Array(Seq<JsonModel>),
    Object(Seq<(Seq<char>, JsonModel)>),
}

impl Json {
    /// What the document says.
    pub open spec fn model(self) -> JsonModel
        decreases self,
    {
        match self {
            Json::Null => JsonModel::Null,
            Json::Bool(b) => JsonModel::Bool(b),
            Json::Number(s) => JsonModel::Number(s@),
            Json::Text(s) => JsonModel::Text(s@),
            Json::Array(v) => JsonModel::Array(
                Seq::new(
                    v@.len(),
                    |i: int|
                        if 0 <= i < v@.len() {
                            v@[i].model()
                        } else {
                            JsonModel::Null
                        },
                ),
            ),
            Json::Object(v) => JsonModel::Object(
                Seq::new(
                    v@.len(),
                    |i: int|
                        if 0 <= i < v@.len() {
                            (v@[i].0@, v@[i].1.model())
                        } else {
                            (Seq::empty(), JsonModel::Null)
                        },
                ),
            ),
        }
    }
}

/// What the items of an array say.
pub open spec fn items_model(v: Seq<Json>) -> Seq<JsonModel> {
    Seq::new(v.len(), |i: int| v[i].model())
}

/// What the members of an object say.
pub open spec fn members_model(v: Seq<(String, Json)>) -> Seq<(Seq<char>, JsonModel)> {
    Seq::new(v.len(), |i: int| (v[i].0@, v[i].1.model()))
}

/// The model of an array, and of an object, is made of the models of its parts.
pub proof fn lemma_model_of_parts(j: Json)
    ensures
        j matches Json::Array(v) ==> j.model() == JsonModel::Array(items_model(v@)),
        j matches Json::Object(v) ==> j.model() == JsonModel::Object(members_model(v@)),
{
    match j {
        Json::Array(v) => {
            assert(j.model()->Array_0 =~= items_model(v@));
        },
        Json::Object(v) => {
            assert(j.model()->Object_0 =~= members_model(v@));
        },
        _ => {},
    }
}

/// The value of the first member named `key`.
pub open spec fn member_named(
    members: Seq<(Seq<char>, JsonModel)>,
    key: Seq<char>,
) -> Option<JsonModel>
    decreases members.len(),
{
    if members.len() == 0 {
        None
    } else if members[0].0 == key {
        Some(members[0].1)
    } else {
        member_named(members.drop_first(), key)
    }
}

impl JsonModel {
    /// The member of an object; anything else has none.
    pub open spec fn get(self, key: Seq<char>) -> Option<JsonModel> {
        match self {
            JsonModel::Object(members) => member_named(members, key),
            _ => None,
        }
    }
}

impl Json {
    /// The member of an object; anything else has none.
    pub fn get(&self, key: &str) -> (r: Option<&Json>)
        ensures
            match r {
                Some(j) => self.model().get(key@) == Some(j.model()),
                None => self.model().get(key@) is None,
            },
    {
        match self {
            Json::Object(members) => {
                let ghost all = members_model(members@);
                proof {
                    lemma_model_of_parts(*self);
                }
                let mut i: usize = 0;
                assert(all.skip(0) =~= all);
                while i < members.len()
                    invariant
                        i <= members@.len(),
                        all == members_model(members@),
                        self.model() == JsonModel::Object(all),
                        member_named(all, key@) == member_named(all.skip(i as int), key@),
                    decreases members@.len() - i,
                {
                    let ghost rest = all.skip(i as int);
                    assert(rest[0] == all[i as int]);
                    if same_text(members[i].0.as_str(), key) {
                        return Some(&members[i].1);
                    }
                    assert(rest.drop_first() =~= all.skip(i + 1));
                    i = i + 1;
                }
                None
            },
            _ => None,
        }
    }
}

// ---------------------------------------------------------------------------------------
// Reading
// ---------------------------------------------------------------------------------------

#[verifier::external_type_specification]
#[verifier::external_body]
pub struct ExValue(serde_json::Value);

/// What a `serde_json::Value` holds.
pub uninterp spec fn value_contents(v: Value) -> JsonModel;

/// What `serde_json_lenient::from_str` reads from a text, or what its error says where it reports
/// one.
pub uninterp spec fn lenient_json(text: Seq<char>) -> Result<JsonModel, Seq<char>>;

/// One layer of a `serde_json::Value`: its variant, with what the variant holds.
enum Layer {
    Null,
    Bool(bool),
    Number(String),
    Text(String),
    Array(Vec<Value>),
    Object(Vec<(String, Value)>),
}

spec fn layer_model(layer: Layer) -> JsonModel {
    match layer {
        Layer::Null => JsonModel::Null,
        Layer::Bool(b) => JsonModel::Bool(b),
        Layer::Number(s) => JsonModel::Number(s@),
        Layer::Text(s) => JsonModel::Text(s@),
        Layer::Array(v) => JsonModel::Array(Seq::new(v@.len(), |i: int| value_contents(v@[i]))),
        Layer::Object(v) => JsonModel::Object(
            Seq::new(v@.len(), |i: int| (v@[i].0@, value_contents(v@[i].1))),
        ),
    }
}

/// Tells the variants of `serde_json::Value` apart and moves out what the variant holds: the
/// items of an array in order, the members of an object in the order of its map, a number
/// as the text that it prints. What the layer holds is what the value holds.
#[verifier::external_body]
fn peel(value: Value) -> (r: Layer)
    ensures
        layer_model(r) == value_contents(value),
{
    match value {
        Value::Null => Layer::Null,
        Value::Bool(b) => Layer::Bool(b),
        Value::Number(n) => Layer::Number(n.to_string()),
        Value::String(s) => Layer::Text(s),
        Value::Array(items) => Layer::Array(items),
        Value::Object(members) => Layer::Object(members.into_iter().collect()),
    }
}

/// Calls `serde_json_lenient::from_str` for a `serde_json::Value`, and takes what the error says
/// where it fails. The result depends on the text alone.
#[verifier::external_body]
fn read_lenient(text: &str) -> (r: Result<Value, String>)
    ensures
        match r {
            Ok(v) => lenient_json(text@) == Ok::<_, Seq<char>>(value_contents(v)),
            Err(cause) => lenient_json(text@) == Err::<JsonModel, _>(cause@),
        },
{
    serde_json_lenient::from_str(text).map_err(|e| e.to_string())
}

/// The document that a value holds.
fn json_of(value: Value) -> (r: Json)
    ensures
        r.model() == value_contents(value),
    decreases value_contents(value),
{
    let layer = peel(value);
    let ghost m = layer_model(layer);
    match layer {
        Layer::Null => Json::Null,
        Layer::Bool(b) => Json::Bool(b),
        Layer::Number(s) => Json::Number(s),
        Layer::Text(s) => Json::Text(s),
        Layer::Array(items) => {
            let mut out: Vec<Json> = Vec::new();
            for item in it: items
                invariant
                    it.seq() == items@,
                    m == value_contents(value),
                    m == JsonModel::Array(Seq::new(items@.len(), |i: int| value_contents(items@[i]))),
                    out@.len() == it.index(),
                    forall|j: int|
                        0 <= j < out@.len() ==> (#[trigger] out@[j]).model() == value_contents(
                            items@[j],
                        ),
            {
                assert(m->Array_0[it.index() as int] == value_contents(item));
                out.push(json_of(item));
            }
            let r = Json::Array(out);
            proof {
                lemma_model_of_parts(r);
                assert(items_model(out@) =~= m->Array_0);
            }
            r
        },
        Layer::Object(members) => {
            let mut out: Vec<(String, Json)> = Vec::new();
            for member in it: members
                invariant
                    it.seq() == members@,
                    m == value_contents(value),
                    m == JsonModel::Object(
                        Seq::new(members@.len(), |i: int| (members@[i].0@, value_contents(members@[i].1))),
                    ),
                    out@.len() == it.index(),
                    forall|j: int|
                        0 <= j < out@.len() ==> (#[trigger] out@[j]).0@ == members@[j].0@ && out@[j].1.model()
                            == value_contents(members@[j].1),
            {
                let (name, inner) = member;
                proof {
                    let entry = m->Object_0[it.index() as int];
                    assert(entry == (name@, value_contents(inner)));
                    assert(decreases_to!(m => m->Object_0));
                    assert(decreases_to!(m->Object_0 => m->Object_0[it.index() as int]));
                    assert(decreases_to!(entry => entry.1));
                }
                out.push((name, json_of(inner)));
            }
            let r = Json::Object(out);
            proof {
                lemma_model_of_parts(r);
                assert(members_model(out@) =~= m->Object_0);
            }
            r
        },
    }
}

/// Reads a JSON text that may hold comments and trailing commas. On failure the error is
/// the reader's own message.
pub fn parse_lenient(text: &str) -> (r: Result<Json, String>)
    ensures
        match r {
            Ok(j) => lenient_json(text@) == Ok::<_, Seq<char>>(j.model()),
            Err(cause) => lenient_json(text@) == Err::<JsonModel, _>(cause@),
        },
{
    match read_lenient(text) {
        Ok(v) => Ok(json_of(v)),
        Err(cause) => Err(cause),
    }
}

} // verus!
