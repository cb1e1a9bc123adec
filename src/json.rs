use vstd::prelude::*;

verus! {

/// The library's own JSON value. A finite float is carried as its IEEE-754
/// bit pattern, so that no floating-point arithmetic is needed to decide
/// anything about it; it is written out as a number where the value is rendered.
#[derive(Debug, PartialEq)]
pub enum Json {
    Null,
    Bool(bool),
    Int(i64),
    UInt(u64),
    Float32(u32),
    Float64(u64),
    Str(String),
    Array(Vec<Json>),
    Object(Vec<(String, Json)>),
}

/// Mathematical model of a JSON value.
pub ghost enum JsonModel {
    Null,
    Bool(bool),
    Int(int),
    UInt(int),
    Float32(u32),
    Float64(u64),
    Str(Seq<char>),
    Array(Seq<JsonModel>),
    Object(Seq<(Seq<char>, JsonModel)>),
}

impl View for Json {
    type V = JsonModel;

    open spec fn view(&self) -> JsonModel {
        json_model(self)
    }
}

/// The model of a JSON value.
pub open spec fn json_model(j: &Json) -> JsonModel
    decreases j,
{
        match j {
            Json::Null => JsonModel::Null,
            Json::Bool(b) => JsonModel::Bool(*b),
            Json::Int(i) => JsonModel::Int(*i as int),
            Json::UInt(u) => JsonModel::UInt(*u as int),
            Json::Float32(bits) => JsonModel::Float32(*bits),
            Json::Float64(bits) => JsonModel::Float64(*bits),
            Json::Str(s) => JsonModel::Str(s@),
            Json::Array(items) => JsonModel::Array(
                Seq::new(items@.len(), |i: int| if 0 <= i < items@.len() { json_model(&items@[i]) } else { JsonModel::Null }),
            ),
            Json::Object(entries) => JsonModel::Object(
                Seq::new(entries@.len(), |i: int|
                    if 0 <= i < entries@.len() {
                        (entries@[i].0@, json_model(&entries@[i].1))
                    } else {
                        (Seq::<char>::empty(), JsonModel::Null)
                    },
                ),
            ),
        }
}

/// The model of a list of object entries.
pub open spec fn entries_view(v: Seq<(String, Json)>) -> Seq<(Seq<char>, JsonModel)> {
    v.map_values(|e: (String, Json)| (e.0@, e.1@))
}

/// Builds an object from its entries, in order.
pub fn object_from(entries: Vec<(String, Json)>) -> (r: Json)
    ensures
        r@ == JsonModel::Object(entries_view(entries@)),
{
    let ghost es = entries;
    let r = Json::Object(entries);
    proof {
        assert(r@->Object_0 =~= entries_view(es@));
    }
    r
}

} // verus!
