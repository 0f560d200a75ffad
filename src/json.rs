use vstd::prelude::*;

verus! {

/// A JSON document as a tree. Numbers keep their text; an object keeps its members in order.
#[derive(Debug)]
pub enum Json {
    Null,
    Bool(bool),
    Number(String),
    Str(String),
    Array(Vec<Json>),
    Object(Vec<(String, Json)>),
}

/// The value a JSON tree stands for.
pub enum JsonView {
    Null,
    Bool(bool),
    Number(Seq<char>),
    Str(Seq<char>),
    Array(Seq<JsonView>),
    Object(Seq<(Seq<char>, JsonView)>),
}

pub open spec fn json_view(j: Json) -> JsonView
    decreases j,
{
    match j {
        Json::Null => JsonView::Null,
        Json::Bool(b) => JsonView::Bool(b),
        Json::Number(n) => JsonView::Number(n@),
        Json::Str(s) => JsonView::Str(s@),
        Json::Array(v) => JsonView::Array(
            Seq::new(
                v.len() as nat,
                |i: int|
                    if 0 <= i < v.len() {
                        json_view(v[i])
                    } else {
                        JsonView::Null
                    },
            ),
        ),
        Json::Object(v) => JsonView::Object(
            Seq::new(
                v.len() as nat,
                |i: int|
                    if 0 <= i < v.len() {
                        (v[i].0@, json_view(v[i].1))
                    } else {
                        (Seq::<char>::empty(), JsonView::Null)
                    },
            ),
        ),
    }
}

impl View for Json {
    type V = JsonView;

    open spec fn view(&self) -> JsonView {
        json_view(*self)
    }
}

pub open spec fn option_json_view(r: Option<Json>) -> Option<JsonView> {
    match r {
        Some(j) => Some(j@),
        None => None,
    }
}

#[verifier::external_type_specification]
#[verifier::external_body]
pub struct ExValue(serde_json::Value);

/// The tree that `serde_json::from_str` reads from a text, if the text is one JSON document.
pub uninterp spec fn json_of(text: Seq<char>) -> Option<JsonView>;

/// Relies on `serde_json::from_str` into a `serde_json::Value`: parses one JSON
/// document, or fails on text that is not one.
#[verifier::external_body]
pub(crate) fn parse_json(text: &str) -> (r: Option<Json>)
    ensures
        option_json_view(r) == json_of(text@),
{
    serde_json::from_str::<serde_json::Value>(text).ok().map(|v| json_from_value(&v))
}

/// Turns a `serde_json::Value` into the library's tree, one variant for each of
/// its variants; part of the conversion that `parse_json` makes.
#[verifier::external_body]
fn json_from_value(v: &serde_json::Value) -> Json {
    match v {
        serde_json::Value::Null => Json::Null,
        serde_json::Value::Bool(b) => Json::Bool(*b),
        serde_json::Value::Number(n) => Json::Number(n.to_string()),
        serde_json::Value::String(s) => Json::Str(s.clone()),
        serde_json::Value::Array(a) => Json::Array(a.iter().map(json_from_value).collect()),
        serde_json::Value::Object(m) => Json::Object(
            m.iter().map(|(k, x)| (k.clone(), json_from_value(x))).collect(),
        ),
    }
}

/// The value of the last member named `key`, if any.
pub open spec fn member(fields: Seq<(Seq<char>, JsonView)>, key: Seq<char>) -> Option<JsonView>
    decreases fields.len(),
{
    if fields.len() == 0 {
        None
    } else if fields.last().0 == key {
        Some(fields.last().1)
    } else {
        member(fields.drop_last(), key)
    }
}

/// Looks up a member of an object's fields by name; the last one wins.
pub fn find_member<'a>(fields: &'a Vec<(String, Json)>, key: &str) -> (r: Option<&'a Json>)
    ensures
        match r {
            Some(j) => member(
                fields@.map_values(|f: (String, Json)| (f.0@, f.1@)),
                key@,
            ) == Some(j@),
            None => member(fields@.map_values(|f: (String, Json)| (f.0@, f.1@)), key@) is None,
        },
{
    let ghost fs = fields@.map_values(|f: (String, Json)| (f.0@, f.1@));
    let k = key.to_owned();
    let mut i: usize = fields.len();
    proof {
        assert(fs.take(i as int) =~= fs);
    }
    while i > 0
        invariant
            0 <= i <= fields@.len(),
            fs == fields@.map_values(|f: (String, Json)| (f.0@, f.1@)),
            k@ == key@,
            member(fs, key@) == member(fs.take(i as int), key@),
        decreases i,
    {
        proof {
            assert(fs.take(i as int).drop_last() =~= fs.take(i as int - 1));
        }
        if fields[i - 1].0 == k {
            return Some(&fields[i - 1].1);
        }
        i = i - 1;
    }
    None
}

} // verus!
