use vstd::prelude::*;

verus! {

/// A scalar JSON value: a string or an unsigned number.
pub enum JsonValue {
    Text(String),
    Number(u64),
}

/// What a `JsonValue` stands for.
pub ghost enum JsonLeaf {
    Text(Seq<char>),
    Number(u64),
}

impl View for JsonValue {
    type V = JsonLeaf;

    open spec fn view(&self) -> JsonLeaf {
        match self {
            JsonValue::Text(s) => JsonLeaf::Text(s@),
            JsonValue::Number(n) => JsonLeaf::Number(*n),
        }
    }
}

/// The fields of a JSON object, by view.
pub open spec fn fields_view(f: Seq<(String, JsonValue)>) -> Seq<(Seq<char>, JsonLeaf)> {
    f.map_values(|p: (String, JsonValue)| (p.0@, p.1@))
}

/// The text that `serde_json::to_string_pretty` gives for the JSON object
/// with these fields (or the empty string should it fail).
pub uninterp spec fn spec_json_pretty(fields: Seq<(Seq<char>, JsonLeaf)>) -> Seq<char>;

/// Renders a flat JSON object with `serde_json::to_string_pretty`; the
/// contract names the result as a function of the fields alone.
#[verifier::external_body]
pub(crate) fn json_pretty(fields: &Vec<(String, JsonValue)>) -> (r: String)
    ensures
        r@ == spec_json_pretty(fields_view(fields@)),
{
    let map: serde_json::Map<String, serde_json::Value> = fields.iter().map(|(k, v)| match v {
        JsonValue::Text(s) => (k.clone(), serde_json::Value::from(s.as_str())),
        JsonValue::Number(n) => (k.clone(), serde_json::Value::from(*n)),
    }).collect();
    serde_json::to_string_pretty(&serde_json::Value::Object(map)).unwrap_or_default()
}

} // verus!
