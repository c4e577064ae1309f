//! JSON documents of the walkthrough: the uploaded manifest and the
//! re-printed download. Both texts come from `serde_json`.

use vstd::prelude::*;
use crate::listing::texts;

verus! {

/// A field value of a JSON object: a string or an array of strings.
pub enum JsonField {
    Text(String),
    Texts(Vec<String>),
}

/// The plain value of a field.
pub enum JsonFieldView {
    Text(Seq<char>),
    Texts(Seq<Seq<char>>),
}

impl View for JsonField {
    type V = JsonFieldView;

    open spec fn view(&self) -> JsonFieldView {
        match self {
            JsonField::Text(t) => JsonFieldView::Text(t@),
            JsonField::Texts(ts) => JsonFieldView::Texts(texts(ts@)),
        }
    }
}

/// The plain value of a list of named fields.
pub open spec fn fields_view(fields: Seq<(String, JsonField)>) -> Seq<(Seq<char>, JsonFieldView)> {
    fields.map_values(|f: (String, JsonField)| (f.0@, f.1@))
}

/// The compact JSON text that `serde_json` writes for the object made of
/// these named fields.
pub uninterp spec fn json_object_text(fields: Seq<(Seq<char>, JsonFieldView)>) -> Seq<char>;

/// The compact JSON text that `serde_json` writes for the value it reads
/// from these bytes, or, where it refuses them, the text of its error (the
/// reason, with line and column).
pub uninterp spec fn json_reprint(bytes: Seq<u8>) -> Result<Seq<char>, Seq<char>>;

/// The plain value of a text result.
pub open spec fn text_result(r: Result<String, String>) -> Result<Seq<char>, Seq<char>> {
    match r {
        Ok(t) => Ok(t@),
        Err(m) => Err(m@),
    }
}

/// Builds a `serde_json::Value::Object` from the fields (strings become
/// `Value::String`, lists `Value::Array` of them) and writes it with
/// `Display`. Claimed: the text is a function of the fields alone.
#[verifier::external_body]
fn object_json(fields: &Vec<(String, JsonField)>) -> (r: String)
    ensures
        r@ == json_object_text(fields_view(fields@)),
{
    let map: serde_json::Map<String, serde_json::Value> = fields.iter().map(|(k, v)| (k.clone(), match v {
        JsonField::Text(t) => serde_json::Value::String(t.clone()),
        JsonField::Texts(ts) => serde_json::Value::Array(ts.iter().map(|t| serde_json::Value::String(t.clone())).collect()),
    })).collect();
    serde_json::Value::Object(map).to_string()
}

/// `serde_json::from_slice::<serde_json::Value>`, then `Display` of the
/// value, or `Display` of the `serde_json::Error` where the bytes are
/// refused. Claimed: both texts, and which of them comes, are functions of
/// the bytes alone.
#[verifier::external_body]
fn reprint_json(bytes: &[u8]) -> (r: Result<String, String>)
    ensures
        text_result(r) == json_reprint(bytes@),
{
    serde_json::from_slice::<serde_json::Value>(bytes).map(|v| v.to_string()).map_err(|e| e.to_string())
}

/// A document that is not JSON, with the parser's message.
pub struct JsonError {
    pub message: String,
}

/// Reads a JSON document and writes it back in compact form, as the
/// download walkthrough prints it; a document that is not JSON gives the
/// parser's message.
pub fn render_json(bytes: &[u8]) -> (r: Result<String, JsonError>)
    ensures
        json_reprint(bytes@) == match r {
            Ok(t) => Ok::<Seq<char>, Seq<char>>(t@),
            Err(e) => Err(e.message@),
        },
{
    match reprint_json(bytes) {
        Ok(t) => Ok(t),
        Err(message) => Err(JsonError { message }),
    }
}

fn copy_texts(v: &Vec<String>) -> (r: Vec<String>)
    ensures
        texts(r@) == texts(v@),
{
    let mut r: Vec<String> = Vec::new();
    let mut i: usize = 0;
    while i < v.len()
        invariant
            i <= v.len(),
            r.len() == i,
            texts(r@) == texts(v@.take(i as int)),
        decreases v.len() - i,
    {
        let ghost before = r@;
        let c = v[i].clone();
        r.push(c);
        assert(r@.drop_last() =~= before);
        proof {
            assert(texts(r@) =~= texts(v@.take(i + 1))) by {
                assert forall|j: int| 0 <= j < i + 1 implies texts(r@)[j] == texts(v@.take(i + 1))[j] by {
                    if j < i {
                        assert(texts(r@.drop_last())[j] == texts(v@.take(i as int))[j]);
                        assert(r@.drop_last()[j] == r@[j]);
                    }
                }
            }
        }
        i = i + 1;
    }
    assert(v@.take(i as int) =~= v@);
    r
}

/// The fields of the upload manifest, in the order the walkthrough names them.
pub open spec fn manifest_fields(name: Seq<char>, version: Seq<char>, features: Seq<Seq<char>>, timestamp: Seq<char>) -> Seq<(Seq<char>, JsonFieldView)> {
    seq![
        ("name"@, JsonFieldView::Text(name)),
        ("version"@, JsonFieldView::Text(version)),
        ("features"@, JsonFieldView::Texts(features)),
        ("timestamp"@, JsonFieldView::Text(timestamp)),
    ]
}

/// The JSON manifest the upload walkthrough stores: an object with the
/// name, version, feature list and timestamp.
pub fn manifest_json(name: &str, version: &str, features: &Vec<String>, timestamp: &str) -> (r: String)
    ensures
        r@ == json_object_text(manifest_fields(name@, version@, texts(features@), timestamp@)),
{
    let mut fields: Vec<(String, JsonField)> = Vec::new();
    fields.push((String::from_str("name"), JsonField::Text(String::from_str(name))));
    fields.push((String::from_str("version"), JsonField::Text(String::from_str(version))));
    fields.push((String::from_str("features"), JsonField::Texts(copy_texts(features))));
    fields.push((String::from_str("timestamp"), JsonField::Text(String::from_str(timestamp))));
    assert(fields_view(fields@) =~= manifest_fields(name@, version@, texts(features@), timestamp@));
    object_json(&fields)
}

} // verus!
