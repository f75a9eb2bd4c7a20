//! A plain model of JSON values, and the trusted boundary to `serde_json`.
//!
//! The decoder and the scanner never look inside a `serde_json::Value`:
//! [`json_of_value`] converts one, variant by variant, into the library's own
//! [`Json`] enum, and everything that reads the structure afterwards is
//! verified against that plain data.

use vstd::prelude::*;

verus! {

#[verifier::external_type_specification]
#[verifier::external_body]
pub struct ExJsonValue(serde_json::Value);

#[verifier::external_type_specification]
#[verifier::external_body]
pub struct ExJsonError(serde_json::Error);

/// A JSON value as plain data: every variant of `serde_json::Value`, with
/// numbers narrowed to what the notebook model reads (unsigned integers;
/// any other number is only remembered as being one).
#[derive(Debug)]
pub enum Json {
    Null,
    Bool(bool),
    /// A number representable as an unsigned 64-bit integer.
    UInt(u64),
    /// A number that is not so representable (negative or fractional).
    NumOther,
    Str(String),
    Arr(Vec<Json>),
    /// An object's fields, in the order `serde_json`'s map iterates them
    /// (duplicate keys are already collapsed by the parser).
    Obj(Vec<(String, Json)>),
}

/// The [`Json`] value that `text` parses to, or nothing when `text` is not
/// valid JSON. The result of `serde_json::from_str::<serde_json::Value>`
/// followed by the variant-by-variant conversion below: a function of the
/// text alone, since the parser's verdict is deterministic and its map
/// collapses duplicate keys and orders fields deterministically.
pub uninterp spec fn parsed_json(text: Seq<char>) -> Option<Json>;

/// Relies on `serde_json::from_str::<serde_json::Value>`: parses UTF-8 text
/// into a JSON value — the value named by `parsed_json` — or reports a
/// syntax error exactly when the text is not valid JSON.
#[verifier::external_body]
pub(crate) fn parse_json_text(s: &str) -> (r: Result<Json, serde_json::Error>)
    ensures
        r matches Ok(j) ==> parsed_json(s@) == Some(j),
        r is Err <==> parsed_json(s@) is None,
{
    match serde_json::from_str::<serde_json::Value>(s) {
        Ok(v) => Ok(json_of_value(&v)),
        Err(e) => Err(e),
    }
}

/// Relies on the `Display` impl of `serde_json::Error` for the description
/// of a parse error.
#[verifier::external_body]
pub(crate) fn json_error_message(e: &serde_json::Error) -> String {
    e.to_string()
}

/// Relies on the variants of `serde_json::Value` (and on
/// `serde_json::Number::as_u64`): converts each variant of the parsed value,
/// one arm each, into the library's own [`Json`]. Only `parse_json_text`
/// calls it, so what it returns is covered by `parsed_json`.
#[verifier::external_body]
fn json_of_value(v: &serde_json::Value) -> Json {
    match v {
        serde_json::Value::Null => Json::Null,
        serde_json::Value::Bool(b) => Json::Bool(*b),
        serde_json::Value::Number(n) => match n.as_u64() {
            Some(u) => Json::UInt(u),
            None => Json::NumOther,
        },
        serde_json::Value::String(s) => Json::Str(s.clone()),
        serde_json::Value::Array(a) => Json::Arr(a.iter().map(json_of_value).collect()),
        serde_json::Value::Object(o) => Json::Obj(
            o.iter().map(|(k, x)| (k.clone(), json_of_value(x))).collect(),
        ),
    }
}

/// Look a key up among an object's fields: the value of the first field with
/// that key, if any.
pub open spec fn obj_get_spec(fields: Seq<(String, Json)>, key: Seq<char>) -> Option<Json>
    decreases fields.len(),
{
    if fields.len() == 0 {
        None
    } else if fields[0].0@ == key {
        Some(fields[0].1)
    } else {
        obj_get_spec(fields.drop_first(), key)
    }
}

/// An object's fields after taking `key` out: the first field with that key
/// is removed, everything else keeps its place.
pub open spec fn remainder_spec(fields: Seq<(String, Json)>, key: Seq<char>) -> Seq<(String, Json)>
    decreases fields.len(),
{
    if fields.len() == 0 {
        fields
    } else if fields[0].0@ == key {
        fields.drop_first()
    } else {
        seq![fields[0]] + remainder_spec(fields.drop_first(), key)
    }
}

/// At the first index holding `key`, looking the key up yields that field's
/// value and taking it out removes exactly that field.
proof fn lemma_extract_at(fields: Seq<(String, Json)>, key: Seq<char>, i: int)
    requires
        0 <= i < fields.len(),
        fields[i].0@ == key,
        forall|k: int| 0 <= k < i ==> (#[trigger] fields[k]).0@ != key,
    ensures
        obj_get_spec(fields, key) == Some(fields[i].1),
        remainder_spec(fields, key) == fields.remove(i),
    decreases i,
{
    if i == 0 {
        assert(fields.drop_first() =~= fields.remove(0));
    } else {
        assert(fields.drop_first()[i - 1] == fields[i]);
        assert(forall|k: int|
            0 <= k < i - 1 ==> (#[trigger] fields.drop_first()[k]).0@ != key) by {
            assert(forall|k: int|
                0 <= k < i - 1 ==> fields.drop_first()[k] == fields[k + 1]);
        }
        lemma_extract_at(fields.drop_first(), key, i - 1);
        assert(seq![fields[0]] + fields.drop_first().remove(i - 1) =~= fields.remove(i));
    }
}

/// When no field holds `key`, looking it up yields nothing and taking it out
/// changes nothing.
proof fn lemma_extract_none(fields: Seq<(String, Json)>, key: Seq<char>)
    requires
        forall|k: int| 0 <= k < fields.len() ==> (#[trigger] fields[k]).0@ != key,
    ensures
        obj_get_spec(fields, key) is None,
        remainder_spec(fields, key) == fields,
    decreases fields.len(),
{
    if fields.len() > 0 {
        assert(forall|k: int|
            0 <= k < fields.drop_first().len() ==> (#[trigger] fields.drop_first()[k]).0@
                != key) by {
            assert(forall|k: int|
                0 <= k < fields.drop_first().len() ==> fields.drop_first()[k] == fields[k + 1]);
        }
        lemma_extract_none(fields.drop_first(), key);
        assert(seq![fields[0]] + fields.drop_first() =~= fields);
    }
}

/// Take `key` out of an object's fields: the value of the first field with
/// that key (if any), and the fields that remain, in their order.
pub fn obj_extract(fields: Vec<(String, Json)>, key: &str) -> (r: (
    Option<Json>,
    Vec<(String, Json)>,
))
    ensures
        r.0 == obj_get_spec(fields@, key@),
        r.1@ == remainder_spec(fields@, key@),
{
    let mut i: usize = 0;
    while i < fields.len()
        invariant
            0 <= i <= fields@.len(),
            forall|k: int| 0 <= k < i ==> (#[trigger] fields@[k]).0@ != key@,
        decreases fields@.len() - i,
    {
        if crate::strutil::str_eq(fields[i].0.as_str(), key) {
            proof {
                lemma_extract_at(fields@, key@, i as int);
            }
            let mut fields = fields;
            let (_, v) = fields.remove(i);
            return (Some(v), fields);
        }
        i += 1;
    }
    proof {
        lemma_extract_none(fields@, key@);
    }
    (None, fields)
}

/// Whether a value is a JSON string.
pub open spec fn json_is_str(j: Json) -> bool {
    match j {
        Json::Str(_) => true,
        _ => false,
    }
}

/// The characters of a JSON string (empty for any other value).
pub open spec fn json_str(j: Json) -> Seq<char> {
    match j {
        Json::Str(s) => s@,
        _ => Seq::empty(),
    }
}

/// The line sequence a value decodes to, when it is an array whose elements
/// are all strings.
pub open spec fn string_lines_spec(j: Json) -> Option<Seq<Seq<char>>> {
    match j {
        Json::Arr(v) => if forall|i: int| 0 <= i < v@.len() ==> json_is_str(#[trigger] v@[i]) {
            Some(v@.map_values(|e: Json| json_str(e)))
        } else {
            None
        },
        _ => None,
    }
}

/// Why a payload did not have the shape its MIME type demands.
#[derive(Clone, Copy, Debug)]
pub enum ShapeError {
    /// A text-typed payload was not an array.
    TextNotArray,
    /// A text-typed payload's array held a non-string element.
    TextElemNotString,
    /// A non-text payload was not a single string.
    NontextNotString,
}

impl ShapeError {
    /// The error text, as it is reported to the user.
    pub fn message(&self) -> (r: String)
        ensures
            self is TextNotArray ==> r@ == "Expected an array for output text values."@,
            self is TextElemNotString ==> r@
                == "Expected a string for all elements of output text value"@,
            self is NontextNotString ==> r@ == "Unexpected type for nontext data"@,
    {
        match self {
            ShapeError::TextNotArray => "Expected an array for output text values.".to_owned(),
            ShapeError::TextElemNotString => "Expected a string for all elements of output text value".to_owned(),
            ShapeError::NontextNotString => "Unexpected type for nontext data".to_owned(),
        }
    }
}

/// What decoding a text-typed payload returns: its lines, or the exact shape
/// error.
pub open spec fn text_data_spec(j: Json) -> Result<Seq<Seq<char>>, ShapeError> {
    match string_lines_spec(j) {
        Some(lines) => Ok(lines),
        None => Err(
            match j {
                Json::Arr(_) => ShapeError::TextElemNotString,
                _ => ShapeError::TextNotArray,
            },
        ),
    }
}

/// Decode a text-typed payload: an array of strings becomes the line list,
/// anything else is the exact shape error `text_data_spec` gives.
#[verifier::loop_isolation(false)]
pub fn convert_output_text_data(val: &Json) -> (r: Result<Vec<String>, ShapeError>)
    ensures
        text_data_spec(*val) matches Ok(lines) ==> (r matches Ok(v) && v@.map_values(
            |s: String| s@,
        ) == lines),
        text_data_spec(*val) matches Err(e) ==> r == Err::<Vec<String>, ShapeError>(e),
{
    match val {
        Json::Arr(arr) => {
            let mut text_lines: Vec<String> = Vec::with_capacity(arr.len());
            let mut i: usize = 0;
            while i < arr.len()
                invariant
                    0 <= i <= arr@.len(),
                    text_lines@.len() == i,
                    forall|k: int| 0 <= k < i ==> json_is_str(#[trigger] arr@[k]),
                    forall|k: int| 0 <= k < i ==> (#[trigger] text_lines@[k])@ == json_str(arr@[k]),
                decreases arr@.len() - i,
            {
                match &arr[i] {
                    Json::Str(s) => {
                        text_lines.push(s.clone());
                    },
                    _ => {
                        proof {
                            assert(!json_is_str(arr@[i as int]));
                        }
                        return Err(ShapeError::TextElemNotString);
                    },
                }
                i += 1;
            }
            proof {
                assert(text_lines@.map_values(|s: String| s@) =~= arr@.map_values(
                    |e: Json| json_str(e),
                ));
            }
            Ok(text_lines)
        },
        _ => Err(ShapeError::TextNotArray),
    }
}

/// What decoding a non-text payload returns: its single string, or the shape
/// error.
pub open spec fn nontext_data_spec(j: Json) -> Result<Seq<char>, ShapeError> {
    match j {
        Json::Str(s) => Ok(s@),
        _ => Err(ShapeError::NontextNotString),
    }
}

/// Decode a non-text payload: a single string, never an array; anything else
/// is the shape error `nontext_data_spec` gives.
pub fn convert_output_nontext_data<'a>(val: &'a Json) -> (r: Result<&'a str, ShapeError>)
    ensures
        nontext_data_spec(*val) matches Ok(s) ==> (r matches Ok(d) && d@ == s),
        nontext_data_spec(*val) matches Err(e) ==> r == Err::<&'a str, ShapeError>(e),
{
    match val {
        Json::Str(s) => Ok(s.as_str()),
        _ => Err(ShapeError::NontextNotString),
    }
}

} // verus!
