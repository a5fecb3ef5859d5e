//! The contents of the files a patch works on: reading JSON, YAML and TOML
//! text into JSON values, writing them back, and merging or patching them.
use crate::action::ContentType;
use crate::errors::PatchActionError;
use crate::json::{Json, JsonV, jv, merge, merge_v};
use vstd::prelude::*;

verus! {

#[verifier::external_type_specification]
#[verifier::external_body]
pub struct ExJsonValue(serde_json::Value);

#[verifier::external_type_specification]
#[verifier::external_body]
pub struct ExJsonError(serde_json::Error);

/// Turns a `serde_json` value into a `Json`, one for one (a number as the
/// text `serde_json` writes for it).
#[verifier::external_body]
fn json_of(v: serde_json::Value) -> Json {
    match v {
        serde_json::Value::Null => Json::Null,
        serde_json::Value::Bool(b) => Json::Bool(b),
        serde_json::Value::Number(n) => Json::Number(n.to_string()),
        serde_json::Value::String(s) => Json::Str(s),
        serde_json::Value::Array(a) => Json::Array(a.into_iter().map(json_of).collect()),
        serde_json::Value::Object(m) => Json::Object(m.into_iter().map(|(k, x)| (k, json_of(x))).collect()),
    }
}

/// Turns a `Json` into a `serde_json` value, one for one; a number's text
/// is read by `serde_json::Number`'s `FromStr`, whose error is passed on.
#[verifier::external_body]
fn value_of(j: &Json) -> Result<serde_json::Value, serde_json::Error> {
    Ok(match j {
        Json::Null => serde_json::Value::Null,
        Json::Bool(b) => serde_json::Value::Bool(*b),
        Json::Number(n) => serde_json::Value::Number(n.parse::<serde_json::Number>()?),
        Json::Str(s) => serde_json::Value::String(s.clone()),
        Json::Array(a) => serde_json::Value::Array(a.iter().map(value_of).collect::<Result<_, _>>()?),
        Json::Object(m) => serde_json::Value::Object(m.iter().map(|(k, x)| Ok((k.clone(), value_of(x)?))).collect::<Result<_, serde_json::Error>>()?),
    })
}

/// What `jsonc_parser::parse_to_serde_value` reads from a text: a value,
/// nothing (an empty text), or the parser's error message.
pub uninterp spec fn jsonc_parsed(text: Seq<char>) -> Result<Option<JsonV>, PatchActionError>;

/// What `serde_json::from_str` reads from a text, or its error message.
pub uninterp spec fn json_parsed(text: Seq<char>) -> Result<JsonV, PatchActionError>;

/// What `serde_yaml_ng::from_str` reads from a text, as a JSON value
/// (`serde_json::to_value`); the error is the one of the step that failed.
pub uninterp spec fn yaml_parsed(text: Seq<char>) -> Result<JsonV, PatchActionError>;

/// What `toml::from_str` reads from a text, as a JSON value
/// (`serde_json::to_value`); the error is the one of the step that failed.
pub uninterp spec fn toml_parsed(text: Seq<char>) -> Result<JsonV, PatchActionError>;

/// What `serde_json::to_string_pretty` writes for a value, or the error: of
/// reading a number's text as a `serde_json::Number`, or of writing.
pub uninterp spec fn json_written(v: JsonV) -> Result<Seq<char>, PatchActionError>;

/// What `serde_yaml_ng::to_string` writes for a value, or the error: of
/// reading a number's text as a `serde_json::Number`, or of writing.
pub uninterp spec fn yaml_written(v: JsonV) -> Result<Seq<char>, PatchActionError>;

/// What `toml::to_string_pretty` writes for a value, or the error: of
/// reading a number's text as a `serde_json::Number`, or of writing.
pub uninterp spec fn toml_written(v: JsonV) -> Result<Seq<char>, PatchActionError>;

/// Whether `serde_json::from_value` reads a value as a `json_patch::Patch`
/// (a list of RFC 6902 operations), or the error (of reading a number's
/// text, or of the reading).
pub uninterp spec fn patch_read(v: JsonV) -> Result<(), PatchActionError>;

/// What `json_patch::patch` makes of a document with the operations read
/// from `patch`, or the error (reading a number's text or the operations,
/// or applying them).
pub uninterp spec fn json_patched(doc: JsonV, patch: JsonV) -> Result<JsonV, PatchActionError>;

/// `jsonc_parser::parse_to_serde_value` with the default options.
#[verifier::external_body]
fn parse_jsonc(text: &str) -> (r: Result<Option<Json>, PatchActionError>)
    ensures
        match r {
            Ok(Some(j)) => jsonc_parsed(text@) == Ok::<Option<JsonV>, PatchActionError>(Some(jv(j))),
            Ok(None) => jsonc_parsed(text@) == Ok::<Option<JsonV>, PatchActionError>(None),
            Err(e) => jsonc_parsed(text@) == Err::<Option<JsonV>, PatchActionError>(e),
        },
{
    jsonc_parser::parse_to_serde_value::<Option<serde_json::Value>>(text, &jsonc_parser::ParseOptions::default())
        .map(|o| o.map(json_of))
        .map_err(|e| PatchActionError::JsoncParse(e.to_string()))
}

/// `serde_json::from_str` into a JSON value.
#[verifier::external_body]
fn parse_json(text: &str) -> (r: Result<Json, PatchActionError>)
    ensures
        match r {
            Ok(j) => json_parsed(text@) == Ok::<JsonV, PatchActionError>(jv(j)),
            Err(e) => json_parsed(text@) == Err::<JsonV, PatchActionError>(e),
        },
{
    serde_json::from_str::<serde_json::Value>(text).map(json_of).map_err(|e| PatchActionError::SerdeJson(e.to_string()))
}

/// `serde_yaml_ng::from_str`, then `serde_json::to_value`.
#[verifier::external_body]
fn parse_yaml(text: &str) -> (r: Result<Json, PatchActionError>)
    ensures
        match r {
            Ok(j) => yaml_parsed(text@) == Ok::<JsonV, PatchActionError>(jv(j)),
            Err(e) => yaml_parsed(text@) == Err::<JsonV, PatchActionError>(e),
        },
{
    let yaml: serde_yaml_ng::Value =
        serde_yaml_ng::from_str(text).map_err(|e| PatchActionError::YamlParse(e.to_string()))?;
    serde_json::to_value(yaml).map(json_of).map_err(|e| PatchActionError::SerdeJson(e.to_string()))
}

/// `toml::from_str`, then `serde_json::to_value`.
#[verifier::external_body]
fn parse_toml(text: &str) -> (r: Result<Json, PatchActionError>)
    ensures
        match r {
            Ok(j) => toml_parsed(text@) == Ok::<JsonV, PatchActionError>(jv(j)),
            Err(e) => toml_parsed(text@) == Err::<JsonV, PatchActionError>(e),
        },
{
    let value: toml::Value = toml::from_str(text).map_err(|e| PatchActionError::TomlDeserialize(e.to_string()))?;
    serde_json::to_value(value).map(json_of).map_err(|e| PatchActionError::SerdeJson(e.to_string()))
}

/// `serde_json::to_string_pretty`.
#[verifier::external_body]
fn write_json(j: &Json) -> (r: Result<String, PatchActionError>)
    ensures
        match r {
            Ok(s) => json_written(jv(*j)) == Ok::<Seq<char>, PatchActionError>(s@),
            Err(e) => json_written(jv(*j)) == Err::<Seq<char>, PatchActionError>(e),
        },
{
    value_of(j).and_then(|v| serde_json::to_string_pretty(&v)).map_err(|e| PatchActionError::SerdeJson(e.to_string()))
}

/// `serde_yaml_ng::to_string`.
#[verifier::external_body]
fn write_yaml(j: &Json) -> (r: Result<String, PatchActionError>)
    ensures
        match r {
            Ok(s) => yaml_written(jv(*j)) == Ok::<Seq<char>, PatchActionError>(s@),
            Err(e) => yaml_written(jv(*j)) == Err::<Seq<char>, PatchActionError>(e),
        },
{
    let v = value_of(j).map_err(|e| PatchActionError::SerdeJson(e.to_string()))?;
    serde_yaml_ng::to_string(&v).map_err(|e| PatchActionError::YamlParse(e.to_string()))
}

/// `toml::to_string_pretty`.
#[verifier::external_body]
fn write_toml(j: &Json) -> (r: Result<String, PatchActionError>)
    ensures
        match r {
            Ok(s) => toml_written(jv(*j)) == Ok::<Seq<char>, PatchActionError>(s@),
            Err(e) => toml_written(jv(*j)) == Err::<Seq<char>, PatchActionError>(e),
        },
{
    let v = value_of(j).map_err(|e| PatchActionError::SerdeJson(e.to_string()))?;
    toml::to_string_pretty(&v).map_err(|e| PatchActionError::TomlSerialize(e.to_string()))
}

/// `serde_json::from_value` into a `json_patch::Patch`, kept only for
/// whether it succeeds.
#[verifier::external_body]
fn read_patch(p: &Json) -> (r: Result<(), PatchActionError>)
    ensures
        match r {
            Ok(()) => patch_read(jv(*p)) == Ok::<(), PatchActionError>(()),
            Err(e) => patch_read(jv(*p)) == Err::<(), PatchActionError>(e),
        },
{
    value_of(p).and_then(serde_json::from_value::<json_patch::Patch>).map(|_| ()).map_err(|e| PatchActionError::SerdeJson(e.to_string()))
}

/// `json_patch::patch` of `doc` with the operations read from `p`.
#[verifier::external_body]
fn apply_patch(doc: &Json, p: &Json) -> (r: Result<Json, PatchActionError>)
    ensures
        match r {
            Ok(j) => json_patched(jv(*doc), jv(*p)) == Ok::<JsonV, PatchActionError>(jv(j)),
            Err(e) => json_patched(jv(*doc), jv(*p)) == Err::<JsonV, PatchActionError>(e),
        },
{
    let ops: json_patch::Patch =
        value_of(p).and_then(serde_json::from_value).map_err(|e| PatchActionError::SerdeJson(e.to_string()))?;
    let mut v = value_of(doc).map_err(|e| PatchActionError::SerdeJson(e.to_string()))?;
    json_patch::patch(&mut v, &ops).map_err(|e| PatchActionError::Patch(e.to_string()))?;
    Ok(json_of(v))
}

/// Whether contents of this type can be read and written.
pub open spec fn supported(ct: ContentType) -> bool {
    ct is Json || ct is Yaml || ct is Toml
}

/// The JSON value read from a text of the given type: YAML and TOML by their
/// readers; JSON as JSON with comments, and where that finds nothing (an
/// empty text) as plain JSON.
pub open spec fn content_parsed(text: Seq<char>, ct: ContentType) -> Result<JsonV, PatchActionError> {
    match ct {
        ContentType::Yaml => yaml_parsed(text),
        ContentType::Toml => toml_parsed(text),
        _ => match jsonc_parsed(text) {
            Ok(Some(v)) => Ok(v),
            Ok(None) => json_parsed(text),
            Err(e) => Err(e),
        },
    }
}

/// The text written for a JSON value as contents of the given type.
pub open spec fn content_written(v: JsonV, ct: ContentType) -> Result<Seq<char>, PatchActionError> {
    match ct {
        ContentType::Yaml => yaml_written(v),
        ContentType::Toml => toml_written(v),
        _ => json_written(v),
    }
}

/// What merging the contents `src` into the contents `dst` gives: both read
/// (the source first), the source merged into the destination as a JSON
/// merge patch, the result written back.
pub open spec fn merged_text(src: Seq<char>, dst: Seq<char>, ct: ContentType) -> Result<Seq<char>, PatchActionError> {
    match content_parsed(src, ct) {
        Err(e) => Err(e),
        Ok(m) => match content_parsed(dst, ct) {
            Err(e) => Err(e),
            Ok(d) => content_written(merge_v(d, m), ct),
        },
    }
}

/// What patching the contents `dst` with the operations in `patch` gives:
/// the patch read and taken as operations, then the destination read, the
/// operations applied, the result written back.
pub open spec fn patched_text(patch: Seq<char>, dst: Seq<char>, ct: ContentType) -> Result<Seq<char>, PatchActionError> {
    match content_parsed(patch, ct) {
        Err(e) => Err(e),
        Ok(p) => match patch_read(p) {
            Err(e) => Err(e),
            Ok(()) => match content_parsed(dst, ct) {
                Err(e) => Err(e),
                Ok(d) => match json_patched(d, p) {
                    Err(e) => Err(e),
                    Ok(v) => content_written(v, ct),
                },
            },
        },
    }
}

/// The view of a text result.
pub open spec fn text_result(r: Result<String, PatchActionError>) -> Result<Seq<char>, PatchActionError> {
    match r {
        Ok(s) => Ok(s@),
        Err(e) => Err(e),
    }
}

/// Reads contents of the given type (see `content_parsed`).
pub fn parse_content(text: &str, ct: &ContentType) -> (r: Result<Json, PatchActionError>)
    requires
        supported(*ct),
    ensures
        match r {
            Ok(j) => content_parsed(text@, *ct) == Ok::<JsonV, PatchActionError>(jv(j)),
            Err(e) => content_parsed(text@, *ct) == Err::<JsonV, PatchActionError>(e),
        },
{
    match ct {
        ContentType::Yaml => parse_yaml(text),
        ContentType::Toml => parse_toml(text),
        _ => match parse_jsonc(text) {
            Ok(Some(v)) => Ok(v),
            Ok(None) => parse_json(text),
            Err(e) => Err(e),
        },
    }
}

/// Writes contents of the given type (see `content_written`).
pub fn write_content(j: &Json, ct: &ContentType) -> (r: Result<String, PatchActionError>)
    requires
        supported(*ct),
    ensures
        text_result(r) == content_written(jv(*j), *ct),
{
    match ct {
        ContentType::Yaml => write_yaml(j),
        ContentType::Toml => write_toml(j),
        _ => write_json(j),
    }
}

/// Merges the contents `src_text` into the contents `dst_text` (see
/// `merged_text`); the destination of a missing file is the empty text.
pub fn merge_contents(src_text: &str, dst_text: &str, ct: &ContentType) -> (r: Result<String, PatchActionError>)
    requires
        supported(*ct),
    ensures
        text_result(r) == merged_text(src_text@, dst_text@, *ct),
{
    let m = match parse_content(src_text, ct) {
        Ok(m) => m,
        Err(e) => return Err(e),
    };
    let d = match parse_content(dst_text, ct) {
        Ok(d) => d,
        Err(e) => return Err(e),
    };
    let merged = merge(d, &m);
    write_content(&merged, ct)
}

/// Patches the contents `dst_text` with the operations in `patch_text` (see
/// `patched_text`); the destination of a missing file is the empty text.
pub fn patch_contents(patch_text: &str, dst_text: &str, ct: &ContentType) -> (r: Result<String, PatchActionError>)
    requires
        supported(*ct),
    ensures
        text_result(r) == patched_text(patch_text@, dst_text@, *ct),
{
    let p = match parse_content(patch_text, ct) {
        Ok(p) => p,
        Err(e) => return Err(e),
    };
    match read_patch(&p) {
        Ok(()) => {},
        Err(e) => return Err(e),
    }
    let d = match parse_content(dst_text, ct) {
        Ok(d) => d,
        Err(e) => return Err(e),
    };
    match apply_patch(&d, &p) {
        Ok(v) => write_content(&v, ct),
        Err(e) => Err(e),
    }
}

} // verus!
