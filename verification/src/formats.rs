//! Reading and writing JSON and YAML text, done by `serde_json` and `serde_yaml`.
use vstd::prelude::*;
use serde::Deserialize;
use crate::json::{Json, JsonV};
use crate::profile::{EvaluatorError, ErrorV};
use crate::raw::{RawJson, raw_docs_view, raw_from_json, json_from_raw, normalized};

verus! {

#[verifier::external_type_specification]
#[verifier::external_body]
pub struct ExSerdeValue(serde_json::Value);

/// Converts a `serde_json` value into a raw value, one for one: numbers keep
/// their JSON text, object members keep the map's order.
#[verifier::external_body]
fn raw_from_value(v: &serde_json::Value) -> RawJson {
    match v {
        serde_json::Value::Null => RawJson::Null,
        serde_json::Value::Bool(b) => RawJson::Bool(*b),
        serde_json::Value::Number(n) => RawJson::Number(n.to_string()),
        serde_json::Value::String(s) => RawJson::Str(s.clone()),
        serde_json::Value::Array(a) => RawJson::Array(a.iter().map(raw_from_value).collect()),
        serde_json::Value::Object(m) => {
            RawJson::Object(m.iter().map(|(k, x)| (k.clone(), raw_from_value(x))).collect())
        },
    }
}

/// Converts a raw value into a `serde_json` value, one for one; a number whose
/// text is not a JSON number becomes `null`.
#[verifier::external_body]
pub(crate) fn value_from_raw(r: &RawJson) -> serde_json::Value {
    match r {
        RawJson::Null => serde_json::Value::Null,
        RawJson::Bool(b) => serde_json::Value::Bool(*b),
        RawJson::Number(n) => n.parse::<serde_json::Number>().map_or(serde_json::Value::Null, serde_json::Value::Number),
        RawJson::Str(s) => serde_json::Value::String(s.clone()),
        RawJson::Array(a) => serde_json::Value::Array(a.iter().map(value_from_raw).collect()),
        RawJson::Object(m) => {
            serde_json::Value::Object(m.iter().map(|(k, x)| (k.clone(), value_from_raw(x))).collect())
        },
    }
}

/// What `serde_yaml` reads from `text`: each YAML document as a JSON value
/// (object members in the reader's order), or the message of the error that
/// stops the reading.
pub uninterp spec fn yaml_documents_of(text: Seq<char>) -> Result<Seq<JsonV>, Seq<char>>;

/// What `serde_json::from_str` reads from `text` as a JSON value (object
/// members in the reader's order), or the message of its error.
pub uninterp spec fn json_value_of(text: Seq<char>) -> Result<JsonV, Seq<char>>;

/// What `serde_json::to_string_pretty` writes for `v`, or the message of its error.
pub uninterp spec fn pretty_json_of(v: JsonV) -> Result<Seq<char>, Seq<char>>;

/// What `serde_yaml::to_string` writes for `v`, or the message of its error.
pub uninterp spec fn yaml_text_of(v: JsonV) -> Result<Seq<char>, Seq<char>>;

/// Reads the YAML documents of `text` with `serde_yaml::Deserializer::from_str`,
/// each into a `serde_json::Value`. Trusted: the result is the named reading
/// `yaml_documents_of`.
#[verifier::external_body]
pub(crate) fn yaml_documents(text: &str) -> (r: Result<Vec<RawJson>, String>)
    ensures
        match r {
            Ok(d) => yaml_documents_of(text@) == Ok::<Seq<JsonV>, Seq<char>>(raw_docs_view(d@)),
            Err(m) => yaml_documents_of(text@) == Err::<Seq<JsonV>, Seq<char>>(m@),
        },
{
    let docs: Result<Vec<serde_json::Value>, serde_yaml::Error> =
        serde_yaml::Deserializer::from_str(text).map(serde_json::Value::deserialize).collect();
    match docs {
        Ok(d) => Ok(d.iter().map(raw_from_value).collect()),
        Err(e) => Err(e.to_string()),
    }
}

/// Reads `text` with `serde_json::from_str` into a `serde_json::Value`.
/// Trusted: the result is the named reading `json_value_of`.
#[verifier::external_body]
pub(crate) fn parse_json(text: &str) -> (r: Result<RawJson, String>)
    ensures
        match r {
            Ok(j) => json_value_of(text@) == Ok::<JsonV, Seq<char>>(j@),
            Err(m) => json_value_of(text@) == Err::<JsonV, Seq<char>>(m@),
        },
{
    match serde_json::from_str::<serde_json::Value>(text) {
        Ok(v) => Ok(raw_from_value(&v)),
        Err(e) => Err(e.to_string()),
    }
}

/// Writes `v` with `serde_json::to_string_pretty`. Trusted: the result is the
/// named text `pretty_json_of`.
#[verifier::external_body]
fn pretty_json(v: &RawJson) -> (r: Result<String, String>)
    ensures
        match r {
            Ok(s) => pretty_json_of(v@) == Ok::<Seq<char>, Seq<char>>(s@),
            Err(m) => pretty_json_of(v@) == Err::<Seq<char>, Seq<char>>(m@),
        },
{
    serde_json::to_string_pretty(&value_from_raw(v)).map_err(|e| e.to_string())
}

/// Writes `v` with `serde_yaml::to_string`. Trusted: the result is the named
/// text `yaml_text_of`.
#[verifier::external_body]
fn yaml_text(v: &RawJson) -> (r: Result<String, String>)
    ensures
        match r {
            Ok(s) => yaml_text_of(v@) == Ok::<Seq<char>, Seq<char>>(s@),
            Err(m) => yaml_text_of(v@) == Err::<Seq<char>, Seq<char>>(m@),
        },
{
    serde_yaml::to_string(&value_from_raw(v)).map_err(|e| e.to_string())
}

/// Reads indicator data from JSON text, objects kept in key order; a text
/// that is not JSON gives the JSON error with the reader's message.
pub fn parse_indicators(text: &str) -> (r: Result<Json, EvaluatorError>)
    ensures
        match json_value_of(text@) {
            Ok(v) => r matches Ok(j) && j@ == normalized(v),
            Err(m) => r matches Err(e) && e@ == ErrorV::Json(m),
        },
{
    match parse_json(text) {
        Ok(raw) => Ok(json_from_raw(&raw)),
        Err(m) => Err(EvaluatorError::Json(m)),
    }
}

/// The formats a report can be written in.
#[derive(Debug, Clone, Copy, PartialEq, Eq, Structural)]
pub enum OutputFormat {
    Json,
    Yaml,
}

/// Writes a report as pretty-printed JSON or as YAML; a failure of the
/// writer gives the error of that format with the writer's message.
pub fn serialize_report(report: &Json, format: OutputFormat) -> (r: Result<String, EvaluatorError>)
    ensures
        format == OutputFormat::Json ==> match pretty_json_of(report@) {
            Ok(s) => r matches Ok(t) && t@ == s,
            Err(m) => r matches Err(e) && e@ == ErrorV::Json(m),
        },
        format == OutputFormat::Yaml ==> match yaml_text_of(report@) {
            Ok(s) => r matches Ok(t) && t@ == s,
            Err(m) => r matches Err(e) && e@ == ErrorV::Yaml(m),
        },
{
    let raw = raw_from_json(report);
    match format {
        OutputFormat::Json => match pretty_json(&raw) {
            Ok(s) => Ok(s),
            Err(m) => Err(EvaluatorError::Json(m)),
        },
        OutputFormat::Yaml => match yaml_text(&raw) {
            Ok(s) => Ok(s),
            Err(m) => Err(EvaluatorError::Yaml(m)),
        },
    }
}

} // verus!
