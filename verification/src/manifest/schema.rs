//! The shape of a manifest, and what `jsonschema` finds wrong with one.
use vstd::prelude::*;
use vstd::string::*;

use crate::json::{fit, make_value, value_tree, Json, JsonView};

verus! {

/// The normative schema: the document as written at the root, and one guest
/// with the defaults merged in under `$defs/resolvedGuest`.
pub const SCHEMA: &'static str = r##"{
  "$schema": "https://json-schema.org/draft/2020-12/schema",
  "title": "reaper manifest, v1",
  "type": "object",
  "additionalProperties": false,
  "required": ["schema", "project", "guests"],
  "properties": {
    "schema": { "const": 1 },
    "project": { "$ref": "#/$defs/label" },
    "guests": {
      "type": "array",
      "minItems": 1,
      "uniqueItems": true,
      "items": { "anyOf": [{ "$ref": "#/$defs/name" }, { "$ref": "#/$defs/guest" }] }
    },
    "exec": { "$ref": "#/$defs/exec" },
    "build": { "$ref": "#/$defs/build" },
    "run": { "$ref": "#/$defs/run" },
    "sync": {
      "type": "object",
      "additionalProperties": false,
      "properties": {
        "exclude": { "type": "array", "items": { "type": "string", "minLength": 1 } }
      }
    },
    "reset": {
      "type": "object",
      "additionalProperties": false,
      "required": ["datasets"],
      "properties": {
        "datasets": { "type": "array", "uniqueItems": true, "items": { "const": "state" } }
      }
    },
    "profiles": {
      "type": "object",
      "propertyNames": { "$ref": "#/$defs/name" },
      "additionalProperties": { "$ref": "#/$defs/profile" }
    },
    "resources": { "$ref": "#/$defs/resources" }
  },
  "$defs": {
    "label": { "type": "string", "maxLength": 63, "pattern": "^[a-z0-9]([a-z0-9-]*[a-z0-9])?$" },
    "name": { "type": "string", "maxLength": 128, "pattern": "^[A-Za-z0-9][A-Za-z0-9._-]*$" },
    "exec": { "enum": ["container", "host"] },
    "image": {
      "type": "string",
      "pattern": "^(localhost|[a-z0-9-]+(\\.[a-z0-9-]+)+|[a-z0-9.-]+:[0-9]+|localhost:[0-9]+)(/[a-z0-9]+([._-]+[a-z0-9]+)*)+@sha256:[0-9a-f]{64}$"
    },
    "images": { "type": "array", "uniqueItems": true, "items": { "$ref": "#/$defs/image" } },
    "cache": {
      "type": "array",
      "uniqueItems": true,
      "items": { "type": "string", "maxLength": 64, "pattern": "^[a-z0-9][a-z0-9._-]*$" }
    },
    "env": {
      "type": "object",
      "propertyNames": { "pattern": "^[A-Za-z_][A-Za-z0-9_]*$" },
      "additionalProperties": { "type": "string" }
    },
    "cmd": { "type": "string", "minLength": 1 },
    "build": {
      "type": "object",
      "additionalProperties": false,
      "properties": {
        "exec": { "$ref": "#/$defs/exec" },
        "image": { "$ref": "#/$defs/image" },
        "cmd": { "$ref": "#/$defs/cmd" },
        "cache": { "$ref": "#/$defs/cache" },
        "env": { "$ref": "#/$defs/env" }
      }
    },
    "run": {
      "type": "object",
      "additionalProperties": false,
      "properties": {
        "exec": { "$ref": "#/$defs/exec" },
        "image": { "$ref": "#/$defs/image" },
        "cmd": { "$ref": "#/$defs/cmd" },
        "images": { "$ref": "#/$defs/images" },
        "env": { "$ref": "#/$defs/env" }
      }
    },
    "resources": {
      "type": "object",
      "additionalProperties": false,
      "properties": {
        "cores": { "type": "integer", "minimum": 1, "maximum": 512 },
        "ram_gb": { "type": "integer", "minimum": 1, "maximum": 4096 },
        "disk_gb": { "type": "integer", "minimum": 1, "maximum": 4096 }
      }
    },
    "profile": {
      "type": "object",
      "additionalProperties": false,
      "properties": {
        "ttl": { "type": "string", "pattern": "^0*[1-9][0-9]*[smhd]$" },
        "warm_cache": { "type": "boolean" },
        "env": { "$ref": "#/$defs/env" }
      }
    },
    "guest": {
      "type": "object",
      "additionalProperties": false,
      "required": ["name"],
      "properties": {
        "name": { "$ref": "#/$defs/name" },
        "exec": { "$ref": "#/$defs/exec" },
        "build": { "$ref": "#/$defs/build" },
        "run": { "$ref": "#/$defs/run" },
        "resources": { "$ref": "#/$defs/resources" }
      }
    },
    "modal": {
      "required": ["exec", "cmd"],
      "if": { "properties": { "exec": { "const": "container" } }, "required": ["exec"] },
      "then": { "required": ["image"] },
      "else": { "properties": { "image": false } }
    },
    "resolvedGuest": {
      "type": "object",
      "additionalProperties": false,
      "required": ["name", "run"],
      "properties": {
        "name": { "$ref": "#/$defs/name" },
        "exec": { "$ref": "#/$defs/exec" },
        "build": { "allOf": [{ "$ref": "#/$defs/build" }, { "$ref": "#/$defs/modal" }] },
        "run": { "allOf": [{ "$ref": "#/$defs/run" }, { "$ref": "#/$defs/modal" }] },
        "resources": { "$ref": "#/$defs/resources" }
      }
    }
  }
}
"##;

/// Whether `jsonschema::validator_for` takes a schema.
pub uninterp spec fn schema_compiles(schema: JsonView) -> bool;

/// What `jsonschema::Validator::iter_errors` yields for a schema that compiles
/// and a document: of each error the place as a JSON Pointer, and its text.
pub uninterp spec fn schema_findings(schema: JsonView, doc: JsonView) -> Seq<
    (Seq<char>, Seq<char>),
>;

pub open spec fn finding_views(v: Seq<(String, String)>) -> Seq<(Seq<char>, Seq<char>)> {
    v.map_values(|f: (String, String)| (f.0@, f.1@))
}

/// Calls `jsonschema::validator_for` and says why it refuses the schema, if it
/// does. Whether it does follows from the schema alone: the crate is built
/// without the features that would fetch a reference from a file or the network,
/// so that every reference that leaves the schema and is no known one is
/// refused. In which words does not: of several such references the one that is
/// named is the first that a hash set with a random seed yields. Nothing is
/// claimed of the words.
#[verifier::external_body]
fn compile_schema(schema: &serde_json::Value) -> (r: Option<String>)
    ensures
        r is None <==> schema_compiles(value_tree(*schema)),
{
    jsonschema::validator_for(schema).err().map(|e| e.to_string())
}

/// Calls `Validator::iter_errors` of the schema's validator on a document and
/// takes the place and the text of each error, in the order in which they come.
/// That order follows from the schema and the document, whose members stand in
/// the order in which a `Map` holds them. A schema that `validator_for` refuses
/// gives the text of that refusal, of which nothing is claimed.
#[verifier::external_body]
fn apply_schema(schema: &serde_json::Value, doc: &serde_json::Value) -> (r: Result<
    Vec<(String, String)>,
    String,
>)
    ensures
        match r {
            Ok(v) => schema_compiles(value_tree(*schema)) && finding_views(v@) == schema_findings(
                value_tree(*schema),
                value_tree(*doc),
            ),
            Err(_) => !schema_compiles(value_tree(*schema)),
        },
{
    let validator = jsonschema::validator_for(schema).map_err(|e| e.to_string())?;
    let errors = validator.iter_errors(doc);
    Ok(errors.map(|e| (e.instance_path().to_string(), e.to_string())).collect())
}

/// Why a schema does not compile, if it does not, in whatever words.
pub fn complaint(schema: &Json) -> (r: Option<String>)
    requires
        fit(schema@),
    ensures
        r is None <==> schema_compiles(schema@),
{
    let v = make_value(schema);
    compile_schema(&v)
}

/// What is wrong with a document under a schema, or why that does not compile.
pub fn findings(schema: &Json, doc: &Json) -> (r: Result<Vec<(String, String)>, String>)
    requires
        fit(schema@),
        fit(doc@),
    ensures
        match r {
            Ok(v) => schema_compiles(schema@) && finding_views(v@) == schema_findings(
                schema@,
                doc@,
            ),
            Err(_) => !schema_compiles(schema@),
        },
{
    let s = make_value(schema);
    let d = make_value(doc);
    apply_schema(&s, &d)
}

}
