use vstd::prelude::*;
use crate::model::Outcome;
use std::io::Write;
use mlua::LuaSerdeExt;

verus! {

// The only places where the library touches its two collaborators: the JSON
// parser/serializer and the embedded Lua engine. Everything below is taken
// on trust; everything above it is verified against these contracts.

#[verifier::external_type_specification]
#[verifier::external_body]
pub struct ExJsonValue(serde_json::Value);

#[verifier::external_type_specification]
#[verifier::external_body]
pub struct ExLua(mlua::Lua);

#[verifier::external_type_specification]
#[verifier::external_body]
pub struct ExLuaFunction(mlua::Function);

#[verifier::external_type_specification]
#[verifier::external_body]
pub struct ExLuaValue(mlua::Value);

/// Whether `text` is a syntactically valid JSON document.
pub uninterp spec fn json_ok(text: Seq<char>) -> bool;

/// The canonical serialization of the document that `text` describes;
/// meaningful only when `json_ok(text)` holds. Two texts describe the same
/// structure exactly when their canonical serializations are equal.
pub uninterp spec fn canon(text: Seq<char>) -> Seq<char>;

/// Relies on serde_json::from_str and on serde_json::Value's Display
/// implementation (Value::to_string): parsing succeeds exactly on
/// syntactically valid document text, and serializing the parsed value gives
/// its canonical form — itself valid text that re-parses to the same
/// structure, so canonicalizing it again changes nothing. On failure the
/// parser's diagnostic is returned.
#[verifier::external_body]
pub(crate) fn parse_canonical(raw: &str) -> (r: Result<(serde_json::Value, String), String>)
    ensures
        r is Ok <==> json_ok(raw@),
        r matches Ok(p) ==> p.1@ == canon(raw@) && json_ok(p.1@) && canon(p.1@) == p.1@,
{
    match serde_json::from_str::<serde_json::Value>(raw) {
        Ok(v) => {
            let canonical = v.to_string();
            Ok((v, canonical))
        }
        Err(e) => Err(e.to_string()),
    }
}

/// Relies on mlua::Lua::new: a fresh engine holding the default global
/// environment, shared by every predicate for the store's whole lifetime.
#[verifier::external_body]
pub(crate) fn lua_new() -> (r: mlua::Lua) {
    mlua::Lua::new()
}

/// Relies on mlua::Lua::load and mlua::Chunk::eval: evaluates the source text
/// as an expression in the engine's global context and asks for a function
/// back. Whether that succeeds may depend on the engine's mutable global
/// state, so nothing is promised of the outcome; on failure the engine's
/// diagnostic is returned.
#[verifier::external_body]
pub(crate) fn eval_to_function(lua: &mlua::Lua, code: &str) -> (r: Result<mlua::Function, String>) {
    match lua.load(code).eval::<mlua::Function>() {
        Ok(f) => Ok(f),
        Err(e) => Err(e.to_string()),
    }
}

/// Relies on mlua::LuaSerdeExt::to_value: translates a JSON document into the
/// engine's value representation (null to nil, arrays to tables, and so on).
/// Failure means the engine cannot represent the value at all, a systemic
/// condition rather than a property of one document's shape.
#[verifier::external_body]
pub(crate) fn doc_to_lua(lua: &mlua::Lua, doc: &serde_json::Value) -> (r: Result<
    mlua::Value,
    String,
>) {
    match lua.to_value(doc) {
        Ok(v) => Ok(v),
        Err(e) => Err(e.to_string()),
    }
}

/// Relies on mlua::Function::call asked for a boolean: the engine's
/// truthiness rules apply, so nil and false come back as false and every
/// other return value as true; a raised error carries the engine's message.
/// Which variant comes back depends on the predicate and on engine state, so
/// nothing is promised of it.
#[verifier::external_body]
pub(crate) fn call_predicate(f: &mlua::Function, arg: mlua::Value) -> (r: Outcome) {
    match f.call::<bool>(arg) {
        Ok(true) => Outcome::Matched,
        Ok(false) => Outcome::NotMatched,
        Err(e) => Outcome::Failed(e.to_string()),
    }
}

/// Relies on std::io::stderr: writes one per-document diagnostic to the
/// operator-visible error stream. Diagnostics are a side channel, never part
/// of a result.
#[verifier::external_body]
pub(crate) fn emit_diagnostic(key: &str, message: &str) {
    let mut err = std::io::stderr();
    let _ = writeln!(err, "UDF error for key '{}': {}", key, message);
}

} // verus!
