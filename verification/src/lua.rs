//! The calls into the Lua interpreter (`mlua`) that the extension manager
//! makes. Everything here is trusted: Lua runs code that the user wrote, so
//! these items promise nothing about what that code computes, only how the
//! calls are made.

use vstd::prelude::*;

use crate::extension_manager::{failure_text, field_views, lua_error_text, HookCallArgs, LuaFailure};
use crate::storage::Storage;

verus! {

/// A Lua interpreter, opaque to the proofs.
#[verifier::external_type_specification]
#[verifier::external_body]
pub struct ExLua(mlua::Lua);

/// A Lua table, opaque to the proofs.
#[verifier::external_type_specification]
#[verifier::external_body]
pub struct ExLuaTable(mlua::Table);

/// A Lua function, opaque to the proofs.
#[verifier::external_type_specification]
#[verifier::external_body]
pub struct ExLuaFunction(mlua::Function);

/// A handle to a value kept in the Lua registry, opaque to the proofs.
#[verifier::external_type_specification]
#[verifier::external_body]
pub struct ExLuaRegistryKey(mlua::RegistryKey);

/// An error raised by Lua or by `mlua`, opaque to the proofs; it is read
/// through `failure_of`.
#[verifier::external_type_specification]
#[verifier::external_body]
pub struct ExLuaError(mlua::Error);

/// `mlua::Lua::new`: a fresh interpreter with the safe standard libraries.
/// `mlua` panics only where the interpreter state cannot be allocated.
#[verifier::external_body]
pub(crate) fn new_interpreter() -> (lua: mlua::Lua) {
    mlua::Lua::new()
}

/// `mlua::Lua::load` with `Chunk::set_name` and `Chunk::eval`: runs `source`
/// as a chunk called `name` and converts what it evaluates to into a table.
/// The second result echoes the source and name that were handed on.
#[verifier::external_body]
pub(crate) fn eval_table(lua: &mlua::Lua, source: &str, name: &str) -> (r: (
    Result<mlua::Table, mlua::Error>,
    Ghost<(Seq<char>, Seq<char>)>,
))
    ensures
        r.1@ == (source@, name@),
{
    (lua.load(source).set_name(name).eval::<mlua::Table>(), Ghost((source@, name@)))
}

/// `mlua::Table::get` read as an optional string: `nil` gives `None`, a
/// string or a number gives its text, anything else an error. The second
/// result echoes the table and field that were read.
#[verifier::external_body]
pub(crate) fn get_optional_text(table: &mlua::Table, field: &str) -> (r: (
    Result<Option<String>, mlua::Error>,
    Ghost<(mlua::Table, Seq<char>)>,
))
    ensures
        r.1@ == (*table, field@),
{
    (table.get::<Option<String>>(field), Ghost((*table, field@)))
}

/// `mlua::Table::get` read as a function. The second result echoes the
/// table and field that were read.
#[verifier::external_body]
pub(crate) fn get_function(table: &mlua::Table, field: &str) -> (r: (
    Result<mlua::Function, mlua::Error>,
    Ghost<(mlua::Table, Seq<char>)>,
))
    ensures
        r.1@ == (*table, field@),
{
    (table.get::<mlua::Function>(field), Ghost((*table, field@)))
}

/// `mlua::Lua::create_table_from`: a new table holding each pair of
/// `fields` as a string field and its string value. The second result
/// echoes the fields that were handed on.
#[verifier::external_body]
pub(crate) fn table_from_fields(lua: &mlua::Lua, fields: &Vec<(String, String)>) -> (r: (
    Result<mlua::Table, mlua::Error>,
    Ghost<Seq<(Seq<char>, Seq<char>)>>,
))
    ensures
        r.1@ == field_views(fields@),
{
    (
        lua.create_table_from(fields.iter().map(|(k, v)| (k.as_str(), v.as_str()))),
        Ghost(field_views(fields@)),
    )
}

/// `mlua::Lua::create_registry_value`: keeps `table` alive in the registry.
/// The second result echoes the table that was handed on.
#[verifier::external_body]
pub(crate) fn store_in_registry(lua: &mlua::Lua, table: mlua::Table) -> (r: (
    Result<mlua::RegistryKey, mlua::Error>,
    Ghost<mlua::Table>,
))
    ensures
        r.1@ == table,
{
    let echo = Ghost(table);
    (lua.create_registry_value(table), echo)
}

/// `mlua::Lua::registry_value` read as a table. The second result echoes
/// the registry key that was read.
#[verifier::external_body]
pub(crate) fn table_from_registry(lua: &mlua::Lua, key: &mlua::RegistryKey) -> (r: (
    Result<mlua::Table, mlua::Error>,
    Ghost<mlua::RegistryKey>,
))
    ensures
        r.1@ == *key,
{
    (lua.registry_value::<mlua::Table>(key), Ghost(*key))
}

/// `mlua::Function::call` of a hook with the context table as argument.
/// While the hook runs (inside `mlua::Lua::scope`), the context holds,
/// under the names `lookup_name` and `reverse_name`, functions made by
/// `Scope::create_function` that answer from `storage` through
/// `Storage::get` and `Storage::get_key_by_value`. The second result echoes
/// the hook, the context, the store and the names that were handed on.
#[verifier::external_body]
pub(crate) fn call_hook(
    lua: &mlua::Lua,
    hook: &mlua::Function,
    ctx: &mlua::Table,
    storage: &Storage,
    lookup_name: &str,
    reverse_name: &str,
) -> (r: (Result<(), mlua::Error>, Ghost<HookCallArgs>))
    ensures
        r.1@ == (*hook, *ctx, storage@, lookup_name@, reverse_name@),
{
    let answer = lua.scope(|scope| {
        let get = scope.create_function(|_, k: String| Ok(storage.get(&k).map(str::to_string)))?;
        ctx.set(lookup_name, get)?;
        let find = scope.create_function(
            |_, v: String| Ok(storage.get_key_by_value(&v).map(str::to_string)),
        )?;
        ctx.set(reverse_name, find)?;
        hook.call::<()>(ctx.clone())
    });
    (answer, Ghost((*hook, *ctx, storage@, lookup_name@, reverse_name@)))
}

/// Reads an `mlua::Error` into a [`LuaFailure`], one arm per case: a
/// `CallbackError` by its `cause`, a `RuntimeError` by its message, and any
/// other error by the text that its `Display` gives.
#[verifier::external_body]
pub(crate) fn failure_of(err: &mlua::Error) -> (f: LuaFailure)
    ensures
        failure_text(f) == lua_error_text(*err),
{
    match err {
        mlua::Error::CallbackError { cause, .. } => LuaFailure::Callback(Box::new(failure_of(cause))),
        mlua::Error::RuntimeError(msg) => LuaFailure::Runtime(msg.clone()),
        other => LuaFailure::Other(other.to_string()),
    }
}

} // verus!
