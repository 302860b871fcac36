use banco_memoria::error::DatabaseError;
use banco_memoria::extension_manager::{
    clean_failure, clean_lua_error, extension_prefix, extract_clean_message, lua_file_stem,
    ExtensionManager, LuaFailure,
};
use banco_memoria::storage::Storage;

#[test]
fn test_extract_clean_message() {
    let msg1 = "[string \"cpf.lua\"]:8: CPF inválido\nstack traceback:\n  [C]: in ?";
    assert_eq!(extract_clean_message(msg1), "CPF inválido");

    let msg2 = "runtime error: [string \"cpf.lua\"]:12: Dígito incorreto";
    assert_eq!(extract_clean_message(msg2), "Dígito incorreto");

    let msg3 = "extensions/data.lua:5: Mensagem sem string prefix";
    assert_eq!(extract_clean_message(msg3), "Mensagem sem string prefix");

    let msg4 = "Erro simples sem prefixo";
    assert_eq!(extract_clean_message(msg4), "Erro simples sem prefixo");

    let msg5 = "runtime error: ERRO: já prefixado";
    assert_eq!(extract_clean_message(msg5), "já prefixado");
}

#[test]
fn test_clean_lua_error_types() {
    let rt_err = mlua::Error::RuntimeError("[string \"test.lua\"]:1: falha crítica".to_string());
    assert_eq!(
        clean_lua_error(&rt_err),
        DatabaseError::Extension("falha crítica".to_string())
    );

    let cb_err = mlua::Error::CallbackError {
        traceback: "stack traceback: ...".to_string(),
        cause: std::sync::Arc::new(mlua::Error::RuntimeError(
            "[string \"test.lua\"]:2: falha interna".to_string(),
        )),
    };
    assert_eq!(
        clean_lua_error(&cb_err),
        DatabaseError::Extension("falha interna".to_string())
    );
}

#[test]
fn clean_message_keeps_text_without_a_line_number() {
    assert_eq!(extract_clean_message("a:b: c"), "a:b: c");
    assert_eq!(extract_clean_message("file:: c"), "file:: c");
    assert_eq!(extract_clean_message("x:12:  spaced  "), "spaced");
    assert_eq!(extract_clean_message("  error: baixo nível\r\nmais"), "baixo nível");
    assert_eq!(extract_clean_message(""), "");
    assert_eq!(extract_clean_message("\nsegunda linha"), "");
    assert_eq!(extract_clean_message("f.lua:3: ERRO: duplo"), "duplo");
}

#[test]
fn clean_failure_reads_the_root_cause() {
    let nested = LuaFailure::Callback(Box::new(LuaFailure::Callback(Box::new(
        LuaFailure::Runtime("m.lua:4: profundo".to_string()),
    ))));
    assert_eq!(
        clean_failure(&nested),
        DatabaseError::Extension("profundo".to_string())
    );
    assert_eq!(
        clean_failure(&LuaFailure::Other("syntax error: [string \"x\"]:1: near end".to_string())),
        DatabaseError::Extension("syntax error: [string \"x\"]:1: near end".to_string())
    );
    let other = mlua::Error::MismatchedRegistryKey;
    assert_eq!(
        clean_lua_error(&other),
        DatabaseError::Extension("RegistryKey used from different Lua state".to_string())
    );
}

#[test]
fn lua_file_stems() {
    assert_eq!(lua_file_stem("cpf.lua"), Some("cpf".to_string()));
    assert_eq!(lua_file_stem("a.b.lua"), Some("a.b".to_string()));
    assert_eq!(lua_file_stem("..lua"), Some(".".to_string()));
    assert_eq!(lua_file_stem(".lua"), None);
    assert_eq!(lua_file_stem("lua"), None);
    assert_eq!(lua_file_stem("x.luac"), None);
    assert_eq!(lua_file_stem("x.LUA"), None);
    assert_eq!(lua_file_stem("x."), None);
}

const UPPER: &str = r#"
return {
    prefix = "up_",
    pre_hook = function(ctx) ctx.value = string.upper(ctx.value) end,
    post_hook = function(ctx) ctx.result = "<" .. ctx.result .. ">" end,
}
"#;

const UNIQUE: &str = r#"
return {
    pre_hook = function(ctx)
        local other = ctx.get_key_by_value(ctx.value)
        if other ~= nil and other ~= ctx.key then
            error("valor repetido em " .. other)
        end
    end,
}
"#;

#[test]
fn hooks_rewrite_and_format_values() {
    let mut ext = ExtensionManager::new();
    ext.add_extension("upper.lua", UPPER);
    let mut storage = Storage::new();
    let pre = ext.trigger_pre_hook(&storage, "ADD", Some("up_a"), Some("abc")).0;
    assert_eq!(pre, Ok(Some("ABC".to_string())));
    storage.add("up_a", "ABC");
    let post = ext.trigger_post_hook(&storage, "GET", Some("up_a"), None, Some("ABC")).0;
    assert_eq!(post, Ok(Some("<ABC>".to_string())));
    let untouched = ext.trigger_pre_hook(&storage, "ADD", Some("other"), Some("abc")).0;
    assert_eq!(untouched, Ok(Some("abc".to_string())));
    let no_key = ext.trigger_post_hook(&storage, "EXIT", None, None, None).0;
    assert_eq!(no_key, Ok(None));
}

#[test]
fn hooks_can_query_the_store_and_refuse() {
    let mut ext = ExtensionManager::new();
    ext.add_extension("uniq.lua", UNIQUE);
    let mut storage = Storage::new();
    assert_eq!(
        ext.trigger_pre_hook(&storage, "ADD", Some("uniq_1"), Some("v")).0,
        Ok(Some("v".to_string()))
    );
    storage.add("uniq_1", "v");
    assert_eq!(
        ext.trigger_pre_hook(&storage, "ADD", Some("uniq_1"), Some("v")).0,
        Ok(Some("v".to_string()))
    );
    assert_eq!(
        ext.trigger_pre_hook(&storage, "ADD", Some("uniq_2"), Some("v")).0,
        Err(DatabaseError::Extension("valor repetido em uniq_1".to_string()))
    );
}

#[test]
fn sources_that_are_not_extensions_are_skipped() {
    let mut ext = ExtensionManager::new();
    ext.add_extension("notes.txt", UPPER);
    ext.add_extension("blank.lua", "  \n\t ");
    ext.add_extension("broken.lua", "return {");
    ext.add_extension("number.lua", "return 42");
    let storage = Storage::new();
    assert_eq!(
        ext.trigger_pre_hook(&storage, "ADD", Some("up_a"), Some("abc")).0,
        Ok(Some("abc".to_string()))
    );
    assert_eq!(
        ext.trigger_pre_hook(&storage, "ADD", Some("broken_a"), Some("abc")).0,
        Ok(Some("abc".to_string()))
    );
}

#[test]
fn declared_prefix_wins_over_the_stem() {
    assert_eq!(extension_prefix(Some("p_".to_string()), "cpf"), "p_");
    assert_eq!(extension_prefix(None, "cpf"), "cpf_");
    assert_eq!(extension_prefix(None, ""), "_");
}

#[test]
fn extension_without_prefix_is_chosen_by_its_file_stem() {
    let mut ext = ExtensionManager::new();
    ext.add_extension(
        "cpf.lua",
        "return { pre_hook = function(ctx) ctx.value = ctx.value .. '!' end }",
    );
    let storage = Storage::new();
    assert_eq!(
        ext.trigger_pre_hook(&storage, "ADD", Some("cpf_1"), Some("a")).0,
        Ok(Some("a!".to_string()))
    );
    assert_eq!(
        ext.trigger_pre_hook(&storage, "ADD", Some("cpf1"), Some("a")).0,
        Ok(Some("a".to_string()))
    );
}

#[test]
fn every_chosen_extension_runs_in_load_order() {
    let mut ext = ExtensionManager::new();
    ext.add_extension(
        "first.lua",
        "return { prefix = 'k', pre_hook = function(ctx) ctx.value = ctx.value .. '1' end }",
    );
    ext.add_extension(
        "second.lua",
        "return { prefix = 'key', pre_hook = function(ctx) ctx.value = ctx.value .. '2' end }",
    );
    let storage = Storage::new();
    assert_eq!(
        ext.trigger_pre_hook(&storage, "ADD", Some("key_a"), Some("v")).0,
        Ok(Some("v12".to_string()))
    );
    assert_eq!(
        ext.trigger_pre_hook(&storage, "ADD", Some("kx"), Some("v")).0,
        Ok(Some("v1".to_string()))
    );
}

use banco_memoria::extension_manager::{context_fields, hook_reply, HookOutcome};

#[test]
fn context_fields_hold_what_is_present() {
    let f = context_fields("ADD", Some("k"), Some("v"), None);
    assert_eq!(
        f,
        vec![
            ("command".to_string(), "ADD".to_string()),
            ("key".to_string(), "k".to_string()),
            ("value".to_string(), "v".to_string()),
        ]
    );
    let g = context_fields("GET", Some("k"), None, Some("r"));
    assert_eq!(
        g,
        vec![
            ("command".to_string(), "GET".to_string()),
            ("key".to_string(), "k".to_string()),
            ("result".to_string(), "r".to_string()),
        ]
    );
}

#[test]
fn hook_reply_takes_the_first_failure() {
    let outcomes = vec![
        HookOutcome::Ran,
        HookOutcome::Skipped,
        HookOutcome::Failed(LuaFailure::Runtime("a.lua:1: primeira".to_string())),
        HookOutcome::Failed(LuaFailure::Runtime("b.lua:1: segunda".to_string())),
    ];
    assert_eq!(
        hook_reply(&outcomes, Some(Some("x".to_string())), Some("f")),
        Err(DatabaseError::Extension("primeira".to_string()))
    );
    let ran = vec![HookOutcome::Ran, HookOutcome::Skipped];
    assert_eq!(hook_reply(&ran, Some(Some("x".to_string())), Some("f")), Ok(Some("x".to_string())));
    assert_eq!(hook_reply(&ran, Some(None), Some("f")), Ok(None));
    assert_eq!(hook_reply(&ran, None, Some("f")), Ok(Some("f".to_string())));
    assert_eq!(hook_reply(&ran, None, None), Ok(None));
}

#[test]
fn a_failing_hook_stops_the_later_ones() {
    let mut ext = ExtensionManager::new();
    ext.add_extension(
        "a.lua",
        "return { prefix = 'k', pre_hook = function(ctx) error('recusado') end }",
    );
    ext.add_extension(
        "b.lua",
        "return { prefix = 'k', pre_hook = function(ctx) error('nunca') end }",
    );
    let storage = Storage::new();
    assert_eq!(
        ext.trigger_pre_hook(&storage, "ADD", Some("k1"), Some("v")).0,
        Err(DatabaseError::Extension("recusado".to_string()))
    );
}

#[test]
fn unreadable_answer_falls_back_and_nil_gives_none() {
    let mut ext = ExtensionManager::new();
    ext.add_extension(
        "t.lua",
        "return { prefix = 't', pre_hook = function(ctx) ctx.value = {} end, post_hook = function(ctx) ctx.result = nil end }",
    );
    let storage = Storage::new();
    assert_eq!(
        ext.trigger_pre_hook(&storage, "ADD", Some("t1"), Some("v")).0,
        Ok(Some("v".to_string()))
    );
    assert_eq!(
        ext.trigger_post_hook(&storage, "GET", Some("t1"), None, Some("r")).0,
        Ok(None)
    );
}

#[test]
fn context_carries_command_key_value_and_result() {
    let mut ext = ExtensionManager::new();
    ext.add_extension(
        "c.lua",
        "return { prefix = 'c', post_hook = function(ctx) ctx.result = ctx.command .. '|' .. ctx.key .. '|' .. tostring(ctx.value) .. '|' .. ctx.result end }",
    );
    let storage = Storage::new();
    assert_eq!(
        ext.trigger_post_hook(&storage, "GET", Some("c1"), None, Some("r")).0,
        Ok(Some("GET|c1|nil|r".to_string()))
    );
}

#[test]
fn register_uses_the_declared_prefix_or_the_stem() {
    let lua = mlua::Lua::new();
    let mut ext = ExtensionManager::new();
    let t = lua.create_table().unwrap();
    let key = lua.create_registry_value(t).unwrap();
    ext.register(key, None, "stem");
    let storage = Storage::new();
    // The key belongs to another interpreter, so its table cannot be read:
    // the extension is chosen but skipped, and the value comes back.
    assert_eq!(
        ext.trigger_pre_hook(&storage, "ADD", Some("stem_1"), Some("v")).0,
        Ok(Some("v".to_string()))
    );
}
