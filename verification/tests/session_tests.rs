use banco_memoria::extension_manager::ExtensionManager;
use banco_memoria::session::{error_line, run_line, Reply};
use banco_memoria::storage::Storage;

fn run_pipeline(ext: &ExtensionManager, commands: &[&str]) -> Vec<String> {
    let mut storage = Storage::new();
    let mut out = Vec::new();
    for cmd in commands {
        match run_line(ext, &mut storage, cmd).0 {
            Reply::Stored => out.push("OK".to_string()),
            Reply::Value(v) => out.push(v),
            Reply::Failed(e) => out.push(error_line(&e.to_string())),
            Reply::Exit => break,
        }
    }
    out
}

#[test]
fn test_cli_pipe_basic() {
    let ext = ExtensionManager::new();
    let output = run_pipeline(
        &ext,
        &[
            "ADD chave1 valor1",
            "GET chave1",
            "ADD chave1 novo_valor",
            "GET chave1",
            "EXIT",
        ],
    );

    assert_eq!(output, vec!["OK", "valor1", "OK", "novo_valor"]);
}

#[test]
fn test_cli_pipe_errors() {
    let ext = ExtensionManager::new();
    let output = run_pipeline(
        &ext,
        &[
            "GET chave_inexistente",
            "COMANDO_INVALIDO",
            "ADD",
            "ADD chave_sem_valor",
            "GET",
            "GET chave extra",
            "EXIT",
        ],
    );

    assert_eq!(
        output,
        vec![
            "ERRO: chave inexistente",
            "ERRO: comando desconhecido: COMANDO_INVALIDO",
            "ERRO: chave não informada",
            "ERRO: valor não informado",
            "ERRO: chave não informada",
            "ERRO: número excessivo de argumentos",
        ]
    );
}

#[test]
fn exit_stops_the_session() {
    let ext = ExtensionManager::new();
    let output = run_pipeline(&ext, &["ADD a 1", "exit", "GET a"]);
    assert_eq!(output, vec!["OK"]);
}

#[test]
fn extensions_take_part_in_the_session() {
    let mut ext = ExtensionManager::new();
    ext.add_extension(
        "num.lua",
        r##"
return {
    pre_hook = function(ctx)
        if ctx.command ~= "ADD" then return end
        if not string.match(ctx.value, "^%d+$") then error("não é número") end
        ctx.value = ctx.value .. "0"
    end,
    post_hook = function(ctx)
        if ctx.command == "GET" then ctx.result = "#" .. ctx.result end
    end,
}
"##,
    );
    let output = run_pipeline(
        &ext,
        &["ADD num_a 12", "GET num_a", "ADD num_b x1", "GET num_b", "ADD plain x1", "GET plain"],
    );
    assert_eq!(
        output,
        vec!["OK", "#120", "ERRO: não é número", "ERRO: chave inexistente", "OK", "x1"]
    );
}

#[test]
fn error_lines() {
    assert_eq!(error_line("  falhou "), "ERRO: falhou");
    assert_eq!(error_line("ERRO: já marcado"), "ERRO: já marcado");
    assert_eq!(error_line("ERRO:colado"), "ERRO:colado");
    assert_eq!(error_line(""), "ERRO: ");
}

use banco_memoria::error::DatabaseError;
use banco_memoria::session::{reply_after_read, reply_after_store};

#[test]
fn replies_follow_the_post_hook() {
    assert!(matches!(reply_after_store(Ok(None)), Reply::Stored));
    assert!(matches!(
        reply_after_store(Err(DatabaseError::Extension("x".to_string()))),
        Reply::Failed(DatabaseError::Extension(_))
    ));
    assert!(matches!(reply_after_read("v".to_string(), Ok(None)), Reply::Value(v) if v == "v"));
    assert!(matches!(
        reply_after_read("v".to_string(), Ok(Some("f".to_string()))),
        Reply::Value(v) if v == "f"
    ));
}

#[test]
fn a_failed_post_hook_on_add_is_reported_and_the_value_stays() {
    let mut ext = ExtensionManager::new();
    ext.add_extension(
        "p.lua",
        "return { post_hook = function(ctx) if ctx.command == 'ADD' then error('depois') end end }",
    );
    let output = run_pipeline(&ext, &["ADD p_1 v", "GET p_1"]);
    assert_eq!(output, vec!["ERRO: depois", "v"]);
}

#[test]
fn the_add_post_hook_sees_the_stored_value() {
    let mut ext = ExtensionManager::new();
    ext.add_extension(
        "seen.lua",
        r#"
return {
    pre_hook = function(ctx) if ctx.command == 'ADD' then ctx.value = ctx.value .. '!' end end,
    post_hook = function(ctx)
        if ctx.command == 'ADD' and ctx.get(ctx.key) ~= ctx.value then
            error('ainda não gravado')
        end
    end,
}
"#,
    );
    let output = run_pipeline(&ext, &["ADD seen_1 a", "GET seen_1"]);
    assert_eq!(output, vec!["OK", "a!"]);
}
