use banco_memoria::error::DatabaseError;
use banco_memoria::parser::{parse, Command};

#[test]
fn test_parse_add() {
    match parse("ADD user_1 Alice").unwrap() {
        Command::Add { key, value } => {
            assert_eq!(key, "user_1");
            assert_eq!(value, "Alice");
        }
        _ => panic!("Expected Command::Add"),
    }

    match parse("add key multiple words in value").unwrap() {
        Command::Add { key, value } => {
            assert_eq!(key, "key");
            assert_eq!(value, "multiple words in value");
        }
        _ => panic!("Expected Command::Add"),
    }
}

#[test]
fn test_parse_add_errors() {
    assert_eq!(
        parse("ADD").unwrap_err(),
        DatabaseError::Syntax("chave não informada".to_string())
    );
    assert_eq!(
        parse("ADD key").unwrap_err(),
        DatabaseError::Syntax("valor não informado".to_string())
    );
    assert_eq!(
        parse("ADD key    ").unwrap_err(),
        DatabaseError::Syntax("valor não informado".to_string())
    );
}

#[test]
fn test_parse_get() {
    match parse("GET user_1").unwrap() {
        Command::Get { key } => assert_eq!(key, "user_1"),
        _ => panic!("Expected Command::Get"),
    }

    match parse("get user_1").unwrap() {
        Command::Get { key } => assert_eq!(key, "user_1"),
        _ => panic!("Expected Command::Get"),
    }
}

#[test]
fn test_parse_get_errors() {
    assert_eq!(
        parse("GET").unwrap_err(),
        DatabaseError::Syntax("chave não informada".to_string())
    );
    assert_eq!(
        parse("GET key extra").unwrap_err(),
        DatabaseError::Syntax("número excessivo de argumentos".to_string())
    );
}

#[test]
fn test_parse_exit() {
    assert!(matches!(parse("EXIT").unwrap(), Command::Exit));
    assert!(matches!(parse("exit").unwrap(), Command::Exit));
    assert_eq!(
        parse("EXIT extra").unwrap_err(),
        DatabaseError::Syntax("número excessivo de argumentos".to_string())
    );
}

#[test]
fn test_parse_empty_and_unknown() {
    assert_eq!(
        parse("").unwrap_err(),
        DatabaseError::Syntax("nenhum comando fornecido".to_string())
    );
    assert_eq!(
        parse("   \t   ").unwrap_err(),
        DatabaseError::Syntax("nenhum comando fornecido".to_string())
    );
    assert_eq!(
        parse("INVALID_CMD key").unwrap_err(),
        DatabaseError::Syntax("comando desconhecido: INVALID_CMD".to_string())
    );
}

#[test]
fn test_command_helpers() {
    let add = Command::Add {
        key: "k".to_string(),
        value: "v".to_string(),
    };
    assert_eq!(add.as_str(), "ADD");
    assert_eq!(add.params_as_tuple(), (Some("k"), Some("v")));

    let get = Command::Get {
        key: "k".to_string(),
    };
    assert_eq!(get.as_str(), "GET");
    assert_eq!(get.params_as_tuple(), (Some("k"), None));

    let exit = Command::Exit;
    assert_eq!(exit.as_str(), "EXIT");
    assert_eq!(exit.params_as_tuple(), (None, None));
}

#[test]
fn value_words_are_joined_by_single_spaces() {
    match parse("  Add\tk1   a \u{00a0} b\u{3000}c  ").unwrap() {
        Command::Add { key, value } => {
            assert_eq!(key, "k1");
            assert_eq!(value, "a b c");
        }
        _ => panic!("Expected Command::Add"),
    }
}

#[test]
fn unknown_command_is_shown_in_upper_case() {
    assert_eq!(
        parse("dEl x").unwrap_err(),
        DatabaseError::Syntax("comando desconhecido: DEL".to_string())
    );
    assert_eq!(
        parse("çadd x").unwrap_err(),
        DatabaseError::Syntax("comando desconhecido: çADD".to_string())
    );
}

#[test]
fn get_with_only_spaces_after_the_key_is_accepted() {
    assert_eq!(
        parse("GET k \n").unwrap(),
        Command::Get { key: "k".to_string() }
    );
    assert_eq!(parse(" eXiT ").unwrap(), Command::Exit);
}
