use banco_memoria::error::DatabaseError;

#[test]
fn test_display_format() {
    assert_eq!(DatabaseError::NotFound.to_string(), "ERRO: chave inexistente");
    assert_eq!(
        DatabaseError::Syntax("comando desconhecido: FOO".to_string()).to_string(),
        "ERRO: comando desconhecido: FOO"
    );
    assert_eq!(
        DatabaseError::Extension("CPF inválido".to_string()).to_string(),
        "ERRO: CPF inválido"
    );
    assert_eq!(
        DatabaseError::Io("falha de leitura".to_string()).to_string(),
        "ERRO: falha de leitura"
    );
}

#[test]
fn test_from_io_error() {
    let io_err = std::io::Error::new(std::io::ErrorKind::BrokenPipe, "pipe quebrado");
    let db_err: DatabaseError = io_err.into();
    assert_eq!(db_err, DatabaseError::Io("pipe quebrado".to_string()));
}

#[test]
fn message_leaves_out_the_tag() {
    assert_eq!(DatabaseError::NotFound.message(), "chave inexistente");
    assert_eq!(DatabaseError::Syntax("x y".to_string()).message(), "x y");
    assert_eq!(DatabaseError::Extension("".to_string()).message(), "");
    assert_eq!(DatabaseError::Extension("".to_string()).to_string(), "ERRO: ");
}
