//! The errors that the database reports to its user.

use vstd::prelude::*;
use vstd::string::*;

verus! {

/// An error answered to a command: a missing key, a malformed command, a
/// value refused by an extension, or a failed read of the input.
#[derive(Debug, PartialEq, Eq)]
pub enum DatabaseError {
    NotFound,
    Syntax(String),
    Extension(String),
    Io(String),
}

/// The mathematical value of a [`DatabaseError`]: the same variants, with
/// the texts as character sequences.
pub enum ErrorView {
    NotFound,
    Syntax(Seq<char>),
    Extension(Seq<char>),
    Io(Seq<char>),
}

impl View for DatabaseError {
    type V = ErrorView;

    open spec fn view(&self) -> ErrorView {
        match self {
            DatabaseError::NotFound => ErrorView::NotFound,
            DatabaseError::Syntax(m) => ErrorView::Syntax(m@),
            DatabaseError::Extension(m) => ErrorView::Extension(m@),
            DatabaseError::Io(m) => ErrorView::Io(m@),
        }
    }
}

/// The text answered for a key that is not stored.
pub open spec fn not_found_text() -> Seq<char> {
    "chave inexistente"@
}

/// The prefix of every error line.
pub open spec fn error_tag() -> Seq<char> {
    "ERRO: "@
}

impl ErrorView {
    /// The message of an error: a fixed text for a missing key, the carried
    /// text otherwise.
    pub open spec fn message(self) -> Seq<char> {
        match self {
            ErrorView::NotFound => not_found_text(),
            ErrorView::Syntax(m) => m,
            ErrorView::Extension(m) => m,
            ErrorView::Io(m) => m,
        }
    }

    /// The line by which an error is shown: `ERRO: ` and its message.
    pub open spec fn display(self) -> Seq<char> {
        error_tag() + self.message()
    }
}

impl DatabaseError {
    /// The message of the error, without the `ERRO: ` tag.
    pub fn message(&self) -> (m: &str)
        ensures
            m@ == self@.message(),
    {
        match self {
            DatabaseError::NotFound => "chave inexistente",
            DatabaseError::Syntax(msg) => msg.as_str(),
            DatabaseError::Extension(msg) => msg.as_str(),
            DatabaseError::Io(msg) => msg.as_str(),
        }
    }

    /// The error as it is shown to the user: `ERRO: ` followed by its message.
    pub fn to_string(&self) -> (s: String)
        ensures
            s@ == self@.display(),
    {
        let mut s = String::from_str("ERRO: ");
        s.append(self.message());
        s
    }
}

#[verifier::external_type_specification]
#[verifier::external_body]
pub struct ExIoError(std::io::Error);

impl From<std::io::Error> for DatabaseError {
    /// A failed read becomes an `Io` error carrying the text by which the
    /// standard library displays it.
    fn from(err: std::io::Error) -> (e: DatabaseError)
        ensures
            e is Io,
            to_string_from_display_ensures::<std::io::Error>(&err, e->Io_0),
    {
        DatabaseError::Io(err.to_string())
    }
}

/// The text that the standard library shows for an I/O error can depend on
/// the operating system's messages, so no function of the error gives it:
/// `from` is described only by its own `ensures`.
impl vstd::std_specs::convert::FromSpecImpl<std::io::Error> for DatabaseError {
    open spec fn obeys_from_spec() -> bool {
        false
    }

    open spec fn from_spec(v: std::io::Error) -> DatabaseError {
        arbitrary()
    }
}

} // verus!
