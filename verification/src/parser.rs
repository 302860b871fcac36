//! The command language: `ADD <key> <value...>`, `GET <key>` and `EXIT`,
//! with case-insensitive command names and words separated by white space.

use vstd::prelude::*;
use vstd::string::*;

use crate::error::{DatabaseError, ErrorView};
use crate::text::{chars_of, opt_view, same_chars, split_words, string_of, views, words};

verus! {

/// A parsed command.
#[derive(Debug, PartialEq, Eq)]
pub enum Command {
    Add { key: String, value: String },
    Get { key: String },
    Exit,
}

/// The mathematical value of a [`Command`].
pub enum CommandView {
    Add { key: Seq<char>, value: Seq<char> },
    Get { key: Seq<char> },
    Exit,
}

impl View for Command {
    type V = CommandView;

    open spec fn view(&self) -> CommandView {
        match self {
            Command::Add { key, value } => CommandView::Add { key: key@, value: value@ },
            Command::Get { key } => CommandView::Get { key: key@ },
            Command::Exit => CommandView::Exit,
        }
    }
}

impl CommandView {
    /// The name of the command, in upper case.
    pub open spec fn name(self) -> Seq<char> {
        match self {
            CommandView::Add { .. } => "ADD"@,
            CommandView::Get { .. } => "GET"@,
            CommandView::Exit => "EXIT"@,
        }
    }

    /// The key and the value that the command carries.
    pub open spec fn params(self) -> (Option<Seq<char>>, Option<Seq<char>>) {
        match self {
            CommandView::Add { key, value } => (Some(key), Some(value)),
            CommandView::Get { key } => (Some(key), None),
            CommandView::Exit => (None, None),
        }
    }
}

impl Command {
    /// The command's name: `ADD`, `GET` or `EXIT`.
    pub fn as_str(&self) -> (s: &'static str)
        ensures
            s@ == self@.name(),
    {
        match self {
            Command::Add { .. } => "ADD",
            Command::Get { .. } => "GET",
            Command::Exit => "EXIT",
        }
    }

    /// The key and the value of the command, where it has them.
    pub fn params_as_tuple(&self) -> (r: (Option<&str>, Option<&str>))
        ensures
            (opt_view(r.0), opt_view(r.1)) == self@.params(),
    {
        match self {
            Command::Add { key, value } => (Some(key.as_str()), Some(value.as_str())),
            Command::Get { key } => (Some(key.as_str()), None),
            Command::Exit => (None, None),
        }
    }
}

/// ASCII upper case of one character, as `char::to_ascii_uppercase`.
pub open spec fn upper_char(c: char) -> char {
    if 'a' <= c && c <= 'z' {
        ((c as u32) - 32) as char
    } else {
        c
    }
}

/// ASCII upper case of a text, as `str::to_ascii_uppercase`.
pub open spec fn upper(s: Seq<char>) -> Seq<char> {
    s.map_values(|c: char| upper_char(c))
}

/// Words joined by single spaces, as `[&str]::join(" ")`.
pub open spec fn joined(ws: Seq<Seq<char>>) -> Seq<char>
    decreases ws.len(),
{
    if ws.len() == 0 {
        seq![]
    } else if ws.len() == 1 {
        ws[0]
    } else {
        joined(ws.drop_last()) + seq![' '] + ws.last()
    }
}

/// The error text for an empty line.
pub open spec fn no_command_text() -> Seq<char> {
    "nenhum comando fornecido"@
}

/// The error text for `ADD` or `GET` without a key.
pub open spec fn no_key_text() -> Seq<char> {
    "chave não informada"@
}

/// The error text for `ADD` without a value.
pub open spec fn no_value_text() -> Seq<char> {
    "valor não informado"@
}

/// The error text for words left over after a complete command.
pub open spec fn too_many_text() -> Seq<char> {
    "número excessivo de argumentos"@
}

/// The error text for an unknown command name.
pub open spec fn unknown_text(name: Seq<char>) -> Seq<char> {
    "comando desconhecido: "@ + name
}

/// What a line of input means: the command it names, or the syntax error
/// that it is answered with.
pub open spec fn parse_spec(input: Seq<char>) -> Result<CommandView, ErrorView> {
    let w = words(input);
    if w.len() == 0 {
        Err(ErrorView::Syntax(no_command_text()))
    } else {
        let name = upper(w[0]);
        if name == "ADD"@ {
            if w.len() < 2 {
                Err(ErrorView::Syntax(no_key_text()))
            } else if joined(w.skip(2)).len() == 0 {
                Err(ErrorView::Syntax(no_value_text()))
            } else {
                Ok(CommandView::Add { key: w[1], value: joined(w.skip(2)) })
            }
        } else if name == "GET"@ {
            if w.len() < 2 {
                Err(ErrorView::Syntax(no_key_text()))
            } else if w.len() > 2 {
                Err(ErrorView::Syntax(too_many_text()))
            } else {
                Ok(CommandView::Get { key: w[1] })
            }
        } else if name == "EXIT"@ {
            if w.len() > 1 {
                Err(ErrorView::Syntax(too_many_text()))
            } else {
                Ok(CommandView::Exit)
            }
        } else {
            Err(ErrorView::Syntax(unknown_text(name)))
        }
    }
}

/// The view of a parse outcome.
pub open spec fn result_view(r: Result<Command, DatabaseError>) -> Result<CommandView, ErrorView> {
    match r {
        Ok(c) => Ok(c@),
        Err(e) => Err(e@),
    }
}

/// The characters of `s` in ASCII upper case.
fn upper_chars(s: &String) -> (v: Vec<char>)
    ensures
        v@ == upper(s@),
{
    let cs = chars_of(s.as_str());
    let mut v: Vec<char> = Vec::new();
    let mut i: usize = 0;
    while i < cs.len()
        invariant
            i <= cs.len(),
            cs@ == s@,
            v@ == upper(cs@.take(i as int)),
        decreases cs.len() - i,
    {
        let c = cs[i];
        let u = if 'a' <= c && c <= 'z' {
            let b: u8 = (c as u8) - 32;
            b as char
        } else {
            c
        };
        assert(u == upper_char(c)) by {
            if 'a' <= c && c <= 'z' {
                assert((c as u8) == (c as u32));
            }
        }
        v.push(u);
        assert(upper(cs@.take(i + 1)) =~= upper(cs@.take(i as int)).push(upper_char(c)));
        i = i + 1;
    }
    assert(cs@.take(cs@.len() as int) == cs@);
    v
}

/// A syntax error with the text `msg`.
fn syntax_error(msg: &str) -> (e: DatabaseError)
    ensures
        e@ == ErrorView::Syntax(msg@),
{
    DatabaseError::Syntax(String::from_str(msg))
}

/// The key of a command: its second word.
fn get_key(tokens: &Vec<String>) -> (r: Result<String, DatabaseError>)
    ensures
        match r {
            Ok(k) => tokens@.len() >= 2 && k@ == tokens@[1]@,
            Err(e) => tokens@.len() < 2 && e@ == ErrorView::Syntax(no_key_text()),
        },
{
    if tokens.len() < 2 {
        return Err(syntax_error("chave não informada"));
    }
    Ok(tokens[1].clone())
}

/// The words `tokens[from..]` joined by single spaces.
fn join_from(tokens: &Vec<String>, from: usize) -> (s: String)
    requires
        from <= tokens@.len(),
    ensures
        s@ == joined(views(tokens@).skip(from as int)),
{
    let ghost all = views(tokens@);
    let mut s = String::new();
    let mut i: usize = from;
    while i < tokens.len()
        invariant
            from <= i <= tokens@.len(),
            all == views(tokens@),
            s@ == joined(all.subrange(from as int, i as int)),
        decreases tokens.len() - i,
    {
        let ghost before = all.subrange(from as int, i as int);
        let ghost after = all.subrange(from as int, i + 1);
        assert(after.drop_last() == before);
        assert(after.last() == tokens@[i as int]@);
        if i > from {
            s.append(" ");
            proof {
                reveal_strlit(" ");
            }
        }
        s.append(tokens[i].as_str());
        i = i + 1;
    }
    assert(all.subrange(from as int, tokens@.len() as int) == all.skip(from as int));
    s
}

/// Reads one line of input as a command.
pub fn parse(input: &str) -> (r: Result<Command, DatabaseError>)
    ensures
        result_view(r) == parse_spec(input@),
{
    let tokens = split_words(input);
    let ghost w = words(input@);
    assert(views(tokens@) == w);
    if tokens.len() == 0 {
        return Err(syntax_error("nenhum comando fornecido"));
    }
    assert(w[0] == tokens@[0]@);
    let name = upper_chars(&tokens[0]);
    let add = chars_of("ADD");
    let get = chars_of("GET");
    let exit = chars_of("EXIT");
    if same_chars(&name, &add) {
        let key = get_key(&tokens)?;
        assert(key@ == w[1]);
        let value = join_from(&tokens, 2);
        if value.as_str().is_empty() {
            return Err(syntax_error("valor não informado"));
        }
        return Ok(Command::Add { key, value });
    }
    let command = if same_chars(&name, &get) {
        let key = get_key(&tokens)?;
        assert(key@ == w[1]);
        Command::Get { key }
    } else if same_chars(&name, &exit) {
        Command::Exit
    } else {
        let mut msg = String::from_str("comando desconhecido: ");
        let shown = string_of(&name);
        msg.append(shown.as_str());
        return Err(DatabaseError::Syntax(msg));
    };
    let expected: usize = if command.is_exit() { 1 } else { 2 };
    if tokens.len() > expected {
        return Err(syntax_error("número excessivo de argumentos"));
    }
    Ok(command)
}

impl Command {
    /// Whether the command is `EXIT`.
    fn is_exit(&self) -> (b: bool)
        ensures
            b == (self is Exit),
    {
        match self {
            Command::Exit => true,
            _ => false,
        }
    }
}

} // verus!
