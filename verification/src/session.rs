//! One step of the interactive session: a line of input is parsed, passed
//! through the extensions' hooks, applied to the store, and answered.

use vstd::prelude::*;
use vstd::string::*;

use crate::error::{DatabaseError, ErrorView};
use crate::extension_manager::{answer_view, run_fits, selects, ExtensionManager, HookKind, TriggerRun};
use crate::parser::{parse, parse_spec, Command, CommandView};
use crate::storage::{lookup, Storage};
use crate::text::{has_prefix, opt_string_view, starts_with_text, trim, trim_str};

verus! {

/// The answer to one line of input.
pub enum Reply {
    /// A value was stored: the session shows `OK`.
    Stored,
    /// The text to show for a value that was read.
    Value(String),
    /// The command failed with this error.
    Failed(DatabaseError),
    /// The session ends.
    Exit,
}

/// The mathematical value of a [`Reply`].
pub enum ReplyView {
    Stored,
    Value(Seq<char>),
    Failed(ErrorView),
    Exit,
}

impl View for Reply {
    type V = ReplyView;

    open spec fn view(&self) -> ReplyView {
        match self {
            Reply::Stored => ReplyView::Stored,
            Reply::Value(v) => ReplyView::Value(v@),
            Reply::Failed(e) => ReplyView::Failed(e@),
            Reply::Exit => ReplyView::Exit,
        }
    }
}

/// What a `GET` of `key` answers when no extension is involved.
pub open spec fn read_reply(m: Map<Seq<char>, Seq<char>>, key: Seq<char>) -> ReplyView {
    match lookup(m, key) {
        Some(v) => ReplyView::Value(v),
        None => ReplyView::Failed(ErrorView::NotFound),
    }
}

/// What a line does to the store `m`, and how it is answered, where no
/// extension takes part: a malformed line is answered with its syntax
/// error, `EXIT` ends the session, `ADD` stores the value and `GET` shows
/// the stored value or reports a missing key.
pub open spec fn plain_step(m: Map<Seq<char>, Seq<char>>, line: Seq<char>) -> (
    ReplyView,
    Map<Seq<char>, Seq<char>>,
) {
    match parse_spec(line) {
        Err(e) => (ReplyView::Failed(e), m),
        Ok(CommandView::Exit) => (ReplyView::Exit, m),
        Ok(CommandView::Add { key, value }) => (ReplyView::Stored, m.insert(key, value)),
        Ok(CommandView::Get { key }) => (read_reply(m, key), m),
    }
}

/// Whether an extension is chosen for the key that `line` names.
pub open spec fn involves_extension(ps: Seq<Seq<char>>, line: Seq<char>) -> bool {
    match parse_spec(line) {
        Ok(CommandView::Add { key, .. }) => selects(ps, Some(key)),
        Ok(CommandView::Get { key }) => selects(ps, Some(key)),
        _ => false,
    }
}

/// A hook's answer, as the store session sees it.
pub type HookAnswer = Result<Option<Seq<char>>, ErrorView>;

/// What a line does to the store `m`, and how it is answered, given the
/// answers of the pre-hook and the post-hook: a refused pre-hook answers
/// its error and touches nothing; `ADD` stores the pre-hook's value (or the
/// line's value where the pre-hook gives none) and answers `OK`, or the
/// post-hook's error with the value stored all the same; `GET` reports a
/// missing key, or shows the post-hook's text (or the stored value where
/// the post-hook gives none), or the post-hook's error.
pub open spec fn hooked_step(
    m: Map<Seq<char>, Seq<char>>,
    line: Seq<char>,
    pre: HookAnswer,
    post: HookAnswer,
) -> (ReplyView, Map<Seq<char>, Seq<char>>) {
    match parse_spec(line) {
        Err(e) => (ReplyView::Failed(e), m),
        Ok(CommandView::Exit) => (ReplyView::Exit, m),
        Ok(CommandView::Add { key, value }) => match pre {
            Err(e) => (ReplyView::Failed(e), m),
            Ok(nv) => {
                let v = match nv {
                    Some(x) => x,
                    None => value,
                };
                (stored_reply(post), m.insert(key, v))
            },
        },
        Ok(CommandView::Get { key }) => match pre {
            Err(e) => (ReplyView::Failed(e), m),
            Ok(_) => match lookup(m, key) {
                None => (ReplyView::Failed(ErrorView::NotFound), m),
                Some(val) => (shown_reply(val, post), m),
            },
        },
    }
}

/// The reply to `ADD` once the value is stored: `OK`, or the post-hook's
/// error.
pub open spec fn stored_reply(post: HookAnswer) -> ReplyView {
    match post {
        Err(e) => ReplyView::Failed(e),
        Ok(_) => ReplyView::Stored,
    }
}

/// The reply to `GET` of a stored value `val`: the post-hook's text, or
/// `val` where it gives none, or the post-hook's error.
pub open spec fn shown_reply(val: Seq<char>, post: HookAnswer) -> ReplyView {
    match post {
        Err(e) => ReplyView::Failed(e),
        Ok(Some(f)) => ReplyView::Value(f),
        Ok(None) => ReplyView::Value(val),
    }
}

/// The reply to `ADD` from the post-hook's answer.
pub fn reply_after_store(post: Result<Option<String>, DatabaseError>) -> (r: Reply)
    ensures
        r@ == stored_reply(answer_view(post)),
{
    match post {
        Ok(_) => Reply::Stored,
        Err(e) => Reply::Failed(e),
    }
}

/// The reply to `GET` of the stored value `val` from the post-hook's
/// answer.
pub fn reply_after_read(val: String, post: Result<Option<String>, DatabaseError>) -> (r: Reply)
    ensures
        r@ == shown_reply(val@, answer_view(post)),
{
    match post {
        Ok(Some(formatted)) => Reply::Value(formatted),
        Ok(None) => Reply::Value(val),
        Err(e) => Reply::Failed(e),
    }
}

/// The trigger runs of one line: the pre-hook's, where the line parsed,
/// and the post-hook's, where the command got that far.
pub struct LineRun {
    pub pre: Option<TriggerRun>,
    pub post: Option<TriggerRun>,
}

/// The answer of a trigger run, or no text where there was none.
pub open spec fn answer_of(run: Option<TriggerRun>) -> HookAnswer {
    match run {
        Some(t) => t.answer,
        None => Ok(None),
    }
}

/// The value that `ADD` stores: the pre-hook's text, or the line's value
/// where it gives none.
pub open spec fn stored_value(pre: HookAnswer, value: Seq<char>) -> Seq<char> {
    match pre {
        Ok(Some(v)) => v,
        _ => value,
    }
}

/// The triggers of a line were run for what they are for, over extensions
/// with the prefixes `ps` and registry keys `keys`: the pre-hook with the
/// parsed command's name, key and value, its hooks querying the store `m`
/// as it was; after a pre-hook that did not refuse, the post-hook of `ADD`
/// with the key and the stored value, its hooks querying the store with
/// that value in it, and the post-hook of `GET` with the key and the stored
/// text, its hooks querying `m`, where the key is stored; no trigger
/// otherwise.
pub open spec fn line_fits(
    ps: Seq<Seq<char>>,
    keys: Seq<mlua::RegistryKey>,
    m: Map<Seq<char>, Seq<char>>,
    line: Seq<char>,
    run: LineRun,
) -> bool {
    match parse_spec(line) {
        Err(_) => run.pre is None && run.post is None,
        Ok(c) => match run.pre {
            None => false,
            Some(p) => {
                &&& run_fits(p, ps, keys, m, HookKind::Pre, c.name(), c.params().0, c.params().1, None)
                &&& match c {
                    CommandView::Add { key, value } => match p.answer {
                        Err(_) => run.post is None,
                        Ok(_) => match run.post {
                            Some(q) => run_fits(
                                q,
                                ps,
                                keys,
                                m.insert(key, stored_value(p.answer, value)),
                                HookKind::Post,
                                "ADD"@,
                                Some(key),
                                Some(stored_value(p.answer, value)),
                                None,
                            ),
                            None => false,
                        },
                    },
                    CommandView::Get { key } => match (p.answer, lookup(m, key)) {
                        (Ok(_), Some(val)) => match run.post {
                            Some(q) => run_fits(
                                q,
                                ps,
                                keys,
                                m,
                                HookKind::Post,
                                "GET"@,
                                Some(key),
                                None,
                                Some(val),
                            ),
                            None => false,
                        },
                        _ => run.post is None,
                    },
                    CommandView::Exit => run.post is None,
                }
            },
        },
    }
}

/// Runs one line of input against the store.
///
/// The triggers are run for what the line asks ([`line_fits`]), and the
/// reply and the new store are [`hooked_step`] of their answers; where no
/// extension is chosen for the line's key, this is exactly [`plain_step`].
/// The second result records the trigger runs.
pub fn run_line(ext: &ExtensionManager, storage: &mut Storage, line: &str) -> (r: (Reply, Ghost<LineRun>))
    ensures
        !involves_extension(ext.prefixes(), line@) ==> (r.0@, final(storage)@) == plain_step(
            old(storage)@,
            line@,
        ),
        line_fits(ext.prefixes(), ext.registry_keys(), old(storage)@, line@, r.1@),
        (r.0@, final(storage)@) == hooked_step(
            old(storage)@,
            line@,
            answer_of(r.1@.pre),
            answer_of(r.1@.post),
        ),
        answer_of(r.1@.pre) matches Err(e) ==> r.0@ == ReplyView::Failed(e),
        answer_of(r.1@.post) matches Err(e) ==> r.0@ == ReplyView::Failed(e),
        parse_spec(line@) matches Ok(CommandView::Get { .. }) ==> (answer_of(r.1@.post) matches Ok(
            Some(f),
        ) ==> r.0@ == ReplyView::Value(f)),
{
    let ghost m = storage@;
    let cmd = match parse(line) {
        Ok(c) => c,
        Err(e) => return (Reply::Failed(e), Ghost(LineRun { pre: None, post: None })),
    };
    let (pre_answer, pre_run) = {
        let (k, v) = cmd.params_as_tuple();
        ext.trigger_pre_hook(storage, cmd.as_str(), k, v)
    };
    let rewritten = match pre_answer {
        Ok(nv) => nv,
        Err(e) => {
            return (Reply::Failed(e), Ghost(LineRun { pre: Some(pre_run@), post: None }));
        },
    };
    match cmd {
        Command::Add { key, value } => {
            let value = match rewritten {
                Some(nv) => nv,
                None => value,
            };
            storage.add(key.as_str(), value.as_str());
            let (post, post_run) = ext.trigger_post_hook(storage, "ADD", Some(key.as_str()), Some(value.as_str()), None);
            let r = reply_after_store(post);
            (r, Ghost(LineRun { pre: Some(pre_run@), post: Some(post_run@) }))
        },
        Command::Get { key } => {
            match storage.get(key.as_str()) {
                Some(found) => {
                    let val = String::from_str(found);
                    let (post, post_run) = ext.trigger_post_hook(storage, "GET", Some(key.as_str()), None, Some(val.as_str()));
                    let r = reply_after_read(val, post);
                    (r, Ghost(LineRun { pre: Some(pre_run@), post: Some(post_run@) }))
                },
                None => (Reply::Failed(DatabaseError::NotFound), Ghost(LineRun { pre: Some(pre_run@), post: None })),
            }
        },
        Command::Exit => (Reply::Exit, Ghost(LineRun { pre: Some(pre_run@), post: None })),
    }
}

/// The line by which an error message is shown: trimmed, and tagged with
/// `ERRO: ` unless it already starts with `ERRO:`.
pub open spec fn error_line_spec(message: Seq<char>) -> Seq<char> {
    let t = trim(message);
    if has_prefix(t, "ERRO:"@) {
        t
    } else {
        "ERRO: "@ + t
    }
}

/// The line by which an error message is shown.
pub fn error_line(message: &str) -> (r: String)
    ensures
        r@ == error_line_spec(message@),
{
    let t = trim_str(message);
    if starts_with_text(t.as_str(), "ERRO:") {
        t
    } else {
        let mut line = String::from_str("ERRO: ");
        line.append(t.as_str());
        line
    }
}

} // verus!
