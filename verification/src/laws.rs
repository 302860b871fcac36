//! Properties of the database as a whole, proved over the models that the
//! operations' contracts use.

use vstd::prelude::*;
use vstd::string::*;

use crate::error::ErrorView;
use crate::extension_manager::{
    clean_message, lemma_first_index, lemma_last_index, lemma_separator_index, without_location, first_failure, load_fits, matching, run_answer, run_fits, selects, HookCall,
    HookKind, HookOutcome, LoadRun, TriggerRun,
};
use crate::parser::{joined, parse_spec, upper, CommandView};
use crate::session::{error_line_spec, hooked_step, plain_step, HookAnswer, ReplyView};
use crate::storage::{holds_value, lookup};
use crate::text::{has_prefix, is_space, lemma_words_shape, trim, trim_end, trim_start, words};

verus! {

/// What is written under a key is what a read of that key gives back.
pub proof fn law_read_after_write(m: Map<Seq<char>, Seq<char>>, key: Seq<char>, value: Seq<char>)
    ensures
        lookup(m.insert(key, value), key) == Some(value),
{
}

/// Writing one key leaves what every other key holds as it was.
pub proof fn law_write_keeps_other_keys(
    m: Map<Seq<char>, Seq<char>>,
    key: Seq<char>,
    other: Seq<char>,
    value: Seq<char>,
)
    requires
        other != key,
    ensures
        lookup(m.insert(key, value), other) == lookup(m, other),
{
}

/// After a write, reverse lookup finds a key for the written value.
pub proof fn law_reverse_lookup_after_write(
    m: Map<Seq<char>, Seq<char>>,
    key: Seq<char>,
    value: Seq<char>,
)
    ensures
        holds_value(m.insert(key, value), value),
{
    let m2 = m.insert(key, value);
    assert(m2.contains_key(key) && m2[key] == value);
}

/// Overwriting the only key that held a value makes reverse lookup of that
/// value find nothing.
pub proof fn law_overwrite_forgets_value(
    m: Map<Seq<char>, Seq<char>>,
    key: Seq<char>,
    old_value: Seq<char>,
    new_value: Seq<char>,
)
    requires
        lookup(m, key) == Some(old_value),
        old_value != new_value,
        forall|k: Seq<char>| k != key && #[trigger] m.contains_key(k) ==> m[k] != old_value,
    ensures
        !holds_value(m.insert(key, new_value), old_value),
{
    let m2 = m.insert(key, new_value);
    assert forall|k: Seq<char>| m2.contains_key(k) implies m2[k] != old_value by {
        if k != key {
            assert(m.contains_key(k));
        }
    }
}

/// A value that another key still holds stays found by reverse lookup when
/// one key is overwritten.
pub proof fn law_overwrite_keeps_shared_value(
    m: Map<Seq<char>, Seq<char>>,
    key: Seq<char>,
    other: Seq<char>,
    value: Seq<char>,
    new_value: Seq<char>,
)
    requires
        other != key,
        lookup(m, other) == Some(value),
    ensures
        holds_value(m.insert(key, new_value), value),
{
    let m2 = m.insert(key, new_value);
    assert(m2.contains_key(other) && m2[other] == value);
}

/// In a session, `GET` of a key answers the value that the last `ADD` of
/// that key stored, where no extension takes part.
pub proof fn law_session_read_after_write(
    m: Map<Seq<char>, Seq<char>>,
    add_line: Seq<char>,
    get_line: Seq<char>,
    key: Seq<char>,
    value: Seq<char>,
)
    requires
        parse_spec(add_line) == Ok::<CommandView, ErrorView>(CommandView::Add { key, value }),
        parse_spec(get_line) == Ok::<CommandView, ErrorView>(CommandView::Get { key }),
    ensures
        plain_step(m, add_line).0 == ReplyView::Stored,
        plain_step(plain_step(m, add_line).1, get_line).0 == ReplyView::Value(value),
{
}

/// A line that is not a valid command, and `EXIT`, leave the store as it
/// was.
pub proof fn law_refused_line_keeps_store(m: Map<Seq<char>, Seq<char>>, line: Seq<char>)
    requires
        parse_spec(line) is Err || parse_spec(line) == Ok::<CommandView, ErrorView>(
            CommandView::Exit,
        ),
    ensures
        plain_step(m, line).1 == m,
{
}

/// With no extension loaded, no key ever selects one.
pub proof fn law_no_extension_selects_nothing(key: Option<Seq<char>>)
    ensures
        !selects(Seq::<Seq<char>>::empty(), key),
{
    if let Some(k) = key {
        assert(matching(Seq::<Seq<char>>::empty(), k) == Seq::<int>::empty());
    }
}

/// Command names are read without regard to ASCII case.
pub proof fn law_command_names_ignore_case(a: Seq<char>, b: Seq<char>)
    requires
        words(a).len() > 0,
        words(a).len() == words(b).len(),
        upper(words(a)[0]) == upper(words(b)[0]),
        words(a).skip(1) == words(b).skip(1),
    ensures
        parse_spec(a) == parse_spec(b),
{
    assert(words(a)[1] == words(a).skip(1)[0] || words(a).len() < 2);
    if words(a).len() >= 2 {
        assert(words(a)[1] == words(a).skip(1)[0]);
        assert(words(b)[1] == words(b).skip(1)[0]);
        assert(words(a).skip(2) == words(a).skip(1).skip(1));
        assert(words(b).skip(2) == words(b).skip(1).skip(1));
    }
}

/// Every line that shows an error starts with the `ERRO:` tag.
pub proof fn law_error_lines_are_tagged(message: Seq<char>)
    ensures
        has_prefix(error_line_spec(message), "ERRO:"@),
{
    reveal_strlit("ERRO:");
    reveal_strlit("ERRO: ");
    let t = trim(message);
    if !has_prefix(t, "ERRO:"@) {
        assert(("ERRO: "@ + t).take(5) =~= "ERRO:"@);
    }
}


/// A non-empty run without white space is one word.
proof fn lemma_words_of_one_word(w: Seq<char>, j: int)
    requires
        1 <= j <= w.len(),
        forall|i: int| 0 <= i < w.len() ==> !is_space(#[trigger] w[i]),
    ensures
        words(w.take(j)) == seq![w.take(j)],
    decreases j,
{
    let x = w.take(j);
    assert(x.last() == w[j - 1]);
    assert(!is_space(x.last()));
    if j == 1 {
        assert(x.drop_last() =~= Seq::<char>::empty());
        assert(words(x.drop_last()) == Seq::<Seq<char>>::empty());
        assert(words(x) == Seq::<Seq<char>>::empty().push(seq![x.last()]));
        assert(x =~= seq![w[0]]);
        assert(Seq::<Seq<char>>::empty().push(seq![x.last()]) =~= seq![x]);
    } else {
        lemma_words_of_one_word(w, j - 1);
        assert(x.drop_last() =~= w.take(j - 1));
        assert(x.drop_last().last() == w[j - 2]);
        assert(!is_space(x.drop_last().last()));
        let ws = words(x.drop_last());
        assert(words(x) == ws.update(ws.len() - 1, ws.last().push(x.last())));
        assert(w.take(j - 1).push(w[j - 1]) =~= x);
        assert(ws.update(ws.len() - 1, ws.last().push(x.last())) =~= seq![x]);
    }
}

/// Appending a space and a word adds that word.
proof fn lemma_words_after_space(s: Seq<char>, w: Seq<char>, j: int)
    requires
        1 <= j <= w.len(),
        forall|i: int| 0 <= i < w.len() ==> !is_space(#[trigger] w[i]),
    ensures
        words(s + seq![' '] + w.take(j)) == words(s).push(w.take(j)),
    decreases j,
{
    let x = s + seq![' '] + w.take(j);
    assert(x.last() == w[j - 1]);
    assert(!is_space(x.last()));
    let p = s + seq![' '];
    assert(is_space(' '));
    assert(p.drop_last() =~= s);
    assert(p.last() == ' ');
    assert(words(p) == words(s));
    if j == 1 {
        assert(x.drop_last() =~= p);
        assert(words(x) == words(p).push(seq![x.last()]));
        assert(w.take(1) =~= seq![w[0]]);
    } else {
        lemma_words_after_space(s, w, j - 1);
        assert(x.drop_last() =~= s + seq![' '] + w.take(j - 1));
        assert(x.drop_last().last() == w[j - 2]);
        assert(!is_space(x.drop_last().last()));
        let ws = words(x.drop_last());
        assert(words(x) == ws.update(ws.len() - 1, ws.last().push(x.last())));
        assert(w.take(j - 1).push(w[j - 1]) =~= w.take(j));
        assert(ws.update(ws.len() - 1, ws.last().push(x.last())) =~= words(s).push(w.take(j)));
    }
}

/// Joining words by single spaces and splitting the result again gives
/// the same words.
proof fn lemma_words_of_joined(ws: Seq<Seq<char>>)
    requires
        forall|i: int| 0 <= i < ws.len() ==> #[trigger] ws[i].len() > 0,
        forall|i: int, j: int|
            0 <= i < ws.len() && 0 <= j < ws[i].len() ==> !is_space(#[trigger] ws[i][j]),
    ensures
        words(joined(ws)) == ws,
    decreases ws.len(),
{
    if ws.len() == 1 {
        let w = ws[0];
        assert forall|i: int| 0 <= i < w.len() implies !is_space(#[trigger] w[i]) by {
            assert(!is_space(ws[0][i]));
        }
        lemma_words_of_one_word(w, w.len() as int);
        assert(w.take(w.len() as int) =~= w);
        assert(ws =~= seq![w]);
    } else if ws.len() > 1 {
        let front = ws.drop_last();
        let w = ws.last();
        assert forall|i: int| 0 <= i < w.len() implies !is_space(#[trigger] w[i]) by {
            assert(!is_space(ws[ws.len() - 1][i]));
        }
        assert forall|i: int, j: int|
            0 <= i < front.len() && 0 <= j < front[i].len() implies !is_space(#[trigger] front[i][j]) by {
            assert(front[i] == ws[i]);
        }
        lemma_words_of_joined(front);
        lemma_words_after_space(joined(front), w, w.len() as int);
        assert(w.take(w.len() as int) =~= w);
        assert(front.push(w) =~= ws);
    } else {
        assert(ws =~= Seq::<Seq<char>>::empty());
    }
}

/// A non-empty text without white space.
pub open spec fn is_word(w: Seq<char>) -> bool {
    w.len() > 0 && forall|i: int| 0 <= i < w.len() ==> !is_space(#[trigger] w[i])
}

/// The key of a parsed `ADD` or `GET` is one word: non-empty and without
/// white space.
pub proof fn law_parsed_key_is_one_word(line: Seq<char>)
    ensures
        match parse_spec(line) {
            Ok(CommandView::Add { key, .. }) => is_word(key),
            Ok(CommandView::Get { key }) => is_word(key),
            _ => true,
        },
{
    lemma_words_shape(line);
}

/// The value of a parsed `ADD` holds exactly the words that follow the key
/// on the line, in order.
pub proof fn law_parsed_value_keeps_words(line: Seq<char>)
    ensures
        match parse_spec(line) {
            Ok(CommandView::Add { value, .. }) => words(value) == words(line).skip(2),
            _ => true,
        },
{
    let w = words(line);
    if let Ok(CommandView::Add { value, .. }) = parse_spec(line) {
        lemma_words_shape(line);
        let rest = w.skip(2);
        assert forall|i: int| 0 <= i < rest.len() implies #[trigger] rest[i].len() > 0 by {
            assert(rest[i] == w[i + 2]);
        }
        assert forall|i: int, j: int|
            0 <= i < rest.len() && 0 <= j < rest[i].len() implies !is_space(#[trigger] rest[i][j]) by {
            assert(rest[i] == w[i + 2]);
        }
        lemma_words_of_joined(rest);
    }
}


/// Trimming the end keeps a prefix that ends in a character other than
/// white space.
proof fn lemma_trim_end_keeps_prefix(s: Seq<char>, p: Seq<char>)
    requires
        has_prefix(s, p),
        p.len() > 0,
        !is_space(p.last()),
    ensures
        has_prefix(trim_end(s), p),
    decreases s.len(),
{
    if s.len() > 0 && is_space(s.last()) {
        assert(s.len() > p.len()) by {
            if s.len() == p.len() {
                assert(s.last() == p.last());
            }
        }
        assert(s.drop_last().take(p.len() as int) =~= s.take(p.len() as int));
        lemma_trim_end_keeps_prefix(s.drop_last(), p);
    }
}

/// An error shown as a line keeps its single `ERRO:` tag: showing the
/// displayed error adds no second tag.
pub proof fn law_error_line_of_displayed_error(e: ErrorView)
    ensures
        error_line_spec(e.display()) == trim(e.display()),
{
    reveal_strlit("ERRO:");
    reveal_strlit("ERRO: ");
    let x = e.display();
    assert(x == "ERRO: "@ + e.message());
    assert(x[0] == 'E');
    assert(trim_start(x) == x);
    assert(x.take(5) =~= "ERRO:"@);
    lemma_trim_end_keeps_prefix(x, "ERRO:"@);
}

/// An extension is chosen for a key exactly when the key starts with the
/// extension's prefix; the chosen extensions are positions of loaded
/// extensions, in load order.
pub proof fn law_chosen_exactly_by_prefix(ps: Seq<Seq<char>>, key: Seq<char>)
    ensures
        forall|i: int|
            0 <= i < ps.len() ==> (matching(ps, key).contains(i) <==> (ps[i].len() <= key.len()
                && key.subrange(0, ps[i].len() as int) == ps[i])),
        forall|a: int| 0 <= a < matching(ps, key).len() ==> 0 <= #[trigger] matching(ps, key)[a] < ps.len(),
        forall|a: int, b: int|
            0 <= a < b < matching(ps, key).len() ==> #[trigger] matching(ps, key)[a] < #[trigger] matching(
                ps,
                key,
            )[b],
    decreases ps.len(),
{
    if ps.len() > 0 {
        let rest = ps.drop_last();
        law_chosen_exactly_by_prefix(rest, key);
        let r = matching(rest, key);
        let last = ps.len() - 1;
        assert(!r.contains(last)) by {
            if r.contains(last) {
                let a = choose|a: int| 0 <= a < r.len() && r[a] == last;
                assert(r[a] < rest.len());
            }
        }
        assert forall|i: int| 0 <= i < ps.len() implies (matching(ps, key).contains(i) <==> (
        ps[i].len() <= key.len() && key.subrange(0, ps[i].len() as int) == ps[i])) by {
            if i < last {
                assert(ps[i] == rest[i]);
            }
            if has_prefix(key, ps.last()) {
                assert(matching(ps, key) == r.push(last));
                if i < last {
                    if r.push(last).contains(i) {
                        let a = choose|a: int| 0 <= a < r.push(last).len() && r.push(last)[a] == i;
                        assert(a < r.len());
                        assert(r[a] == i);
                    }
                    if r.contains(i) {
                        let a = choose|a: int| 0 <= a < r.len() && r[a] == i;
                        assert(r.push(last)[a] == i);
                    }
                } else {
                    assert(r.push(last)[r.len() as int] == last);
                }
            } else {
                assert(matching(ps, key) == r);
            }
            assert(key.take(ps[i].len() as int) =~= key.subrange(0, ps[i].len() as int));
        }
    }
}

proof fn lemma_no_failure(outcomes: Seq<HookOutcome>)
    requires
        forall|j: int| 0 <= j < outcomes.len() ==> !(#[trigger] outcomes[j] is Failed),
    ensures
        first_failure(outcomes) is None,
    decreases outcomes.len(),
{
    if outcomes.len() > 0 {
        assert(!(outcomes[0] is Failed));
        assert forall|j: int| 0 <= j < outcomes.drop_first().len() implies !(
        #[trigger] outcomes.drop_first()[j] is Failed) by {
            assert(outcomes.drop_first()[j] == outcomes[j + 1]);
        }
        lemma_no_failure(outcomes.drop_first());
    }
}

/// Where no hook of a trigger fails and the context's answer field was
/// read back, the trigger answers exactly what that read gave: the whole
/// text the hooks left there, or nothing for a missing field.
pub proof fn law_trigger_answers_the_text_read_back(
    run: TriggerRun,
    ps: Seq<Seq<char>>,
    keys: Seq<mlua::RegistryKey>,
    store: Map<Seq<char>, Seq<char>>,
    kind: HookKind,
    command: Seq<char>,
    key: Option<Seq<char>>,
    value: Option<Seq<char>>,
    result: Option<Seq<char>>,
    fallback: Option<Seq<char>>,
    text: Option<Seq<char>>,
)
    requires
        run_fits(run, ps, keys, store, kind, command, key, value, result),
        forall|j: int| 0 <= j < run.calls.len() ==> !((#[trigger] run.calls[j]).outcome is Failed),
        run.read_back == Some(text),
    ensures
        run_answer(run, fallback) == Ok::<Option<Seq<char>>, ErrorView>(text),
{
    let outcomes = run.calls.map_values(|c: HookCall| c.outcome);
    assert forall|j: int| 0 <= j < outcomes.len() implies !(#[trigger] outcomes[j] is Failed) by {
        assert(outcomes[j] == run.calls[j].outcome);
    }
    lemma_no_failure(outcomes);
}

/// Loading a file adds an extension exactly when the registry took the
/// table that its source gave, and that table came from a `.lua` file with
/// a non-blank source; the prefix taken as declared is the text the table's
/// `prefix` field gave, if any.
pub proof fn law_every_table_kept_is_added(run: LoadRun, name: Seq<char>, source: Seq<char>)
    requires
        load_fits(run, name, source),
    ensures
        run.registered <==> run.kept == Some(true),
        run.registered ==> run.evaluated == Some((source, name)),
        run.registered ==> match run.prefix_text {
            Some(Some(p)) => run.declared == Some(p),
            _ => run.declared is None,
        },
{
}

/// A hook that refuses is answered with its error: a refusing pre-hook
/// leaves the store as it was; a refusing post-hook of `ADD` comes after the
/// value is stored, and one of `GET` of a stored key is shown in place of
/// the value.
pub proof fn law_failed_hook_is_reported(
    m: Map<Seq<char>, Seq<char>>,
    line: Seq<char>,
    pre: HookAnswer,
    post: HookAnswer,
)
    requires
        parse_spec(line) matches Ok(c) && (c is Add || c is Get),
    ensures
        pre matches Err(e) ==> hooked_step(m, line, pre, post) == (ReplyView::Failed(e), m),
        pre matches Ok(nv) ==> (post matches Err(e) ==> (parse_spec(line) matches Ok(
            CommandView::Add { key, value },
        ) ==> hooked_step(m, line, pre, post) == (ReplyView::Failed(e), m.insert(key, match nv {
            Some(v) => v,
            None => value,
        })))),
        pre is Ok ==> (post matches Err(e) ==> (parse_spec(line) matches Ok(CommandView::Get { key })
            ==> (m.contains_key(key) ==> hooked_step(m, line, pre, post) == (ReplyView::Failed(e), m)))),
{
}

/// `GET` of a stored key shows the text the post-hook gives, or the stored
/// value where it gives none.
pub proof fn law_read_shows_the_post_hook_text(
    m: Map<Seq<char>, Seq<char>>,
    line: Seq<char>,
    key: Seq<char>,
    pre: Option<Seq<char>>,
    post: Option<Seq<char>>,
)
    requires
        parse_spec(line) == Ok::<CommandView, ErrorView>(CommandView::Get { key }),
        m.contains_key(key),
    ensures
        hooked_step(m, line, Ok(pre), Ok(post)) == (
            ReplyView::Value(
                match post {
                    Some(f) => f,
                    None => m[key],
                },
            ),
            m,
        ),
{
}

/// A Lua error located at a line of a chunk, `<place>:<line>: <message>`,
/// is cleaned to its message alone, whatever the number of digits of the
/// line: the place has no `:` and no white space, the line is a non-empty
/// run of ASCII digits, and the message is one line, trimmed, non-empty,
/// and does not start with `ERRO: ` or `error: `.
#[verifier::spinoff_prover]
#[verifier::rlimit(50)]
pub proof fn law_error_location_is_removed(place: Seq<char>, line: Seq<char>, message: Seq<char>)
    requires
        forall|j: int| 0 <= j < place.len() ==> #[trigger] place[j] != ':' && !is_space(place[j]),
        line.len() > 0,
        forall|j: int| 0 <= j < line.len() ==> '0' <= #[trigger] line[j] && line[j] <= '9',
        message.len() > 0,
        !is_space(message[0]),
        !is_space(message.last()),
        forall|j: int| 0 <= j < message.len() ==> #[trigger] message[j] != '\n',
        !has_prefix(message, "ERRO: "@),
        !has_prefix(message, "error: "@),
    ensures
        clean_message(place + ":"@ + line + ": "@ + message) == message,
{
    reveal_strlit(":");
    reveal_strlit(": ");
    reveal_strlit("runtime error: ");
    let raw = place + ":"@ + line + ": "@ + message;
    let p = place.len() as int;
    let i0 = p + 1 + line.len();
    assert(raw.len() == i0 + 2 + message.len());
    assert forall|j: int| 0 <= j < p implies #[trigger] raw[j] == place[j] by {}
    assert(raw[p] == ':');
    assert forall|k: int| 0 <= k < line.len() implies #[trigger] raw[p + 1 + k] == line[k] by {}
    assert(raw[i0] == ':' && raw[i0 + 1] == ' ');
    assert forall|k: int| 0 <= k < message.len() implies #[trigger] raw[i0 + 2 + k] == message[k] by {}
    // one line
    assert forall|j: int| 0 <= j < raw.len() implies raw[j] != '\n' by {
        if j < p {
            assert(raw[j] == place[j]);
        } else if p < j < i0 {
            assert(raw[p + 1 + (j - p - 1)] == line[j - p - 1]);
        } else if j >= i0 + 2 {
            assert(raw[i0 + 2 + (j - i0 - 2)] == message[j - i0 - 2]);
        }
    }
    lemma_first_index(raw, '\n', raw.len() as int);
    assert(raw.take(raw.len() as int) =~= raw);
    // already trimmed
    if p > 0 {
        assert(raw[0] == place[0]);
    }
    assert(!is_space(raw[0]));
    assert(raw.last() == message.last()) by {
        assert(raw[i0 + 2 + (message.len() - 1)] == message[message.len() - 1]);
    }
    assert(trim(raw) == raw);
    // no `runtime error: ` in front
    assert(!has_prefix(raw, "runtime error: "@)) by {
        if has_prefix(raw, "runtime error: "@) {
            let rt = "runtime error: "@;
            assert(raw[7] == rt[7]);
            if p < 7 {
                assert(raw[p] == rt[p]);
            } else if p > 7 {
                assert(raw[7] == place[7]);
            }
        }
    }
    assert(crate::extension_manager::strip_or_keep(raw, "runtime error: "@) == raw);
    // the separator, the location and the number
    assert forall|j: int| 0 <= j < i0 && j + 1 < raw.len() implies !(#[trigger] raw[j] == ':' && raw[j + 1]
        == ' ') by {
        if j < p {
            assert(raw[j] == place[j]);
        } else if j == p {
            assert(raw[p + 1 + 0] == line[0]);
        } else {
            assert(raw[p + 1 + (j - p - 1)] == line[j - p - 1]);
        }
    }
    lemma_separator_index(raw, i0);
    let t = raw.take(i0);
    assert forall|j: int| p + 1 <= j < t.len() implies t[j] != ':' by {
        assert(raw[p + 1 + (j - p - 1)] == line[j - p - 1]);
    }
    lemma_last_index(t, ':', p + 1);
    assert(t.skip(p + 1) =~= line);
    assert(raw.skip(i0 + 2) =~= message);
    assert(trim(message) == message);
    assert(without_location(raw) == message);
}

} // verus!
