//! Lua extensions: each one is chosen by a key prefix and may check or
//! rewrite a value before it is stored (`pre_hook`) and reformat it when it
//! is read (`post_hook`). Errors raised in Lua reach the user as a short,
//! clean message.

use vstd::prelude::*;
use vstd::string::*;

use crate::error::{DatabaseError, ErrorView};
use crate::lua::{
    call_hook, eval_table, failure_of, get_function, get_optional_text, new_interpreter,
    store_in_registry, table_from_fields, table_from_registry,
};
use crate::storage::Storage;
use crate::text::{
    chars_of, has_prefix, opt_string_view, opt_view, owned, starts_with_text, string_of_range, trim,
    trim_bounds, trim_str,
};

verus! {

/// Index of the first `c` in `s`, or `s.len()` where there is none.
pub open spec fn first_index(s: Seq<char>, c: char) -> int
    decreases s.len(),
{
    if s.len() == 0 || s[0] == c {
        0
    } else {
        1 + first_index(s.drop_first(), c)
    }
}

/// Index of the first `": "` in `s`.
pub open spec fn separator_index(s: Seq<char>) -> Option<int>
    decreases s.len(),
{
    if s.len() < 2 {
        None
    } else if s[0] == ':' && s[1] == ' ' {
        Some(0)
    } else {
        match separator_index(s.drop_first()) {
            Some(i) => Some(i + 1),
            None => None,
        }
    }
}

/// Index of the last `c` in `s`.
pub open spec fn last_index(s: Seq<char>, c: char) -> Option<int>
    decreases s.len(),
{
    if s.len() == 0 {
        None
    } else if s.last() == c {
        Some(s.len() - 1)
    } else {
        last_index(s.drop_last(), c)
    }
}

/// `s` without the prefix `p` where it starts with `p`; `s` itself otherwise.
pub open spec fn strip_or_keep(s: Seq<char>, p: Seq<char>) -> Seq<char> {
    if has_prefix(s, p) {
        s.skip(p.len() as int)
    } else {
        s
    }
}

/// A non-empty run of ASCII digits.
pub open spec fn is_number(s: Seq<char>) -> bool {
    s.len() > 0 && forall|j: int| 0 <= j < s.len() ==> '0' <= #[trigger] s[j] && s[j] <= '9'
}

/// The text of a Lua error without its location: where `s` reads
/// `<place>:<line>: <message>`, the trimmed message; `s` otherwise.
pub open spec fn without_location(s: Seq<char>) -> Seq<char> {
    match separator_index(s) {
        Some(i) => match last_index(s.take(i), ':') {
            Some(j) => if is_number(s.take(i).skip(j + 1)) {
                trim(s.skip(i + 2))
            } else {
                s
            },
            None => s,
        },
        None => s,
    }
}

/// The message shown for a raw Lua error: its first line (a stack traceback
/// never stands there), trimmed, without `runtime error: `, without the
/// chunk name and line number, and without a leading `ERRO: ` or else
/// `error: `, trimmed again.
pub open spec fn clean_message(raw: Seq<char>) -> Seq<char> {
    let first = trim(raw.take(first_index(raw, '\n')));
    let s = trim(strip_or_keep(first, "runtime error: "@));
    let message = without_location(s);
    let stripped = if has_prefix(message, "ERRO: "@) {
        strip_or_keep(message, "ERRO: "@)
    } else {
        strip_or_keep(message, "error: "@)
    };
    trim(stripped)
}

pub(crate) proof fn lemma_first_index(s: Seq<char>, c: char, i: int)
    requires
        0 <= i <= s.len(),
        forall|j: int| 0 <= j < i ==> s[j] != c,
        i == s.len() || s[i] == c,
    ensures
        first_index(s, c) == i,
    decreases i,
{
    if i > 0 {
        lemma_first_index(s.drop_first(), c, i - 1);
    }
}

pub(crate) proof fn lemma_separator_index(s: Seq<char>, i: int)
    requires
        0 <= i <= s.len(),
        forall|j: int| 0 <= j < i && j + 1 < s.len() ==> !(#[trigger] s[j] == ':' && s[j + 1] == ' '),
        i + 1 < s.len() ==> s[i] == ':' && s[i + 1] == ' ',
        i + 1 >= s.len() ==> i == s.len(),
    ensures
        separator_index(s) == if i == s.len() {
            None::<int>
        } else {
            Some(i)
        },
    decreases i,
{
    if i > 0 && s.len() >= 2 {
        lemma_separator_index(s.drop_first(), i - 1);
    }
}

/// Whether `v[from..to]` starts with `p`.
fn starts_with_at(v: &Vec<char>, from: usize, to: usize, p: &Vec<char>) -> (r: bool)
    requires
        from <= to <= v.len(),
    ensures
        r == has_prefix(v@.subrange(from as int, to as int), p@),
{
    if p.len() > to - from {
        return false;
    }
    let mut i: usize = 0;
    while i < p.len()
        invariant
            from <= to <= v.len(),
            p@.len() <= to - from,
            i <= p.len(),
            forall|j: int| 0 <= j < i ==> v@[from + j] == p@[j],
        decreases p.len() - i,
    {
        if v[from + i] != p[i] {
            assert(v@.subrange(from as int, to as int).take(p@.len() as int)[i as int] != p@[i as int]);
            return false;
        }
        i = i + 1;
    }
    assert(v@.subrange(from as int, to as int).take(p@.len() as int) =~= p@);
    true
}

/// `first_index(v, '\n')`.
fn line_end(v: &Vec<char>) -> (r: usize)
    ensures
        r == first_index(v@, '\n'),
        r <= v.len(),
{
    let mut end: usize = 0;
    while end < v.len() && v[end] != '\n'
        invariant
            end <= v.len(),
            forall|j: int| 0 <= j < end ==> v@[j] != '\n',
        decreases v.len() - end,
    {
        end = end + 1;
    }
    proof {
        lemma_first_index(v@, '\n', end as int);
    }
    end
}

/// Where `strip_or_keep(v[from..to], p)` starts.
fn strip_at(v: &Vec<char>, from: usize, to: usize, p: &Vec<char>) -> (r: usize)
    requires
        from <= to <= v.len(),
    ensures
        from <= r <= to,
        v@.subrange(r as int, to as int) == strip_or_keep(v@.subrange(from as int, to as int), p@),
{
    if starts_with_at(v, from, to, p) {
        assert(v@.subrange(from + p@.len(), to as int) =~= v@.subrange(from as int, to as int).skip(
            p@.len() as int,
        ));
        from + p.len()
    } else {
        from
    }
}

/// The offset in `v[a..b]` of its first `": "`.
fn separator_in(v: &Vec<char>, a: usize, b: usize) -> (r: Option<usize>)
    requires
        a <= b <= v.len(),
    ensures
        match r {
            Some(i) => a <= i && i + 2 <= b && separator_index(v@.subrange(a as int, b as int))
                == Some(i - a),
            None => separator_index(v@.subrange(a as int, b as int)) == None::<int>,
        },
{
    let ghost s = v@.subrange(a as int, b as int);
    let mut i: usize = a;
    while b - i >= 2 && !(v[i] == ':' && v[i + 1] == ' ')
        invariant
            a <= i <= b <= v.len(),
            forall|j: int| a <= j < i && j + 1 < b ==> !(#[trigger] v@[j] == ':' && v@[j + 1] == ' '),
        decreases b - i,
    {
        i = i + 1;
    }
    if b - i < 2 {
        i = b;
    }
    proof {
        assert forall|j: int| 0 <= j < i - a && j + 1 < s.len() implies !(#[trigger] s[j] == ':'
            && s[j + 1] == ' ') by {
            assert(s[j] == v@[a + j] && s[j + 1] == v@[a + j + 1]);
        }
        lemma_separator_index(s, i - a);
    }
    if i < b {
        Some(i)
    } else {
        None
    }
}

/// The offset in `v[a..i]` of its last `':'`.
fn last_colon_in(v: &Vec<char>, a: usize, i: usize) -> (r: Option<usize>)
    requires
        a <= i <= v.len(),
    ensures
        match r {
            Some(k) => a <= k < i && last_index(v@.subrange(a as int, i as int), ':') == Some(k - a),
            None => last_index(v@.subrange(a as int, i as int), ':') == None::<int>,
        },
{
    let ghost prefix = v@.subrange(a as int, i as int);
    let mut k: usize = i;
    while k > a && v[k - 1] != ':'
        invariant
            a <= k <= i <= v.len(),
            forall|j: int| k <= j < i ==> v@[j] != ':',
        decreases k - a,
    {
        k = k - 1;
    }
    proof {
        assert forall|j: int| k - a <= j < prefix.len() implies prefix[j] != ':' by {
            assert(prefix[j] == v@[a + j]);
        }
        lemma_last_index(prefix, ':', k - a);
    }
    if k > a {
        Some(k - 1)
    } else {
        None
    }
}

/// Whether `v[k..i]` is a non-empty run of ASCII digits.
fn number_at(v: &Vec<char>, k: usize, i: usize) -> (r: bool)
    requires
        k <= i <= v.len(),
    ensures
        r == is_number(v@.subrange(k as int, i as int)),
{
    let ghost num = v@.subrange(k as int, i as int);
    let mut d: usize = k;
    let mut digits: bool = k < i;
    while d < i
        invariant
            k <= d <= i <= v.len(),
            digits == (k < i && forall|j: int| k <= j < d ==> '0' <= #[trigger] v@[j] && v@[j] <= '9'),
        decreases i - d,
    {
        if !('0' <= v[d] && v[d] <= '9') {
            digits = false;
        }
        d = d + 1;
    }
    proof {
        if digits {
            assert forall|j: int| 0 <= j < num.len() implies '0' <= #[trigger] num[j] && num[j] <= '9' by {
                assert(num[j] == v@[k + j]);
            }
        } else if k < i {
            let w = choose|j: int| k <= j < i && !('0' <= #[trigger] v@[j] && v@[j] <= '9');
            assert(num[w - k] == v@[w]);
        }
    }
    digits
}

/// The bounds of `without_location(v[a..b])`.
fn location_stripped(v: &Vec<char>, a: usize, b: usize) -> (r: (usize, usize))
    requires
        a <= b <= v.len(),
    ensures
        r.0 <= r.1 <= v.len(),
        v@.subrange(r.0 as int, r.1 as int) == without_location(v@.subrange(a as int, b as int)),
{
    let ghost s = v@.subrange(a as int, b as int);
    match separator_in(v, a, b) {
        None => (a, b),
        Some(i) => {
            assert(s.take(i - a) == v@.subrange(a as int, i as int));
            match last_colon_in(v, a, i) {
                None => (a, b),
                Some(k) => {
                    assert(s.take(i - a).skip(k - a + 1) == v@.subrange(k + 1, i as int));
                    if number_at(v, k + 1, i) {
                        assert(v@.subrange(i + 2, b as int) == s.skip(i - a + 2));
                        trim_bounds(v, i + 2, b)
                    } else {
                        (a, b)
                    }
                },
            }
        },
    }
}

/// The readable message inside a raw Lua error text.
pub fn extract_clean_message(raw: &str) -> (r: String)
    ensures
        r@ == clean_message(raw@),
{
    let v = chars_of(raw);
    let end: usize = line_end(&v);
    assert(v@.subrange(0, end as int) == v@.take(end as int));
    let (a0, b0) = trim_bounds(&v, 0, end);
    let a1: usize = strip_at(&v, a0, b0, &chars_of("runtime error: "));
    let (a, b) = trim_bounds(&v, a1, b0);
    let (ma, mb) = location_stripped(&v, a, b);
    let tag = chars_of("ERRO: ");
    let sa: usize = if starts_with_at(&v, ma, mb, &tag) {
        strip_at(&v, ma, mb, &tag)
    } else {
        strip_at(&v, ma, mb, &chars_of("error: "))
    };
    let (ra, rb) = trim_bounds(&v, sa, mb);
    string_of_range(&v, ra, rb)
}

/// A Lua error as the library reads it: a failure inside a Rust callback
/// (with the error that caused it), a runtime error with its message, or
/// any other error with its displayed text.
pub enum LuaFailure {
    Callback(Box<LuaFailure>),
    Runtime(String),
    Other(String),
}

/// The text at the root of a Lua failure.
pub open spec fn failure_text(f: LuaFailure) -> Seq<char>
    decreases f,
{
    match f {
        LuaFailure::Callback(cause) => failure_text(*cause),
        LuaFailure::Runtime(m) => m@,
        LuaFailure::Other(t) => t@,
    }
}

/// The error reported for a Lua failure: an extension error whose message is
/// the clean message of the failure's root text.
pub fn clean_failure(f: &LuaFailure) -> (e: DatabaseError)
    ensures
        e@ == ErrorView::Extension(clean_message(failure_text(*f))),
    decreases f,
{
    match f {
        LuaFailure::Callback(cause) => clean_failure(cause),
        LuaFailure::Runtime(msg) => DatabaseError::Extension(extract_clean_message(msg.as_str())),
        LuaFailure::Other(text) => DatabaseError::Extension(extract_clean_message(text.as_str())),
    }
}

/// The error reported for an error raised by Lua: an extension error whose
/// message is the clean message of the error's root text.
pub fn clean_lua_error(err: &mlua::Error) -> (e: DatabaseError)
    ensures
        e@ == ErrorView::Extension(clean_message(lua_error_text(*err))),
{
    let f = failure_of(err);
    clean_failure(&f)
}

/// The stem of a file name whose extension is `lua`, as `Path::extension`
/// and `Path::file_stem` read it: the part before the last `.`, where that
/// `.` is not the first character and `lua` follows it.
pub open spec fn lua_stem(name: Seq<char>) -> Option<Seq<char>> {
    match last_index(name, '.') {
        Some(i) => if i > 0 && name.skip(i + 1) == "lua"@ {
            Some(name.take(i))
        } else {
            None
        },
        None => None,
    }
}

/// The stem of `file_name` where it names a Lua source file.
pub fn lua_file_stem(file_name: &str) -> (r: Option<String>)
    ensures
        match r {
            Some(s) => lua_stem(file_name@) == Some(s@),
            None => lua_stem(file_name@) == None::<Seq<char>>,
        },
{
    let v = chars_of(file_name);
    let mut k: usize = v.len();
    while k > 0 && v[k - 1] != '.'
        invariant
            k <= v.len(),
            forall|j: int| k <= j < v.len() ==> v@[j] != '.',
        decreases k,
    {
        k = k - 1;
    }
    proof {
        lemma_last_index(v@, '.', k as int);
    }
    if k <= 1 {
        return None;
    }
    let ext = string_of_range(&v, k, v.len());
    assert(v@.subrange(k as int, v@.len() as int) == v@.skip(k as int));
    if !crate::text::same_text(ext.as_str(), "lua") {
        return None;
    }
    let stem = string_of_range(&v, 0, k - 1);
    assert(v@.subrange(0, k - 1) == v@.take(k - 1));
    Some(stem)
}

pub(crate) proof fn lemma_last_index(s: Seq<char>, c: char, i: int)
    requires
        0 <= i <= s.len(),
        forall|j: int| i <= j < s.len() ==> s[j] != c,
        i > 0 ==> s[i - 1] == c,
    ensures
        last_index(s, c) == if i == 0 {
            None::<int>
        } else {
            Some(i - 1)
        },
    decreases s.len() - i,
{
    if i < s.len() {
        lemma_last_index(s.drop_last(), c, i);
    }
}


/// A loaded extension: its Lua table, kept in the registry, and the key
/// prefix that selects it.
struct Extension {
    table: mlua::RegistryKey,
    prefix: String,
}

/// The loaded extensions, in load order, and the interpreter that runs them.
pub struct ExtensionManager {
    lua: mlua::Lua,
    extensions: Vec<Extension>,
}

/// The prefix that selects an extension: the one its table declares, or
/// else the file's stem followed by `_`.
pub open spec fn prefix_for(declared: Option<Seq<char>>, stem: Seq<char>) -> Seq<char> {
    match declared {
        Some(p) => p,
        None => stem + "_"@,
    }
}

/// The prefix that selects an extension: the one its table declares, or
/// else the file's stem followed by `_`.
pub fn extension_prefix(declared: Option<String>, stem: &str) -> (r: String)
    ensures
        r@ == prefix_for(opt_string_view(declared), stem@),
{
    match declared {
        Some(p) => p,
        None => {
            let mut d = String::from_str(stem);
            d.append("_");
            d
        },
    }
}

/// Positions, in order, of the prefixes in `ps` that `key` starts with.
pub open spec fn matching(ps: Seq<Seq<char>>, key: Seq<char>) -> Seq<int>
    decreases ps.len(),
{
    if ps.len() == 0 {
        seq![]
    } else {
        let rest = matching(ps.drop_last(), key);
        if has_prefix(key, ps.last()) {
            rest.push(ps.len() - 1)
        } else {
            rest
        }
    }
}

/// Whether some extension is chosen for `key`.
pub open spec fn selects(ps: Seq<Seq<char>>, key: Option<Seq<char>>) -> bool {
    match key {
        Some(k) => matching(ps, k).len() > 0,
        None => false,
    }
}

impl ExtensionManager {
    /// The key prefixes of the loaded extensions, in load order.
    pub closed spec fn prefixes(&self) -> Seq<Seq<char>> {
        self.extensions@.map_values(|e: Extension| e.prefix@)
    }

    /// The registry keys under which the loaded extensions' tables are kept,
    /// in load order.
    pub closed spec fn registry_keys(&self) -> Seq<mlua::RegistryKey> {
        self.extensions@.map_values(|e: Extension| e.table)
    }

    /// A manager with no extension.
    pub fn new() -> (m: Self)
        ensures
            m.prefixes() == Seq::<Seq<char>>::empty(),
    {
        let m = ExtensionManager { lua: new_interpreter(), extensions: Vec::new() };
        assert(m.prefixes() =~= Seq::<Seq<char>>::empty());
        m
    }

    /// Loads the extension in the file `file_name` with contents `source`.
    /// Only `.lua` files with a non-blank source are run; the table that
    /// the source evaluates to becomes an extension, selected by its
    /// `prefix` field or else by the file's stem followed by `_`. A source
    /// that fails to run, or does not give a table, is skipped.
    pub fn add_extension(&mut self, file_name: &str, source: &str) -> (r: Ghost<LoadRun>)
        ensures
            load_fits(r@, file_name@, source@),
            r@.registered ==> final(self).prefixes() == old(self).prefixes().push(
                prefix_for(r@.declared, lua_stem(file_name@)->0),
            ),
            !r@.registered ==> final(self).prefixes() == old(self).prefixes(),
            r@.kept == Some(true) ==> final(self).prefixes() == old(self).prefixes().push(
                prefix_for(declared_prefix(r@.prefix_text), lua_stem(file_name@)->0),
            ),
            r@.kept != Some(true) ==> final(self).prefixes() == old(self).prefixes(),
    {
        let ghost nothing = LoadRun {
            evaluated: None,
            table: None,
            prefix_read: None,
            prefix_text: None,
            declared: None,
            stored: None,
            kept: None,
            registered: false,
        };
        let stem = match lua_file_stem(file_name) {
            Some(s) => s,
            None => return Ghost(nothing),
        };
        let trimmed = trim_str(source);
        if trimmed.as_str().is_empty() {
            return Ghost(nothing);
        }
        let (evaluation, handed) = eval_table(&self.lua, source, file_name);
        let ghost evaluated = LoadRun { evaluated: Some(handed@), ..nothing };
        match evaluation {
            Ok(table) => {
                let (read, asked) = get_optional_text(&table, "prefix");
                let ghost got = text_read(read);
                let declared = match read {
                    Ok(p) => p,
                    Err(_) => None,
                };
                let ghost with_prefix = LoadRun {
                    table: Some(table),
                    prefix_read: Some(asked@),
                    prefix_text: got,
                    declared: opt_string_view(declared),
                    ..evaluated
                };
                let (kept, stored) = store_in_registry(&self.lua, table);
                let ghost with_store = LoadRun {
                    stored: Some(stored@),
                    kept: Some(kept is Ok),
                    ..with_prefix
                };
                match kept {
                    Ok(key) => {
                        self.register(key, declared, stem.as_str());
                        Ghost(LoadRun { registered: true, ..with_store })
                    },
                    Err(_) => Ghost(with_store),
                }
            },
            Err(_) => Ghost(evaluated),
        }
    }

    /// Adds the extension whose table is kept under `key`, selected by the
    /// prefix it declares or else by `stem` followed by `_`.
    pub fn register(&mut self, key: mlua::RegistryKey, declared: Option<String>, stem: &str)
        ensures
            final(self).prefixes() == old(self).prefixes().push(
                prefix_for(opt_string_view(declared), stem@),
            ),
    {
        let prefix = extension_prefix(declared, stem);
        let ghost before = self.extensions@;
        self.extensions.push(Extension { table: key, prefix });
        assert(self.prefixes() =~= before.map_values(|e: Extension| e.prefix@).push(prefix@));
    }

    /// Positions of the extensions whose prefix `key` starts with.
    fn matching_extensions(&self, key: &str) -> (r: Vec<usize>)
        ensures
            r@.map_values(|i: usize| i as int) == matching(self.prefixes(), key@),
            forall|j: int| 0 <= j < r@.len() ==> #[trigger] r@[j] < self.extensions@.len(),
    {
        let mut r: Vec<usize> = Vec::new();
        let mut i: usize = 0;
        while i < self.extensions.len()
            invariant
                i <= self.extensions@.len(),
                r@.map_values(|i: usize| i as int) == matching(self.prefixes().take(i as int), key@),
                forall|j: int| 0 <= j < r@.len() ==> #[trigger] r@[j] < i,
            decreases self.extensions@.len() - i,
        {
            let ghost ps = self.prefixes().take(i + 1);
            assert(ps.drop_last() =~= self.prefixes().take(i as int));
            assert(ps.last() == self.extensions@[i as int].prefix@);
            if starts_with_text(key, self.extensions[i].prefix.as_str()) {
                let ghost before = r@;
                r.push(i);
                assert(r@.map_values(|i: usize| i as int) =~= before.map_values(|i: usize| i as int).push(i as int));
            }
            i = i + 1;
        }
        assert(self.prefixes().take(self.extensions@.len() as int) =~= self.prefixes());
        r
    }

    /// Runs the `kind` hook of every extension chosen for `key`, in load
    /// order, on one shared context, stopping at the first hook that fails,
    /// and answers through [`hook_reply`]. Where no extension is chosen, no
    /// Lua call is made and `fallback` comes back untouched. The second
    /// result records what was handed to Lua and what came back.
    fn trigger(
        &self,
        storage: &Storage,
        kind: HookKind,
        command: &str,
        key: Option<&str>,
        value: Option<&str>,
        result: Option<&str>,
        fallback: Option<&str>,
    ) -> (r: (Result<Option<String>, DatabaseError>, Ghost<TriggerRun>))
        ensures
            run_fits(
                r.1@,
                self.prefixes(),
                self.registry_keys(),
                storage@,
                kind,
                command@,
                opt_view(key),
                opt_view(value),
                opt_view(result),
            ),
            r.1@.answer == answer_view(r.0),
            r.1@.answer == run_answer(r.1@, opt_view(fallback)),
    {
        let ghost quiet = TriggerRun {
            command: command@,
            key: opt_view(key),
            value: opt_view(value),
            result: opt_view(result),
            store: storage@,
            context: None,
            ctx: None,
            setup_failure: None,
            calls: Seq::empty(),
            read: None,
            read_back: None,
            answer: Ok(opt_view(fallback)),
        };
        let k = match key {
            Some(k) => k,
            None => return (Ok(owned(fallback)), Ghost(quiet)),
        };
        let chosen = self.matching_extensions(k);
        if chosen.len() == 0 {
            return (Ok(owned(fallback)), Ghost(quiet));
        }
        let ghost idx = matching(self.prefixes(), k@);
        let ghost keys = self.registry_keys();
        let fields = context_fields(command, key, value, result);
        let (made, handed) = table_from_fields(&self.lua, &fields);
        let ctx = match made {
            Ok(t) => t,
            Err(e) => {
                let f = failure_of(&e);
                let ghost run = TriggerRun {
                    context: Some(handed@),
                    setup_failure: Some(f),
                    answer: Err(ErrorView::Extension(clean_message(failure_text(f)))),
                    ..quiet
                };
                let r = Err(clean_failure(&f));
                return (r, Ghost(run));
            },
        };
        let hook = hook_name(&kind);
        let field = answer_field(&kind);
        let (lookup_name, reverse_name) = storage_query_names();
        let mut outcomes: Vec<HookOutcome> = Vec::new();
        let ghost mut calls: Seq<HookCall> = Seq::empty();
        let mut failed = false;
        let mut n: usize = 0;
        while n < chosen.len() && !failed
            invariant
                n <= chosen@.len(),
                chosen@.len() > 0,
                chosen@.map_values(|i: usize| i as int) == idx,
                forall|j: int| 0 <= j < chosen@.len() ==> #[trigger] chosen@[j] < self.extensions@.len(),
                keys == self.registry_keys(),
                hook@ == hook_name_spec(kind),
                lookup_name@ == "get"@,
                reverse_name@ == "get_key_by_value"@,
                outcomes@.len() == n,
                calls.len() == n,
                forall|j: int| 0 <= j < n ==> (#[trigger] calls[j]).outcome == outcomes@[j],
                forall|j: int|
                    0 <= j < n ==> call_fits(#[trigger] calls[j], j, idx, keys, kind, ctx, storage@),
                forall|j: int| 0 <= j < n && !(failed && j == n - 1) ==> !(#[trigger] outcomes@[j] is Failed),
                failed ==> n > 0 && outcomes@[n - 1] is Failed,
            decreases chosen@.len() - n,
        {
            assert(idx[n as int] == chosen@[n as int]);
            let ext = &self.extensions[chosen[n]];
            assert(keys[idx[n as int]] == ext.table);
            let (fetch, asked_key) = table_from_registry(&self.lua, &ext.table);
            let ghost mut call = HookCall {
                extension: idx[n as int],
                registry: asked_key@,
                fetched: None,
                looked_up: None,
                found: None,
                called: None,
                outcome: HookOutcome::Skipped,
            };
            let outcome = match fetch {
                Ok(table) => {
                    let (lookup, asked_hook) = get_function(&table, hook);
                    proof {
                        call = HookCall { fetched: Some(table), looked_up: Some(asked_hook@), ..call };
                    }
                    match lookup {
                        Ok(f) => {
                            let (ran, handed_call) = call_hook(
                                &self.lua,
                                &f,
                                &ctx,
                                storage,
                                lookup_name,
                                reverse_name,
                            );
                            proof {
                                call = HookCall { found: Some(f), called: Some(handed_call@), ..call };
                            }
                            match ran {
                                Ok(()) => HookOutcome::Ran,
                                Err(e) => HookOutcome::Failed(failure_of(&e)),
                            }
                        },
                        Err(_) => HookOutcome::Skipped,
                    }
                },
                Err(_) => HookOutcome::Skipped,
            };
            proof {
                call = HookCall { outcome: outcome, ..call };
                calls = calls.push(call);
            }
            if outcome.is_failure() {
                failed = true;
            }
            outcomes.push(outcome);
            n = n + 1;
        }
        assert(idx.len() == chosen@.len());
        let ghost mut read: Option<(mlua::Table, Seq<char>)> = None;
        let ghost mut rb: Option<Option<Seq<char>>> = None;
        let read_back = if failed {
            None
        } else {
            let (got, asked) = get_optional_text(&ctx, field);
            proof {
                read = Some(asked@);
                rb = text_read(got);
            }
            match got {
                Ok(v) => Some(v),
                Err(_) => None,
            }
        };
        assert(opt_opt_view(read_back) == rb);
        assert(outcomes@ =~= calls.map_values(|c: HookCall| c.outcome));
        let r = hook_reply(&outcomes, read_back, fallback);
        let ghost run = TriggerRun {
            context: Some(handed@),
            ctx: Some(ctx),
            calls: calls,
            read: read,
            read_back: rb,
            answer: answer_view(r),
            ..quiet
        };
        assert(calls_follow(calls, idx, keys, kind, ctx, storage@));
        (r, Ghost(run))
    }

    /// Lets the extensions chosen for `key` check or rewrite `value` before
    /// it is stored: their `pre_hook`s run in load order on a context
    /// holding the command, key and value, and the context's `value` as
    /// they leave it comes back (or `value` itself where it cannot be read
    /// as text); the first hook that fails ends the run with its cleaned
    /// message. With no key, or no extension chosen for it, no Lua call is
    /// made and `value` comes back unchanged. The second result records
    /// what was handed to Lua and what came back.
    pub fn trigger_pre_hook(
        &self,
        storage: &Storage,
        command: &str,
        key: Option<&str>,
        value: Option<&str>,
    ) -> (r: (Result<Option<String>, DatabaseError>, Ghost<TriggerRun>))
        ensures
            run_fits(
                r.1@,
                self.prefixes(),
                self.registry_keys(),
                storage@,
                HookKind::Pre,
                command@,
                opt_view(key),
                opt_view(value),
                None,
            ),
            r.1@.answer == answer_view(r.0),
            r.1@.answer == run_answer(r.1@, opt_view(value)),
    {
        self.trigger(storage, HookKind::Pre, command, key, value, None, value)
    }

    /// Lets the extensions chosen for `key` reformat `result` before it is
    /// shown: their `post_hook`s run in load order on a context holding the
    /// command, key, value and result, and the context's `result` as they
    /// leave it comes back (or `result` itself where it cannot be read as
    /// text); the first hook that fails ends the run with its cleaned
    /// message. With no key, or no extension chosen for it, no Lua call is
    /// made and `result` comes back unchanged. The second result records
    /// what was handed to Lua and what came back.
    pub fn trigger_post_hook(
        &self,
        storage: &Storage,
        command: &str,
        key: Option<&str>,
        value: Option<&str>,
        result: Option<&str>,
    ) -> (r: (Result<Option<String>, DatabaseError>, Ghost<TriggerRun>))
        ensures
            run_fits(
                r.1@,
                self.prefixes(),
                self.registry_keys(),
                storage@,
                HookKind::Post,
                command@,
                opt_view(key),
                opt_view(value),
                opt_view(result),
            ),
            r.1@.answer == answer_view(r.0),
            r.1@.answer == run_answer(r.1@, opt_view(result)),
    {
        self.trigger(storage, HookKind::Post, command, key, value, result, result)
    }
}

/// What `call_hook` was handed: the hook, the context, the store and the
/// names of the store queries.
pub type HookCallArgs = (
    mlua::Function,
    mlua::Table,
    Map<Seq<char>, Seq<char>>,
    Seq<char>,
    Seq<char>,
);

/// The text of an `mlua::Error` under any `CallbackError` wrappers: the
/// message of a `RuntimeError`, else the text that `Display` gives for the
/// error.
pub uninterp spec fn lua_error_text(err: mlua::Error) -> Seq<char>;

/// What one trigger did: the command, key, value and result it was run
/// with, and the store its hooks could query; the context fields handed to
/// Lua and the context table made from them, or the failure making it; one
/// call record per chosen extension, in load order up to the first
/// failure; what was read back from the context and what came back; and
/// the answer.
pub struct TriggerRun {
    pub command: Seq<char>,
    pub key: Option<Seq<char>>,
    pub value: Option<Seq<char>>,
    pub result: Option<Seq<char>>,
    pub store: Map<Seq<char>, Seq<char>>,
    pub context: Option<Seq<(Seq<char>, Seq<char>)>>,
    pub ctx: Option<mlua::Table>,
    pub setup_failure: Option<LuaFailure>,
    pub calls: Seq<HookCall>,
    pub read: Option<(mlua::Table, Seq<char>)>,
    pub read_back: Option<Option<Seq<char>>>,
    pub answer: Result<Option<Seq<char>>, ErrorView>,
}

/// One chosen extension's turn in a trigger, as the Lua calls echo it: its
/// position among the loaded extensions, the registry key handed on and the
/// table it gave, the table and name handed to the hook lookup and the
/// function it gave, what the hook call was handed, and the outcome.
pub struct HookCall {
    pub extension: int,
    pub registry: mlua::RegistryKey,
    pub fetched: Option<mlua::Table>,
    pub looked_up: Option<(mlua::Table, Seq<char>)>,
    pub found: Option<mlua::Function>,
    pub called: Option<HookCallArgs>,
    pub outcome: HookOutcome,
}

/// No Lua call was made.
pub open spec fn no_lua(run: TriggerRun) -> bool {
    &&& run.context is None
    &&& run.ctx is None
    &&& run.setup_failure is None
    &&& run.calls.len() == 0
    &&& run.read is None
    &&& run.read_back is None
}

/// The `j`-th call of a trigger of `kind`: it read the table of the `j`-th
/// chosen extension from the registry, looked up the `kind` hook in that
/// table, and called the function found with the context `ctx`, the store
/// `store` and the store query names; it is skipped exactly where the
/// table or the hook could not be read.
pub open spec fn call_fits(
    c: HookCall,
    j: int,
    idx: Seq<int>,
    keys: Seq<mlua::RegistryKey>,
    kind: HookKind,
    ctx: mlua::Table,
    store: Map<Seq<char>, Seq<char>>,
) -> bool {
    &&& c.extension == idx[j]
    &&& c.registry == keys[idx[j]]
    &&& c.fetched is Some <==> c.looked_up is Some
    &&& c.fetched matches Some(t) ==> c.looked_up == Some((t, hook_name_spec(kind)))
    &&& c.found is Some <==> c.called is Some
    &&& c.found is Some ==> c.fetched is Some
    &&& c.found matches Some(f) ==> c.called == Some((f, ctx, store, "get"@, "get_key_by_value"@))
    &&& (c.outcome is Skipped <==> c.called is None)
}

/// The calls of a trigger over the chosen positions `idx`: one per chosen
/// extension, in load order, each as [`call_fits`] says, ending early only
/// at the first failure.
pub open spec fn calls_follow(
    calls: Seq<HookCall>,
    idx: Seq<int>,
    keys: Seq<mlua::RegistryKey>,
    kind: HookKind,
    ctx: mlua::Table,
    store: Map<Seq<char>, Seq<char>>,
) -> bool {
    &&& 0 < calls.len() <= idx.len()
    &&& forall|j: int|
        0 <= j < calls.len() ==> call_fits(#[trigger] calls[j], j, idx, keys, kind, ctx, store)
    &&& forall|j: int| 0 <= j < calls.len() - 1 ==> !((#[trigger] calls[j]).outcome is Failed)
    &&& calls.len() < idx.len() ==> calls.last().outcome is Failed
}

/// Whether the last call failed.
pub open spec fn ends_in_failure(calls: Seq<HookCall>) -> bool {
    calls.len() > 0 && calls.last().outcome is Failed
}

/// A trigger of `kind` run with these arguments over extensions with the
/// prefixes `ps` and registry keys `keys`, on the store `store`, did what
/// it is for: with no key or no chosen extension it made no Lua call;
/// otherwise it handed Lua the context fields of its arguments, ran the
/// chosen extensions' `kind` hooks in load order on that context up to the
/// first failure, and read the `kind` answer field back from that context
/// unless a hook failed.
pub open spec fn run_fits(
    run: TriggerRun,
    ps: Seq<Seq<char>>,
    keys: Seq<mlua::RegistryKey>,
    store: Map<Seq<char>, Seq<char>>,
    kind: HookKind,
    command: Seq<char>,
    key: Option<Seq<char>>,
    value: Option<Seq<char>>,
    result: Option<Seq<char>>,
) -> bool {
    &&& run.command == command
    &&& run.key == key
    &&& run.value == value
    &&& run.result == result
    &&& run.store == store
    &&& if !selects(ps, key) {
        no_lua(run)
    } else {
        &&& run.context == Some(context_fields_spec(command, key, value, result))
        &&& match run.ctx {
            None => run.setup_failure is Some && run.calls.len() == 0 && run.read is None
                && run.read_back is None,
            Some(t) => {
                &&& run.setup_failure is None
                &&& calls_follow(run.calls, matching(ps, key->0), keys, kind, t, store)
                &&& run.read == if ends_in_failure(run.calls) {
                    None
                } else {
                    Some((t, answer_field_spec(kind)))
                }
                &&& run.read is None ==> run.read_back is None
            },
        }
    }
}

/// The answer that a trigger's record calls for: `fallback` where no
/// context was attempted; the cleaned message of a failure making it; else
/// [`hook_reply_spec`] of the calls' outcomes and what was read back.
pub open spec fn run_answer(run: TriggerRun, fallback: Option<Seq<char>>) -> Result<
    Option<Seq<char>>,
    ErrorView,
> {
    match run.context {
        None => Ok(fallback),
        Some(_) => match run.setup_failure {
            Some(f) => Err(ErrorView::Extension(clean_message(failure_text(f)))),
            None => hook_reply_spec(
                run.calls.map_values(|c: HookCall| c.outcome),
                run.read_back,
                fallback,
            ),
        },
    }
}

/// What loading one file did, as the Lua calls echo it: the source and
/// chunk name handed to the interpreter and the table it gave, the table
/// and field read for the declared prefix and what that read gave (see
/// [`text_read`]), the prefix taken as declared, the table handed to the
/// registry and whether the registry took it, and whether the extension
/// was added.
pub struct LoadRun {
    pub evaluated: Option<(Seq<char>, Seq<char>)>,
    pub table: Option<mlua::Table>,
    pub prefix_read: Option<(mlua::Table, Seq<char>)>,
    pub prefix_text: Option<Option<Seq<char>>>,
    pub declared: Option<Seq<char>>,
    pub stored: Option<mlua::Table>,
    pub kept: Option<bool>,
    pub registered: bool,
}

/// The prefix a table declares, from what the read of its `prefix` field
/// gave: the text where there was one, else none.
pub open spec fn declared_prefix(read: Option<Option<Seq<char>>>) -> Option<Seq<char>> {
    match read {
        Some(Some(p)) => Some(p),
        _ => None,
    }
}

/// Loading the file `name` with contents `source` did what it is for: a
/// `.lua` file with a non-blank source was handed, with its name, to the
/// interpreter, any other file to nothing; from the table it gave, the
/// declared prefix was read from the field `prefix` and is the text that
/// read gave, and that table was handed to the registry; the extension was
/// added exactly where the registry took the table.
pub open spec fn load_fits(run: LoadRun, name: Seq<char>, source: Seq<char>) -> bool {
    &&& run.evaluated == if lua_stem(name) is Some && trim(source).len() > 0 {
        Some((source, name))
    } else {
        None::<(Seq<char>, Seq<char>)>
    }
    &&& run.table is Some ==> run.evaluated is Some
    &&& match run.table {
        Some(t) => {
            &&& run.prefix_read == Some((t, "prefix"@))
            &&& run.declared == declared_prefix(run.prefix_text)
            &&& run.stored == Some(t)
            &&& run.kept is Some
        },
        None => {
            &&& run.prefix_read is None
            &&& run.prefix_text is None
            &&& run.declared is None
            &&& run.stored is None
            &&& run.kept is None
        },
    }
    &&& run.registered == (run.kept == Some(true))
}

/// Which hook a trigger runs: before a value is stored, or before a value
/// is shown.
pub enum HookKind {
    Pre,
    Post,
}

/// The name of the hook function of an extension's table.
pub open spec fn hook_name_spec(kind: HookKind) -> Seq<char> {
    match kind {
        HookKind::Pre => "pre_hook"@,
        HookKind::Post => "post_hook"@,
    }
}

/// The context field that a trigger reads back after the hooks.
pub open spec fn answer_field_spec(kind: HookKind) -> Seq<char> {
    match kind {
        HookKind::Pre => "value"@,
        HookKind::Post => "result"@,
    }
}

/// The name of the hook function that `kind` runs.
pub fn hook_name(kind: &HookKind) -> (s: &'static str)
    ensures
        s@ == hook_name_spec(*kind),
{
    match kind {
        HookKind::Pre => "pre_hook",
        HookKind::Post => "post_hook",
    }
}

/// The context field that `kind` reads back.
pub fn answer_field(kind: &HookKind) -> (s: &'static str)
    ensures
        s@ == answer_field_spec(*kind),
{
    match kind {
        HookKind::Pre => "value",
        HookKind::Post => "result",
    }
}

/// The names under which a running hook finds, in its context, the lookup
/// of a key's value and the reverse lookup of a value's key.
pub fn storage_query_names() -> (r: (&'static str, &'static str))
    ensures
        r.0@ == "get"@,
        r.1@ == "get_key_by_value"@,
{
    ("get", "get_key_by_value")
}

/// A named text field, where the text is present.
pub open spec fn optional_field(name: Seq<char>, text: Option<Seq<char>>) -> Seq<(Seq<char>, Seq<char>)> {
    match text {
        Some(t) => seq![(name, t)],
        None => seq![],
    }
}

/// The text fields of the context handed to hooks: the command, and the
/// key, value and result where there are any.
pub open spec fn context_fields_spec(
    command: Seq<char>,
    key: Option<Seq<char>>,
    value: Option<Seq<char>>,
    result: Option<Seq<char>>,
) -> Seq<(Seq<char>, Seq<char>)> {
    seq![("command"@, command)] + optional_field("key"@, key) + optional_field("value"@, value)
        + optional_field("result"@, result)
}

/// The views of named text fields.
pub open spec fn field_views(v: Seq<(String, String)>) -> Seq<(Seq<char>, Seq<char>)> {
    v.map_values(|f: (String, String)| (f.0@, f.1@))
}

fn push_field(fields: &mut Vec<(String, String)>, name: &str, text: Option<&str>)
    ensures
        field_views(final(fields)@) == field_views(old(fields)@) + optional_field(name@, opt_view(text)),
{
    let ghost before = fields@;
    if let Some(t) = text {
        fields.push((String::from_str(name), String::from_str(t)));
        assert(field_views(fields@) =~= field_views(before) + seq![(name@, t@)]);
    } else {
        assert(field_views(fields@) =~= field_views(before) + Seq::<(Seq<char>, Seq<char>)>::empty());
    }
}

/// The text fields of the context handed to hooks.
pub fn context_fields(
    command: &str,
    key: Option<&str>,
    value: Option<&str>,
    result: Option<&str>,
) -> (r: Vec<(String, String)>)
    ensures
        field_views(r@) == context_fields_spec(command@, opt_view(key), opt_view(value), opt_view(result)),
{
    let mut fields: Vec<(String, String)> = Vec::new();
    fields.push((String::from_str("command"), String::from_str(command)));
    assert(field_views(fields@) =~= seq![("command"@, command@)]);
    push_field(&mut fields, "key", key);
    push_field(&mut fields, "value", value);
    push_field(&mut fields, "result", result);
    fields
}

/// What became of one chosen extension during a trigger: its table or its
/// hook could not be read, so it was skipped; its hook (or, first of all,
/// building the context) failed; or its hook ran.
pub enum HookOutcome {
    Skipped,
    Failed(LuaFailure),
    Ran,
}

impl HookOutcome {
    /// Whether this is a failure.
    pub fn is_failure(&self) -> (b: bool)
        ensures
            b == (self is Failed),
    {
        match self {
            HookOutcome::Failed(_) => true,
            _ => false,
        }
    }
}

/// The first failure among the outcomes.
pub open spec fn first_failure(outcomes: Seq<HookOutcome>) -> Option<LuaFailure>
    decreases outcomes.len(),
{
    if outcomes.len() == 0 {
        None
    } else {
        match outcomes[0] {
            HookOutcome::Failed(f) => Some(f),
            _ => first_failure(outcomes.drop_first()),
        }
    }
}

/// The answer of a trigger: the cleaned message of the first failure, else
/// the text read back from the context (`None` for a missing field), else,
/// where the field could not be read as text, the fallback.
pub open spec fn hook_reply_spec(
    outcomes: Seq<HookOutcome>,
    read_back: Option<Option<Seq<char>>>,
    fallback: Option<Seq<char>>,
) -> Result<Option<Seq<char>>, ErrorView> {
    match first_failure(outcomes) {
        Some(f) => Err(ErrorView::Extension(clean_message(failure_text(f)))),
        None => match read_back {
            Some(v) => Ok(v),
            None => Ok(fallback),
        },
    }
}

/// The view of a trigger's answer.
pub open spec fn answer_view(r: Result<Option<String>, DatabaseError>) -> Result<
    Option<Seq<char>>,
    ErrorView,
> {
    match r {
        Ok(v) => Ok(opt_string_view(v)),
        Err(e) => Err(e@),
    }
}

/// What a read of a text field gives: `Some` of the text, or of `None` for
/// a missing field, where it could be read as text; `None` where it could
/// not.
pub open spec fn text_read(r: Result<Option<String>, mlua::Error>) -> Option<Option<Seq<char>>> {
    match r {
        Ok(v) => Some(opt_string_view(v)),
        Err(_) => None,
    }
}

/// The view of what was read back from the context.
pub open spec fn opt_opt_view(o: Option<Option<String>>) -> Option<Option<Seq<char>>> {
    match o {
        Some(v) => Some(opt_string_view(v)),
        None => None,
    }
}

/// The answer of a trigger from the outcomes of its hooks and what was read
/// back from the context.
pub fn hook_reply(
    outcomes: &Vec<HookOutcome>,
    read_back: Option<Option<String>>,
    fallback: Option<&str>,
) -> (r: Result<Option<String>, DatabaseError>)
    ensures
        answer_view(r) == hook_reply_spec(outcomes@, opt_opt_view(read_back), opt_view(fallback)),
{
    let mut i: usize = 0;
    assert(outcomes@.skip(0) =~= outcomes@);
    while i < outcomes.len()
        invariant
            i <= outcomes@.len(),
            first_failure(outcomes@) == first_failure(outcomes@.skip(i as int)),
        decreases outcomes@.len() - i,
    {
        assert(outcomes@.skip(i as int).drop_first() =~= outcomes@.skip(i + 1));
        if let HookOutcome::Failed(f) = &outcomes[i] {
            return Err(clean_failure(f));
        }
        i = i + 1;
    }
    assert(outcomes@.skip(i as int).len() == 0);
    match read_back {
        Some(v) => Ok(v),
        None => Ok(owned(fallback)),
    }
}

} // verus!
