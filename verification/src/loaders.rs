//! The sources of a configuration: command-line flags, environment
//! variables and files on disk, each read from a snapshot.

use vstd::prelude::*;
use crate::coerce::{coerced, coercion_failure, Snapshot};
use crate::document::document_of;
use crate::error::Error;
use crate::schema::{Declared, Schema};
use crate::template::{binding, find_binding};
use crate::text::{
    append_str, chars_of, find_char, join, join_strings, lowercase, lowercased, matches_at,
    offset_of, replace, replaced, split, split_chars, string_of, uppercase, uppercased, views,
};
use crate::tree::{assign, empty_object, put, segments, Tree};
use crate::value::{Table, Value};

verus! {

/// A path with the raw token that a source gives for it, if it gives one.
pub struct RawEntry {
    pub path: String,
    pub raw: Option<String>,
}

/// The path and the raw token of an entry, as plain text.
pub open spec fn entry_view(e: RawEntry) -> (Seq<char>, Option<Seq<char>>) {
    (
        e.path@,
        match e.raw {
            Some(t) => Some(t@),
            None => None,
        },
    )
}

/// The entries as plain text.
pub open spec fn entry_views(entries: Seq<RawEntry>) -> Seq<(Seq<char>, Option<Seq<char>>)> {
    Seq::new(entries.len(), |i: int| entry_view(entries[i]))
}

/// Whether `arg` is a flag: it begins with `--`.
pub open spec fn is_flag(arg: Seq<char>) -> bool {
    "--"@.is_prefix_of(arg)
}

/// What stands behind the `--` of a flag.
pub open spec fn flag_body(arg: Seq<char>) -> Seq<char> {
    arg.skip("--"@.len() as int)
}

/// The path that a flag names: what stands before its first `=`, with `.`
/// for every `--` and then `_` for every `-`.
pub open spec fn flag_path(arg: Seq<char>) -> Seq<char> {
    let body = flag_body(arg);
    let name = body.take(offset_of(body, '=') as int);
    replaced(replaced(name, "--"@, "."@), "-"@, "_"@)
}

/// The raw token of a flag: what follows its first `=`, if it has one.
pub open spec fn flag_raw(arg: Seq<char>) -> Option<Seq<char>> {
    let body = flag_body(arg);
    let at = offset_of(body, '=') as int;
    if at < body.len() {
        Some(body.skip(at + 1))
    } else {
        None
    }
}

/// The path and the raw token of the argument `arg`, whose lower-case form
/// is `lowered`: nothing where the filter `suffix` does not begin `lowered`,
/// where `arg` is no flag, or where `valued` is set and the flag has no `=`.
pub open spec fn flag_entry(
    arg: Seq<char>,
    lowered: Seq<char>,
    suffix: Option<Seq<char>>,
    valued: bool,
) -> Option<(Seq<char>, Option<Seq<char>>)> {
    let passes = match suffix {
        Some(s) => s.is_prefix_of(lowered),
        None => true,
    };
    if passes && is_flag(arg) && (!valued || flag_raw(arg) is Some) {
        Some((flag_path(arg), flag_raw(arg)))
    } else {
        None
    }
}

/// The flags among the first `n` of `args` that pass the filter, each with
/// its path and raw token. With `valued`, flags without `=` are left out.
pub open spec fn flag_entries(
    args: Seq<Seq<char>>,
    n: int,
    suffix: Option<Seq<char>>,
    valued: bool,
) -> Seq<(Seq<char>, Option<Seq<char>>)>
    decreases n,
{
    if n <= 0 || n > args.len() {
        Seq::empty()
    } else {
        let done = flag_entries(args, n - 1, suffix, valued);
        match flag_entry(args[n - 1], lowercased(args[n - 1]), suffix, valued) {
            Some(entry) => done.push(entry),
            None => done,
        }
    }
}

/// The prefix that marks the environment variables of an application: its
/// name and `__`.
pub open spec fn env_prefix(app: Seq<char>) -> Seq<char> {
    app + "__"@
}

/// The upper-case form of the first `n` characters of `name`; nothing where
/// `name` is shorter.
pub open spec fn upper_head(name: Seq<char>, n: int) -> Option<Seq<char>> {
    if name.len() >= n {
        Some(uppercased(name.take(n)))
    } else {
        None
    }
}

/// Whether a variable belongs to an application, told from the upper-case
/// forms of the application's prefix and of the variable's head: the
/// variable is long enough, and the two are equal.
pub open spec fn heads_match(upper_prefix: Seq<char>, head: Option<Seq<char>>) -> bool {
    head == Some(upper_prefix)
}

/// Whether the variable `name` belongs to the application `app`: it begins
/// with the application's prefix, whatever the case.
pub open spec fn env_matches(app: Seq<char>, name: Seq<char>) -> bool {
    heads_match(
        uppercased(env_prefix(app)),
        upper_head(name, env_prefix(app).len() as int),
    )
}

/// Each of `parts` in lower case.
pub open spec fn lowered(parts: Seq<Seq<char>>) -> Seq<Seq<char>> {
    Seq::new(parts.len(), |i: int| lowercased(parts[i]))
}

/// The path that a variable of the application names: what follows the
/// prefix, cut at every `__`, each piece in lower case, joined by `.`.
pub open spec fn env_path(app: Seq<char>, name: Seq<char>) -> Seq<char> {
    join(lowered(split(name.skip(env_prefix(app).len() as int), "__"@)), "."@)
}

/// The variables of the application among the first `n` of `vars`, each
/// with its path and its value as the raw token.
pub open spec fn env_entries(app: Seq<char>, vars: Seq<(String, String)>, n: int) -> Seq<
    (Seq<char>, Option<Seq<char>>),
>
    decreases n,
{
    if n <= 0 || n > vars.len() {
        Seq::empty()
    } else {
        let done = env_entries(app, vars, n - 1);
        if env_matches(app, vars[n - 1].0@) {
            done.push((env_path(app, vars[n - 1].0@), Some(vars[n - 1].1@)))
        } else {
            done
        }
    }
}

/// What a schema declares a path as; nothing without a schema.
pub open spec fn declared_in(
    schema: Option<Map<Seq<char>, (Declared, Tree)>>,
    path: Seq<char>,
) -> Option<Declared> {
    match schema {
        Some(m) => if m.contains_key(path) {
            Some(m[path].0)
        } else {
            None
        },
        None => None,
    }
}

/// The text of a raw token; a missing token reads as the empty text.
pub open spec fn raw_text(raw: Option<Seq<char>>) -> Seq<char> {
    match raw {
        Some(t) => t,
        None => Seq::empty(),
    }
}

/// The tree that the first `n` of `entries` build, starting from the empty
/// object, or nothing where a token cannot be read. Each token is read for
/// its path: as the schema declares the path, or by its tags where the
/// schema does not declare it. With `merging` it is assigned at the path
/// and merged with what is there, else it is stored in place of it.
pub open spec fn layer(
    entries: Seq<(Seq<char>, Option<Seq<char>>)>,
    n: int,
    schema: Option<Map<Seq<char>, (Declared, Tree)>>,
    merging: bool,
    snapshot: Snapshot,
) -> Option<Tree>
    decreases n,
{
    if n <= 0 || n > entries.len() {
        Some(empty_object())
    } else {
        match layer(entries, n - 1, schema, merging, snapshot) {
            Some(t) => {
                let (path, raw) = entries[n - 1];
                match coerced(raw, declared_in(schema, path), snapshot) {
                    Some(v) => if merging {
                        Some(assign(t, segments(path), v))
                    } else {
                        Some(put(t, segments(path), v))
                    },
                    None => None,
                }
            },
            None => None,
        }
    }
}

/// Whether `e` is the failure of the first of the first `n` of `entries`
/// whose token cannot be read: the failure to read it as its path is
/// declared, or the failure of its tags.
pub open spec fn layer_failure(
    entries: Seq<(Seq<char>, Option<Seq<char>>)>,
    n: int,
    schema: Option<Map<Seq<char>, (Declared, Tree)>>,
    merging: bool,
    snapshot: Snapshot,
    e: Error,
) -> bool
    decreases n,
{
    if n <= 0 || n > entries.len() {
        false
    } else if layer(entries, n - 1, schema, merging, snapshot) is None {
        layer_failure(entries, n - 1, schema, merging, snapshot, e)
    } else {
        let (path, raw) = entries[n - 1];
        &&& coerced(raw, declared_in(schema, path), snapshot) is None
        &&& coercion_failure(raw_text(raw), path, declared_in(schema, path), e)
    }
}

/// Once a part of the entries builds nothing, no longer part builds a tree,
/// and the failure stays the same.
proof fn lemma_layer_none(
    entries: Seq<(Seq<char>, Option<Seq<char>>)>,
    n: int,
    m: int,
    schema: Option<Map<Seq<char>, (Declared, Tree)>>,
    merging: bool,
    snapshot: Snapshot,
    e: Error,
)
    requires
        0 <= n <= m <= entries.len(),
        layer(entries, n, schema, merging, snapshot) is None,
    ensures
        layer(entries, m, schema, merging, snapshot) is None,
        layer_failure(entries, n, schema, merging, snapshot, e) ==> layer_failure(
            entries,
            m,
            schema,
            merging,
            snapshot,
            e,
        ),
    decreases m - n,
{
    if n < m {
        lemma_layer_none(entries, n, m - 1, schema, merging, snapshot, e);
    }
}

/// The view of a schema that may be missing.
pub open spec fn schema_view(schema: Option<&Schema>) -> Option<Map<Seq<char>, (Declared, Tree)>> {
    match schema {
        Some(s) => Some(s@),
        None => None,
    }
}

/// Builds a tree from `entries`, in their order. The first token that
/// cannot be read fails the whole, with its own failure.
pub fn build_layer(
    entries: &Vec<RawEntry>,
    schema: Option<&Schema>,
    merging: bool,
    snapshot: &Snapshot,
) -> (r: Result<Value, Error>)
    ensures
        match r {
            Ok(v) => layer(
                entry_views(entries@),
                entries@.len() as int,
                schema_view(schema),
                merging,
                *snapshot,
            ) == Some(v@),
            Err(e) => {
                &&& layer(
                    entry_views(entries@),
                    entries@.len() as int,
                    schema_view(schema),
                    merging,
                    *snapshot,
                ) is None
                &&& layer_failure(
                    entry_views(entries@),
                    entries@.len() as int,
                    schema_view(schema),
                    merging,
                    *snapshot,
                    e,
                )
            },
        },
{
    let ghost all = entry_views(entries@);
    let ghost decl = schema_view(schema);
    let mut root = Value::Object(Table::new());
    let mut i: usize = 0;
    while i < entries.len()
        invariant
            i <= entries@.len(),
            all == entry_views(entries@),
            decl == schema_view(schema),
            layer(all, i as int, decl, merging, *snapshot) == Some(root@),
        decreases entries@.len() - i,
    {
        let entry = &entries[i];
        assert(all[i as int] == entry_view(*entry));
        let raw = match &entry.raw {
            Some(t) => Some(t.clone()),
            None => None,
        };
        let read = match schema {
            Some(s) => Value::from_raw_with_schema_and_path(raw, entry.path.as_str(), s, snapshot),
            None => {
                let empty = Schema::new().build();
                Value::from_raw_with_schema_and_path(raw, entry.path.as_str(), &empty, snapshot)
            },
        };
        match read {
            Ok(v) => {
                if merging {
                    root.set_path(entry.path.as_str(), v);
                } else {
                    root.set(entry.path.as_str(), v);
                }
            },
            Err(e) => {
                proof {
                    assert(layer(all, i + 1, decl, merging, *snapshot) is None);
                    assert(layer_failure(all, i + 1, decl, merging, *snapshot, e));
                    lemma_layer_none(all, i + 1, all.len() as int, decl, merging, *snapshot, e);
                }
                return Err(e);
            },
        }
        i += 1;
    }
    Ok(root)
}

/// The entry of the argument `arg`, whose lower-case form is `lowered`, for
/// a loader with the filter `suffix`.
pub fn read_flag(arg: &str, lowered: &str, suffix: &Option<String>, valued: bool) -> (r: Option<
    RawEntry,
>)
    ensures
        match r {
            Some(e) => flag_entry(
                arg@,
                lowered@,
                match suffix {
                    Some(s) => Some(s@),
                    None => None,
                },
                valued,
            ) == Some(entry_view(e)),
            None => flag_entry(
                arg@,
                lowered@,
                match suffix {
                    Some(s) => Some(s@),
                    None => None,
                },
                valued,
            ) is None,
        },
{
    let v = chars_of(arg);
    let dashes = chars_of("--");
    proof {
        reveal_strlit("--");
        reveal_strlit("-");
    }
    let passes = match suffix {
        Some(s) => crate::text::starts_with(&chars_of(lowered), &chars_of(s.as_str())),
        None => true,
    };
    if passes && crate::text::starts_with(&v, &dashes) {
        let total = v.len();
        assert("--"@.len() == 2);
        let at = find_char(&v, 2, '=');
        assert(2 + at <= total);
        let name = string_of(&v, 2, 2 + at);
        proof {
            assert(v@.subrange(2, 2 + at) == v@.skip(2).take(at as int));
        }
        let dotted = replace(name.as_str(), "--", ".");
        let path = replace(dotted.as_str(), "-", "_");
        let raw = if 2 + at < v.len() {
            assert(v@.subrange(2 + at + 1, v@.len() as int) == v@.skip(2).skip(at + 1));
            Some(string_of(&v, 2 + at + 1, v.len()))
        } else {
            None
        };
        if !valued || raw.is_some() {
            Some(RawEntry { path, raw })
        } else {
            None
        }
    } else {
        None
    }
}

/// The flags among `args` that pass the filter `suffix`.
pub fn read_flags(args: &Vec<String>, suffix: &Option<String>, valued: bool) -> (entries: Vec<
    RawEntry,
>)
    ensures
        entry_views(entries@) == flag_entries(
            views(args@),
            args@.len() as int,
            match suffix {
                Some(s) => Some(s@),
                None => None,
            },
            valued,
        ),
{
    let ghost all = views(args@);
    let ghost filter = match suffix {
        Some(s) => Some(s@),
        None => None,
    };
    let mut entries: Vec<RawEntry> = Vec::new();
    let mut i: usize = 0;
    assert(entry_views(entries@) =~= Seq::empty());
    while i < args.len()
        invariant
            i <= args@.len(),
            all == views(args@),
            filter == (match suffix {
                Some(s) => Some(s@),
                None => None,
            }),
            entry_views(entries@) == flag_entries(all, i as int, filter, valued),
        decreases args@.len() - i,
    {
        assert(all[i as int] == args@[i as int]@);
        let lowered = lowercase(args[i].as_str());
        match read_flag(args[i].as_str(), lowered.as_str(), suffix, valued) {
            Some(entry) => {
                let ghost before = entries@;
                entries.push(entry);
                assert(entry_views(entries@) =~= entry_views(before).push(entry_view(entry)));
            },
            None => {},
        }
        i += 1;
    }
    entries
}

/// Whether a variable belongs to an application, told from the upper-case
/// form of the application's prefix and that of the variable's head.
pub fn belongs(upper_prefix: &str, head: &Option<String>) -> (r: bool)
    ensures
        r == heads_match(
            upper_prefix@,
            match head {
                Some(h) => Some(h@),
                None => None,
            },
        ),
{
    match head {
        Some(h) => *h == upper_prefix.to_owned(),
        None => false,
    }
}

/// The entry of a variable with the value `value` whose name, behind the
/// prefix, has the pieces `lowered` in lower case.
pub fn variable_entry(lowered: &Vec<String>, value: &str) -> (r: RawEntry)
    ensures
        entry_view(r) == (join(views(lowered@), "."@), Some(value@)),
{
    RawEntry { path: join_strings(lowered, "."), raw: Some(value.to_owned()) }
}

/// Each of `parts` in lower case.
fn lower_all(parts: &Vec<String>) -> (r: Vec<String>)
    ensures
        views(r@) == lowered(views(parts@)),
{
    let mut r: Vec<String> = Vec::new();
    let mut i: usize = 0;
    while i < parts.len()
        invariant
            i <= parts@.len(),
            r@.len() == i,
            forall|j: int| 0 <= j < i ==> r@[j]@ == lowercased(parts@[j]@),
        decreases parts@.len() - i,
    {
        r.push(lowercase(parts[i].as_str()));
        i += 1;
    }
    assert(views(r@) =~= lowered(views(parts@)));
    r
}

/// The variables of the application `app` among `vars`.
pub fn read_env(app: &str, vars: &Vec<(String, String)>) -> (entries: Vec<RawEntry>)
    ensures
        entry_views(entries@) == env_entries(app@, vars@, vars@.len() as int),
{
    let mut prefix = chars_of(app);
    append_str(&mut prefix, "__");
    assert(prefix@.subrange(0, prefix@.len() as int) == prefix@);
    let wanted = uppercase(string_of(&prefix, 0, prefix.len()).as_str());
    let underscores = chars_of("__");
    proof {
        reveal_strlit("__");
    }
    let mut entries: Vec<RawEntry> = Vec::new();
    let mut i: usize = 0;
    assert(entry_views(entries@) =~= Seq::empty());
    while i < vars.len()
        invariant
            i <= vars@.len(),
            prefix@ == env_prefix(app@),
            wanted@ == uppercased(env_prefix(app@)),
            underscores@ == "__"@,
            "__"@.len() == 2,
            entry_views(entries@) == env_entries(app@, vars@, i as int),
        decreases vars@.len() - i,
    {
        let name = chars_of(vars[i].0.as_str());
        let n = prefix.len();
        let head = if name.len() >= n {
            assert(name@.subrange(0, n as int) == name@.take(n as int));
            Some(uppercase(string_of(&name, 0, n).as_str()))
        } else {
            None
        };
        if belongs(wanted.as_str(), &head) {
            let rest = string_of(&name, n, name.len());
            assert(name@.subrange(n as int, name@.len() as int) == name@.skip(n as int));
            let parts = split_chars(&chars_of(rest.as_str()), &underscores);
            let lower = lower_all(&parts);
            let ghost before = entries@;
            let entry = variable_entry(&lower, vars[i].1.as_str());
            entries.push(entry);
            assert(entry_views(entries@) =~= entry_views(before).push(entry_view(entry)));
        }
        i += 1;
    }
    entries
}

/// Reads a configuration layer from a snapshot of the surroundings.
pub trait Loader {
    fn collect(&mut self, application_name: &str, schema: &Schema, snapshot: &Snapshot) -> Result<
        Value,
        Error,
    >;
}

/// Reads the command-line flags. A flag `--server--port=8000` names the
/// path `server.port`; a filter, where one is set, is expected at the start
/// of every flag that is considered.
pub struct CliLoader {
    suffix: Option<String>,
}

impl CliLoader {
    /// The filter, in lower case.
    pub closed spec fn suffix(&self) -> Option<Seq<char>> {
        match self.suffix {
            Some(s) => Some(s@),
            None => None,
        }
    }

    /// A loader without a filter.
    pub fn new() -> (r: CliLoader)
        ensures
            r.suffix() is None,
    {
        CliLoader { suffix: None }
    }

    /// A loader that considers only the arguments that begin with `suffix`,
    /// whatever the case.
    pub fn with_suffix(suffix: &str) -> (r: CliLoader)
        ensures
            r.suffix() == Some(lowercased(suffix@)),
    {
        CliLoader { suffix: Some(lowercase(suffix)) }
    }

    /// The layer of the flags in `snapshot` that pass the filter: each token
    /// is read as `schema` declares its path, or by its tags where the
    /// schema does not declare the path, and merged in at its path. The
    /// first token that cannot be read fails the whole, with its failure.
    pub fn read(&self, schema: &Schema, snapshot: &Snapshot) -> (r: Result<Value, Error>)
        ensures
            match r {
                Ok(v) => cli_layer(self.suffix(), schema@, *snapshot) == Some(v@),
                Err(e) => cli_layer(self.suffix(), schema@, *snapshot) is None && cli_failure(
                    self.suffix(),
                    schema@,
                    *snapshot,
                    e,
                ),
            },
    {
        let entries = read_flags(&snapshot.args, &self.suffix, false);
        build_layer(&entries, Some(schema), true, snapshot)
    }
}

/// The layer of the command-line flags.
pub open spec fn cli_layer(
    suffix: Option<Seq<char>>,
    schema: Map<Seq<char>, (Declared, Tree)>,
    snapshot: Snapshot,
) -> Option<Tree> {
    let entries = flag_entries(views(snapshot.args@), snapshot.args@.len() as int, suffix, false);
    layer(entries, entries.len() as int, Some(schema), true, snapshot)
}

/// Whether `e` is the failure of the first flag whose token cannot be read.
pub open spec fn cli_failure(
    suffix: Option<Seq<char>>,
    schema: Map<Seq<char>, (Declared, Tree)>,
    snapshot: Snapshot,
    e: Error,
) -> bool {
    let entries = flag_entries(views(snapshot.args@), snapshot.args@.len() as int, suffix, false);
    layer_failure(entries, entries.len() as int, Some(schema), true, snapshot, e)
}

impl Loader for CliLoader {
    /// The layer of the flags in `snapshot` that pass the loader's filter,
    /// as `read` gives it. The loader itself stays as it is.
    fn collect(&mut self, application_name: &str, schema: &Schema, snapshot: &Snapshot) -> (r:
        Result<Value, Error>)
        ensures
            *final(self) == *old(self),
            match r {
                Ok(v) => cli_layer(old(self).suffix(), schema@, *snapshot) == Some(v@),
                Err(e) => cli_layer(old(self).suffix(), schema@, *snapshot) is None
                    && cli_failure(old(self).suffix(), schema@, *snapshot, e),
            },
    {
        self.read(schema, snapshot)
    }
}

/// Reads the environment variables of the application. A variable
/// `APP__SERVER__PORT` names the path `server.port`.
pub struct EnvLoader {}

/// The layer of the environment variables.
pub open spec fn env_layer(
    app: Seq<char>,
    schema: Map<Seq<char>, (Declared, Tree)>,
    snapshot: Snapshot,
) -> Option<Tree> {
    let entries = env_entries(app, snapshot.sources.env@, snapshot.sources.env@.len() as int);
    layer(entries, entries.len() as int, Some(schema), true, snapshot)
}

/// Whether `e` is the failure of the first variable of the application whose
/// value cannot be read.
pub open spec fn env_failure(
    app: Seq<char>,
    schema: Map<Seq<char>, (Declared, Tree)>,
    snapshot: Snapshot,
    e: Error,
) -> bool {
    let entries = env_entries(app, snapshot.sources.env@, snapshot.sources.env@.len() as int);
    layer_failure(entries, entries.len() as int, Some(schema), true, snapshot, e)
}

impl EnvLoader {
    pub fn new() -> (r: EnvLoader) {
        EnvLoader {  }
    }

    /// The layer of the variables of `application_name` in `snapshot`, each
    /// value read as its path is declared, or by its tags where the schema
    /// does not declare the path, and merged in at its path. The first value
    /// that cannot be read fails the whole, with its failure.
    pub fn read(&self, application_name: &str, schema: &Schema, snapshot: &Snapshot) -> (r: Result<
        Value,
        Error,
    >)
        ensures
            match r {
                Ok(v) => env_layer(application_name@, schema@, *snapshot) == Some(v@),
                Err(e) => env_layer(application_name@, schema@, *snapshot) is None && env_failure(
                    application_name@,
                    schema@,
                    *snapshot,
                    e,
                ),
            },
    {
        let entries = read_env(application_name, &snapshot.sources.env);
        build_layer(&entries, Some(schema), true, snapshot)
    }
}

impl Loader for EnvLoader {
    /// The layer of the variables of `application_name` in `snapshot`, as
    /// `read` gives it. The loader itself stays as it is.
    fn collect(&mut self, application_name: &str, schema: &Schema, snapshot: &Snapshot) -> (r:
        Result<Value, Error>)
        ensures
            *final(self) == *old(self),
            match r {
                Ok(v) => env_layer(application_name@, schema@, *snapshot) == Some(v@),
                Err(e) => env_layer(application_name@, schema@, *snapshot) is None && env_failure(
                    application_name@,
                    schema@,
                    *snapshot,
                    e,
                ),
            },
    {
        self.read(application_name, schema, snapshot)
    }
}

/// Why the environment could not be read.
pub enum EnvLoaderError {
    Unknown,
}

impl EnvLoaderError {
    /// The failure in words.
    pub fn message(&self) -> (r: String)
        ensures
            r@ == "Unknown error"@,
    {
        "Unknown error".to_owned()
    }
}

/// Why the files on disk could not be read.
pub enum DiskLoaderError {
    Unknown,
}

impl DiskLoaderError {
    /// The failure in words.
    pub fn message(&self) -> (r: String)
        ensures
            r@ == "Unknown error"@,
    {
        "Unknown error".to_owned()
    }
}

} // verus!
