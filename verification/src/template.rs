//! Template expansion of string leaves: `${NAME}` reads an environment
//! variable, `$(path)` reads a file, a backslash escapes.

use vstd::prelude::*;
use crate::text::{append_str, chars_of, string_of};
use crate::tree::Tree;
use crate::value::{Table, Value};

verus! {

/// The most passes that one string is given.
pub const CEILING: usize = 10000;

/// What the surroundings of the process held when they were read: the
/// environment variables by name, and the regular files by path, each with
/// its whole contents. The first entry for a name or a path counts.
pub struct Sources {
    pub env: Vec<(String, String)>,
    pub files: Vec<(String, String)>,
}

impl Sources {
    /// The variables and the files, as plain sequences.
    pub open spec fn view(&self) -> (Seq<(String, String)>, Seq<(String, String)>) {
        (self.env@, self.files@)
    }
}

impl Clone for Sources {
    fn clone(&self) -> (r: Sources)
        ensures
            r@ == self@,
    {
        Sources { env: copy_pairs(&self.env), files: copy_pairs(&self.files) }
    }
}

/// A copy of `pairs`.
fn copy_pairs(pairs: &Vec<(String, String)>) -> (r: Vec<(String, String)>)
    ensures
        r@ == pairs@,
{
    let mut r: Vec<(String, String)> = Vec::new();
    let mut i: usize = 0;
    while i < pairs.len()
        invariant
            i <= pairs@.len(),
            r@ == pairs@.take(i as int),
        decreases pairs@.len() - i,
    {
        r.push((pairs[i].0.clone(), pairs[i].1.clone()));
        assert(pairs@.take(i + 1) == pairs@.take(i as int).push(pairs@[i as int]));
        i += 1;
    }
    assert(pairs@.take(pairs@.len() as int) == pairs@);
    r
}

/// Where the scanner stands.
#[derive(Clone, Copy, PartialEq, Eq, Structural)]
pub enum Mode {
    /// In plain text.
    Plain,
    /// Behind a backslash.
    Escape,
    /// Behind a `$`.
    Dollar,
    /// In the name of `${NAME}`.
    Brace,
    /// In the path of `$(path)`.
    Paren,
}

/// The scanner's state: where it stands, what it has emitted, the name or
/// path it is collecting, and whether it has substituted anything.
pub struct Scan {
    pub mode: Mode,
    pub out: Seq<char>,
    pub name: Seq<char>,
    pub used: bool,
}

/// What the first entry of `table` under `name` holds; nothing when there is
/// no such entry.
pub open spec fn binding(table: Seq<(String, String)>, name: Seq<char>) -> Seq<char>
    decreases table.len(),
{
    if table.len() == 0 {
        Seq::empty()
    } else if table[0].0@ == name {
        table[0].1@
    } else {
        binding(table.drop_first(), name)
    }
}

/// Whether `table` has an entry under `name`.
pub open spec fn bound(table: Seq<(String, String)>, name: Seq<char>) -> bool
    decreases table.len(),
{
    if table.len() == 0 {
        false
    } else if table[0].0@ == name {
        true
    } else {
        bound(table.drop_first(), name)
    }
}

/// The scanner's move on the character `c`.
///
/// In plain text a backslash and a `$` are held back, every other character
/// is emitted. Behind a backslash, `$` and `\` are emitted as they are and
/// any other character is dropped. Behind a `$`, `{` and `(` open a name or
/// a path; another `$` emits the one held back and is held back itself; a
/// backslash emits the `$` and escapes what follows; any other character is
/// emitted after the `$`. In a name or a path every character is collected
/// until the closing `}` or `)`, which emits the value found under it.
pub open spec fn scan_step(
    st: Scan,
    c: char,
    env: Seq<(String, String)>,
    files: Seq<(String, String)>,
) -> Scan {
    match st.mode {
        Mode::Plain => if c == '\\' {
            Scan { mode: Mode::Escape, out: st.out, name: st.name, used: st.used }
        } else if c == '$' {
            Scan { mode: Mode::Dollar, out: st.out, name: st.name, used: st.used }
        } else {
            Scan { mode: Mode::Plain, out: st.out.push(c), name: st.name, used: st.used }
        },
        Mode::Escape => if c == '$' || c == '\\' {
            Scan { mode: Mode::Plain, out: st.out.push(c), name: st.name, used: st.used }
        } else {
            Scan { mode: Mode::Plain, out: st.out, name: st.name, used: st.used }
        },
        Mode::Dollar => if c == '{' {
            Scan { mode: Mode::Brace, out: st.out, name: Seq::empty(), used: st.used }
        } else if c == '(' {
            Scan { mode: Mode::Paren, out: st.out, name: Seq::empty(), used: st.used }
        } else if c == '$' {
            Scan { mode: Mode::Dollar, out: st.out.push('$'), name: st.name, used: st.used }
        } else if c == '\\' {
            Scan { mode: Mode::Escape, out: st.out.push('$'), name: st.name, used: st.used }
        } else {
            Scan { mode: Mode::Plain, out: st.out.push('$').push(c), name: st.name, used: st.used }
        },
        Mode::Brace => if c == '}' {
            Scan {
                mode: Mode::Plain,
                out: st.out + binding(env, st.name),
                name: Seq::empty(),
                used: true,
            }
        } else {
            Scan { mode: Mode::Brace, out: st.out, name: st.name.push(c), used: st.used }
        },
        Mode::Paren => if c == ')' {
            Scan {
                mode: Mode::Plain,
                out: st.out + binding(files, st.name),
                name: Seq::empty(),
                used: true,
            }
        } else {
            Scan { mode: Mode::Paren, out: st.out, name: st.name.push(c), used: st.used }
        },
    }
}

/// The scanner's state after the characters of `s`, read from the left.
pub open spec fn scan(s: Seq<char>, env: Seq<(String, String)>, files: Seq<(String, String)>) -> Scan
    decreases s.len(),
{
    if s.len() == 0 {
        Scan { mode: Mode::Plain, out: Seq::empty(), name: Seq::empty(), used: false }
    } else {
        scan_step(scan(s.drop_last(), env, files), s.last(), env, files)
    }
}

/// What has been emitted when the input ends in the state `st`. A `$` that
/// was held back is emitted; a name or a path that was never closed is
/// emitted as it was written. A backslash at the very end is dropped.
pub open spec fn finish(st: Scan) -> Seq<char> {
    match st.mode {
        Mode::Plain => st.out,
        Mode::Escape => st.out,
        Mode::Dollar => st.out.push('$'),
        Mode::Brace => st.out.push('$').push('{') + st.name,
        Mode::Paren => st.out.push('$').push('(') + st.name,
    }
}

/// The text after up to `passes` passes: each pass scans the whole text, and
/// another pass follows only where the last one substituted something.
pub open spec fn expand(
    s: Seq<char>,
    env: Seq<(String, String)>,
    files: Seq<(String, String)>,
    passes: nat,
) -> Seq<char>
    decreases passes,
{
    if passes == 0 {
        s
    } else {
        let st = scan(s, env, files);
        if st.used {
            expand(finish(st), env, files, (passes - 1) as nat)
        } else {
            finish(st)
        }
    }
}

/// The tree with every string leaf expanded, through lists and objects.
/// Secrets and all other nodes stay as they are.
pub open spec fn expand_tree(t: Tree, env: Seq<(String, String)>, files: Seq<(String, String)>) -> Tree
    decreases t,
{
    match t {
        Tree::Text(s) => Tree::Text(expand(s, env, files, CEILING as nat)),
        Tree::List(l) => Tree::List(
            Seq::new(
                l.len(),
                |i: int|
                    if 0 <= i < l.len() {
                        expand_tree(l[i], env, files)
                    } else {
                        Tree::Absent
                    },
            ),
        ),
        Tree::Object(m) => Tree::Object(
            Map::new(
                |k: Seq<char>| m.contains_key(k),
                |k: Seq<char>|
                    if m.contains_key(k) {
                        expand_tree(m[k], env, files)
                    } else {
                        Tree::Absent
                    },
            ),
        ),
        _ => t,
    }
}

/// The contents of the first entry of `table` under `name`, if there is one.
pub fn find_binding<'a>(table: &'a Vec<(String, String)>, name: &String) -> (r: Option<&'a String>)
    ensures
        match r {
            Some(v) => bound(table@, name@) && v@ == binding(table@, name@),
            None => !bound(table@, name@) && binding(table@, name@) == Seq::<char>::empty(),
        },
{
    let mut i: usize = 0;
    assert(table@.skip(0) == table@);
    while i < table.len()
        invariant
            i <= table@.len(),
            binding(table@, name@) == binding(table@.skip(i as int), name@),
            bound(table@, name@) == bound(table@.skip(i as int), name@),
        decreases table@.len() - i,
    {
        proof {
            let rest = table@.skip(i as int);
            assert(rest[0] == table@[i as int]);
            assert(rest.drop_first() == table@.skip(i + 1));
        }
        if table[i].0 == *name {
            return Some(&table[i].1);
        }
        i += 1;
    }
    None
}

/// One pass over `text`: what it emits, and whether it substituted anything.
pub fn expand_pass(text: &Vec<char>, sources: &Sources) -> (r: (Vec<char>, bool))
    ensures
        r.0@ == finish(scan(text@, sources.env@, sources.files@)),
        r.1 == scan(text@, sources.env@, sources.files@).used,
{
    let mut mode = Mode::Plain;
    let mut out: Vec<char> = Vec::new();
    let mut name: Vec<char> = Vec::new();
    let mut used = false;
    let mut i: usize = 0;
    assert(text@.take(0) == Seq::<char>::empty());
    while i < text.len()
        invariant
            i <= text@.len(),
            scan(text@.take(i as int), sources.env@, sources.files@) == (Scan {
                mode,
                out: out@,
                name: name@,
                used,
            }),
        decreases text@.len() - i,
    {
        let c = text[i];
        proof {
            let now = text@.take(i + 1);
            assert(now.drop_last() == text@.take(i as int));
            assert(now.last() == c);
        }
        match mode {
            Mode::Plain => {
                if c == '\\' {
                    mode = Mode::Escape;
                } else if c == '$' {
                    mode = Mode::Dollar;
                } else {
                    out.push(c);
                }
            },
            Mode::Escape => {
                if c == '$' || c == '\\' {
                    out.push(c);
                }
                mode = Mode::Plain;
            },
            Mode::Dollar => {
                if c == '{' {
                    mode = Mode::Brace;
                    name = Vec::new();
                } else if c == '(' {
                    mode = Mode::Paren;
                    name = Vec::new();
                } else if c == '$' {
                    out.push('$');
                } else if c == '\\' {
                    out.push('$');
                    mode = Mode::Escape;
                } else {
                    out.push('$');
                    out.push(c);
                    mode = Mode::Plain;
                }
            },
            Mode::Brace => {
                if c == '}' {
                    let key = string_of(&name, 0, name.len());
                    assert(key@ == name@);
                    match find_binding(&sources.env, &key) {
                        Some(v) => {
                            append_str(&mut out, v.as_str());
                        },
                        None => {
                            assert(out@ + Seq::<char>::empty() == out@);
                        },
                    }
                    mode = Mode::Plain;
                    name = Vec::new();
                    used = true;
                } else {
                    name.push(c);
                }
            },
            Mode::Paren => {
                if c == ')' {
                    let key = string_of(&name, 0, name.len());
                    assert(key@ == name@);
                    match find_binding(&sources.files, &key) {
                        Some(v) => {
                            append_str(&mut out, v.as_str());
                        },
                        None => {
                            assert(out@ + Seq::<char>::empty() == out@);
                        },
                    }
                    mode = Mode::Plain;
                    name = Vec::new();
                    used = true;
                } else {
                    name.push(c);
                }
            },
        }
        i += 1;
    }
    assert(text@.take(text@.len() as int) == text@);
    match mode {
        Mode::Plain => {},
        Mode::Escape => {},
        Mode::Dollar => {
            out.push('$');
        },
        Mode::Brace => {
            out.push('$');
            out.push('{');
            let mut rest = name;
            out.append(&mut rest);
        },
        Mode::Paren => {
            out.push('$');
            out.push('(');
            let mut rest = name;
            out.append(&mut rest);
        },
    }
    (out, used)
}

/// The paths of the files that one pass over `s` reads, in the order in
/// which it reads them.
pub open spec fn file_refs(s: Seq<char>) -> Seq<Seq<char>>
    decreases s.len(),
{
    if s.len() == 0 {
        Seq::empty()
    } else {
        let before = scan(s.drop_last(), Seq::empty(), Seq::empty());
        if before.mode == Mode::Paren && s.last() == ')' {
            file_refs(s.drop_last()).push(before.name)
        } else {
            file_refs(s.drop_last())
        }
    }
}

/// The paths of the files that one pass over `text` reads. Whoever takes a
/// snapshot of the surroundings reads these files into it.
pub fn referenced_files(text: &str) -> (paths: Vec<String>)
    ensures
        crate::text::views(paths@) == file_refs(text@),
{
    let v = chars_of(text);
    let ghost none = Seq::<(String, String)>::empty();
    let mut mode = Mode::Plain;
    let mut name: Vec<char> = Vec::new();
    let mut paths: Vec<String> = Vec::new();
    let mut i: usize = 0;
    assert(v@.take(0) == Seq::<char>::empty());
    assert(crate::text::views(paths@) =~= Seq::<Seq<char>>::empty());
    while i < v.len()
        invariant
            i <= v@.len(),
            none == Seq::<(String, String)>::empty(),
            scan(v@.take(i as int), none, none).mode == mode,
            scan(v@.take(i as int), none, none).name == name@,
            crate::text::views(paths@) == file_refs(v@.take(i as int)),
        decreases v@.len() - i,
    {
        let c = v[i];
        proof {
            let now = v@.take(i + 1);
            assert(now.drop_last() == v@.take(i as int));
            assert(now.last() == c);
        }
        match mode {
            Mode::Plain => {
                if c == '\\' {
                    mode = Mode::Escape;
                } else if c == '$' {
                    mode = Mode::Dollar;
                }
            },
            Mode::Escape => {
                mode = Mode::Plain;
            },
            Mode::Dollar => {
                if c == '{' {
                    mode = Mode::Brace;
                    name = Vec::new();
                } else if c == '(' {
                    mode = Mode::Paren;
                    name = Vec::new();
                } else if c == '$' {
                } else if c == '\\' {
                    mode = Mode::Escape;
                } else {
                    mode = Mode::Plain;
                }
            },
            Mode::Brace => {
                if c == '}' {
                    mode = Mode::Plain;
                    name = Vec::new();
                } else {
                    name.push(c);
                }
            },
            Mode::Paren => {
                if c == ')' {
                    let ghost before = paths@;
                    let path = string_of(&name, 0, name.len());
                    assert(path@ == name@);
                    paths.push(path);
                    assert(crate::text::views(paths@) =~= crate::text::views(before).push(path@));
                    mode = Mode::Plain;
                    name = Vec::new();
                } else {
                    name.push(c);
                }
            },
        }
        i += 1;
    }
    assert(v@.take(v@.len() as int) == v@);
    paths
}

/// Expands `text`: pass after pass while the last pass substituted
/// something, and never more than `CEILING` passes.
pub fn expand_text(text: &str, sources: &Sources) -> (r: String)
    ensures
        r@ == expand(text@, sources.env@, sources.files@, CEILING as nat),
{
    let mut cur = chars_of(text);
    let mut passes: usize = 0;
    let mut done = false;
    while passes < CEILING && !done
        invariant
            passes <= CEILING,
            done ==> expand(text@, sources.env@, sources.files@, CEILING as nat) == cur@,
            !done ==> expand(text@, sources.env@, sources.files@, CEILING as nat) == expand(
                cur@,
                sources.env@,
                sources.files@,
                (CEILING - passes) as nat,
            ),
        decreases CEILING - passes, if done { 0int } else { 1int },
    {
        let (next, used) = expand_pass(&cur, sources);
        cur = next;
        passes += 1;
        if !used {
            done = true;
        }
    }
    string_of(&cur, 0, cur.len())
}

impl Value {
    /// Expands every string leaf of this tree, through lists and objects.
    pub fn eval(&mut self, sources: &Sources)
        ensures
            final(self)@ == expand_tree(old(self)@, sources.env@, sources.files@),
        decreases old(self)@, 1nat,
    {
        let mut node = Value::Absent;
        std::mem::swap(self, &mut node);
        match node {
            Value::String(s) => {
                *self = Value::String(expand_text(s.as_str(), sources));
            },
            Value::List(list) => {
                let ghost whole = Value::List(list)@;
                let mut list = list;
                let ghost before = list@;
                let mut i: usize = 0;
                while i < list.len()
                    invariant
                        i <= list@.len(),
                        list@.len() == before.len(),
                        whole == old(self)@,
                        whole is List,
                        whole->List_0.len() == before.len(),
                        forall|j: int| 0 <= j < before.len() ==> whole->List_0[j] == before[j]@,
                        forall|j: int| 0 <= j < i ==> list@[j]@ == expand_tree(before[j]@, sources.env@, sources.files@),
                        forall|j: int| i <= j < list@.len() ==> list@[j] == before[j],
                    decreases list@.len() - i,
                {
                    let mut item = list.remove(i);
                    proof {
                        assert(item == before[i as int]);
                        assert(whole->List_0[i as int] == item@);
                        assert(decreases_to!(whole => whole->List_0[i as int]));
                    }
                    item.eval(sources);
                    list.insert(i, item);
                    i += 1;
                }
                *self = Value::List(list);
                assert(self@->List_0 =~= expand_tree(whole, sources.env@, sources.files@)->List_0);
            },
            Value::Object(table) => {
                *self = Value::Object(eval_table(table, sources));
            },
            other => {
                *self = other;
            },
        }
    }
}

/// Expands every string leaf below the values of `table`.
fn eval_table(table: Table, sources: &Sources) -> (r: Table)
    ensures
        Tree::Object(r@) == expand_tree(Tree::Object(table@), sources.env@, sources.files@),
    decreases Tree::Object(table@), 0nat,
{
    let ghost t0 = table@;
    proof {
        table.lemma_finite();
    }
    let mut pending = table;
    let mut done = Table::new();
    loop
        invariant
            t0 == table@,
            pending@.dom().finite(),
            forall|k: Seq<char>|
                #![trigger pending@.dom().contains(k)]
                pending@.contains_key(k) ==> t0.contains_key(k) && pending@[k] == t0[k],
            forall|k: Seq<char>|
                #![trigger done@.dom().contains(k)]
                done@.contains_key(k) <==> (t0.contains_key(k) && !pending@.contains_key(k)),
            forall|k: Seq<char>|
                #![trigger done@.dom().contains(k)]
                done@.contains_key(k) ==> done@[k] == expand_tree(
                    t0[k],
                    sources.env@,
                    sources.files@,
                ),
        ensures
            pending@ == Map::<Seq<char>, Tree>::empty(),
        decreases pending@.dom().len(),
    {
        let ghost before = pending@;
        match pending.pop() {
            None => {
                break ;
            },
            Some(entry) => {
                let (key, item) = entry;
                proof {
                    vstd::set::axiom_set_remove_len(before.dom(), key@);
                    assert(pending@.dom() =~= before.dom().remove(key@));
                    assert(item@ == t0[key@]);
                    assert forall|k: Seq<char>| pending@.contains_key(k) implies t0.contains_key(k)
                        && pending@[k] == t0[k] by {
                        assert(before.contains_key(k));
                        assert(before[k] == pending@[k]);
                    }
                    let whole = Tree::Object(t0);
                    assert(whole->Object_0 == t0);
                    vstd::map::axiom_map_index_decreases_infinite(whole->Object_0, key@);
                    assert(decreases_to!(whole => whole->Object_0[key@]));
                }
                let mut item = item;
                item.eval(sources);
                done.insert(key, item);
            },
        }
    }
    assert(done@ =~= expand_tree(Tree::Object(t0), sources.env@, sources.files@)->Object_0);
    done
}

} // verus!
