//! The schema: which type a path is declared with, and its default.

use vstd::prelude::*;
use crate::tree::{assign, empty_object, segments, Tree};
use crate::value::Value;

verus! {

/// The type that a schema declares for a path.
#[derive(Clone, Copy, PartialEq, Eq, Structural)]
pub enum TypeTag {
    Bool,
    U8,
    U16,
    U32,
    U64,
    I8,
    I16,
    I32,
    I64,
    /// A single-precision number.
    Single,
    /// A double-precision number.
    Double,
    String,
}

/// What a schema declares for a path: a value of a type, a list of such
/// values, or a keyed collection of them.
#[derive(Clone, Copy, PartialEq, Eq, Structural)]
pub enum Declared {
    One(TypeTag),
    ListOf(TypeTag),
    MapOf(TypeTag),
}

/// A type whose values can be declared as the default of a path.
pub trait IntoDefault: Sized {
    /// What a path is declared as when its default has this type.
    spec fn declared() -> Declared;

    /// The tree that a default of this type is stored as.
    spec fn tree(&self) -> Tree;

    fn declared_as() -> (d: Declared)
        ensures
            d == Self::declared(),
    ;

    fn into_value(self) -> (v: Value)
        ensures
            v@ == self.tree(),
    ;
}

/// A type that a stored value can be read as.
pub trait Typed: IntoDefault {
    /// Whether the tree `t` can be read as this type.
    spec fn accepts(t: Tree) -> bool;

    /// Reads `v` as this type. A value that is read stores `v`'s own tree.
    fn from_value(v: &Value) -> (r: Option<Self>)
        ensures
            r is Some <==> Self::accepts(v@),
            r matches Some(x) ==> x.tree() == v@,
    ;
}

/// One declaration of a schema.
pub struct Entry {
    pub path: String,
    pub declared: Declared,
    pub default: Value,
}

/// The first of `entries` that declares `path`.
pub open spec fn declaration(entries: Seq<Entry>, path: Seq<char>) -> Option<Entry>
    decreases entries.len(),
{
    if entries.len() == 0 {
        None
    } else if entries[0].path@ == path {
        Some(entries[0])
    } else {
        declaration(entries.drop_first(), path)
    }
}

/// How many entries stand before the first of `entries` that declares
/// `path`; the number of entries where none does.
pub open spec fn declared_at(entries: Seq<Entry>, path: Seq<char>) -> int
    decreases entries.len(),
{
    if entries.len() == 0 || entries[0].path@ == path {
        0
    } else {
        1 + declared_at(entries.drop_first(), path)
    }
}

/// The paths that an application declares, each with its type and default.
/// A path is declared at most once: a later declaration of a path takes the
/// place of an earlier one.
pub struct Schema {
    entries: Vec<Entry>,
}

/// Collects the declarations of a schema.
pub struct SchemaBuilder {
    entries: Vec<Entry>,
}

/// Where the first of `entries` that declares `path` is.
fn find_entry(entries: &Vec<Entry>, path: &str) -> (r: Option<usize>)
    ensures
        match r {
            Some(i) => i < entries@.len() && i == declared_at(entries@, path@) && declaration(
                entries@,
                path@,
            ) == Some(entries@[i as int]),
            None => declaration(entries@, path@) is None,
        },
{
    let wanted = path.to_owned();
    let mut i: usize = 0;
    assert(entries@.skip(0) == entries@);
    while i < entries.len()
        invariant
            i <= entries@.len(),
            wanted@ == path@,
            declaration(entries@, path@) == declaration(entries@.skip(i as int), path@),
            declared_at(entries@, path@) == i + declared_at(entries@.skip(i as int), path@),
        decreases entries@.len() - i,
    {
        proof {
            let rest = entries@.skip(i as int);
            assert(rest[0] == entries@[i as int]);
            assert(rest.drop_first() == entries@.skip(i + 1));
        }
        if entries[i].path == wanted {
            return Some(i);
        }
        i += 1;
    }
    None
}

/// What `entries` declare: each declared path with its type and the tree
/// of its default, as the first entry for the path gives them.
pub open spec fn declared_map(entries: Seq<Entry>) -> Map<Seq<char>, (Declared, Tree)> {
    Map::new(
        |p: Seq<char>| declaration(entries, p) is Some,
        |p: Seq<char>| (declaration(entries, p)->0.declared, declaration(entries, p)->0.default@),
    )
}

impl Schema {
    /// The declarations, the latest first.
    pub closed spec fn entries(&self) -> Seq<Entry> {
        self.entries@
    }

    /// What the schema declares: each declared path with its type and the
    /// tree of its default.
    pub open spec fn view(&self) -> Map<Seq<char>, (Declared, Tree)> {
        declared_map(self.entries())
    }

    /// A builder with no declarations.
    pub fn new() -> (b: SchemaBuilder)
        ensures
            b.entries() == Seq::<Entry>::empty(),
            b@ == Map::<Seq<char>, (Declared, Tree)>::empty(),
    {
        let b = SchemaBuilder { entries: Vec::new() };
        assert(b@ =~= Map::<Seq<char>, (Declared, Tree)>::empty());
        b
    }

    /// Whether the schema declares `path_name`.
    pub fn has_path(&self, path_name: &str) -> (r: bool)
        ensures
            r == self@.contains_key(path_name@),
    {
        find_entry(&self.entries, path_name).is_some()
    }

    /// What the schema declares `path_name` as.
    pub fn declared(&self, path_name: &str) -> (r: Option<Declared>)
        ensures
            match r {
                Some(d) => self@.contains_key(path_name@) && self@[path_name@].0 == d,
                None => !self@.contains_key(path_name@),
            },
    {
        match find_entry(&self.entries, path_name) {
            Some(i) => Some(self.entries[i].declared),
            None => None,
        }
    }

    /// The default that the schema declares for `path_name`.
    pub fn default_of(&self, path_name: &str) -> (r: Option<&Value>)
        ensures
            match r {
                Some(v) => self@.contains_key(path_name@) && self@[path_name@].1 == v@,
                None => !self@.contains_key(path_name@),
            },
    {
        match find_entry(&self.entries, path_name) {
            Some(i) => Some(&self.entries[i].default),
            None => None,
        }
    }

    /// Whether `path_name` is declared, and declared with the type `C`.
    pub fn path_is_type<C: IntoDefault>(&self, path_name: &str) -> (r: bool)
        ensures
            r == (self@.contains_key(path_name@) && self@[path_name@].0 == C::declared()),
    {
        match self.declared(path_name) {
            Some(d) => d == C::declared_as(),
            None => false,
        }
    }

    /// The default of `path_name` read as a `C`, where the path is declared
    /// with the type `C` and its default can be read as one.
    pub fn path_default<C: Typed>(&self, path_name: &str) -> (r: Option<C>)
        ensures
            r is Some <==> (self@.contains_key(path_name@) && self@[path_name@].0 == C::declared()
                && C::accepts(self@[path_name@].1)),
            r matches Some(x) ==> x.tree() == self@[path_name@].1,
    {
        match find_entry(&self.entries, path_name) {
            Some(i) => {
                if self.entries[i].declared == C::declared_as() {
                    C::from_value(&self.entries[i].default)
                } else {
                    None
                }
            },
            None => None,
        }
    }
}

/// The tree of the defaults of `entries[from..]`: each path that is not
/// declared again further to the front has its default assigned, the
/// declarations taken from the back.
pub open spec fn defaults_from(entries: Seq<Entry>, from: int) -> Tree
    decreases entries.len() - from,
{
    if from < 0 || from >= entries.len() {
        empty_object()
    } else {
        let below = defaults_from(entries, from + 1);
        if declared_at(entries, entries[from].path@) == from {
            assign(below, segments(entries[from].path@), entries[from].default@)
        } else {
            below
        }
    }
}

impl Schema {
    /// The tree of the defaults: starting from the empty object, the
    /// default of every declared path is assigned at its path, in the order
    /// in which the paths were declared.
    pub open spec fn defaults(&self) -> Tree {
        defaults_from(self.entries(), 0)
    }

    /// The tree of the defaults.
    pub fn defaults_tree(&self) -> (r: Value)
        ensures
            r@ == self.defaults(),
    {
        let mut root = Value::Object(crate::value::Table::new());
        let mut i: usize = self.entries.len();
        while i > 0
            invariant
                i <= self.entries@.len(),
                root@ == defaults_from(self.entries@, i as int),
            decreases i,
        {
            i -= 1;
            let found = find_entry(&self.entries, self.entries[i].path.as_str());
            let first = match found {
                Some(j) => j == i,
                None => false,
            };
            proof {
                lemma_declared(self.entries@, self.entries@[i as int].path@, i as int);
            }
            if first {
                root.set_path(self.entries[i].path.as_str(), self.entries[i].default.clone());
            }
        }
        root
    }
}

/// An entry with the path `path` stands no nearer to the front than the
/// first declaration of `path`, and there is such a declaration.
pub proof fn lemma_declared(entries: Seq<Entry>, path: Seq<char>, i: int)
    requires
        0 <= i < entries.len(),
        entries[i].path@ == path,
    ensures
        declaration(entries, path) is Some,
        0 <= declared_at(entries, path) <= i,
    decreases entries.len(),
{
    if entries[0].path@ != path {
        lemma_declared(entries.drop_first(), path, i - 1);
    }
}

impl SchemaBuilder {
    /// The declarations so far, the latest first.
    pub closed spec fn entries(&self) -> Seq<Entry> {
        self.entries@
    }

    /// What has been declared so far.
    pub open spec fn view(&self) -> Map<Seq<char>, (Declared, Tree)> {
        declared_map(self.entries())
    }

    /// Declares `path_name` with the type of `default_value` and that
    /// default. An earlier declaration of the path is replaced.
    pub fn path<K: IntoDefault>(self, path_name: &str, default_value: K) -> (b: SchemaBuilder)
        ensures
            b.entries().len() == self.entries().len() + 1,
            b.entries()[0].path@ == path_name@,
            b.entries()[0].declared == K::declared(),
            b.entries()[0].default@ == default_value.tree(),
            b.entries().drop_first() == self.entries(),
            b@ == self@.insert(path_name@, (K::declared(), default_value.tree())),
    {
        let ghost before = self.entries@;
        let mut entries = self.entries;
        let entry = Entry {
            path: path_name.to_owned(),
            declared: K::declared_as(),
            default: default_value.into_value(),
        };
        entries.insert(0, entry);
        let b = SchemaBuilder { entries };
        proof {
            assert(b.entries@.drop_first() == before);
            assert(b@ =~= self@.insert(path_name@, (K::declared(), default_value.tree())));
        }
        b
    }

    /// The schema of what has been declared.
    pub fn build(self) -> (s: Schema)
        ensures
            s.entries() == self.entries(),
            s@ == self@,
    {
        let s = Schema { entries: self.entries };
        assert(s@ =~= self@);
        s
    }
}

} // verus!
