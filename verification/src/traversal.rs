//! Reading, assigning and merging along dot-separated paths.

use vstd::prelude::*;
use crate::number::parse_index;
use crate::text::{chars_of, split_chars, views};
use crate::tree::{
    assign, child, indexes, empty_object, lookup, merge_trees, nest, put, segments, Tree,
};
use crate::value::{Table, Value};

verus! {

/// The segments of a dot-separated path.
pub fn path_segments(path: &str) -> (segs: Vec<String>)
    ensures
        views(segs@) == segments(path@),
        segs@.len() >= 1,
{
    let v = chars_of(path);
    let mut sep: Vec<char> = Vec::new();
    sep.push('.');
    assert(sep@ =~= seq!['.']);
    split_chars(&v, &sep)
}

/// `value` wrapped in one single-key object for each of `segs[from..]`.
fn nest_value(segs: &Vec<String>, from: usize, value: Value) -> (r: Value)
    requires
        from <= segs@.len(),
    ensures
        r@ == nest(views(segs@).skip(from as int), value@),
{
    let ghost inner = value@;
    let mut cur = value;
    let mut i: usize = segs.len();
    while i > from
        invariant
            from <= i <= segs@.len(),
            cur@ == nest(views(segs@).skip(i as int), inner),
        decreases i,
    {
        i -= 1;
        let mut t = Table::new();
        t.insert(segs[i].clone(), cur);
        cur = Value::Object(t);
        proof {
            let here = views(segs@).skip(i as int);
            assert(here[0] == segs@[i as int]@);
            assert(here.drop_first() == views(segs@).skip(i + 1));
        }
    }
    cur
}

impl Value {
    /// One step of descent along `seg`.
    fn step(&self, seg: &str) -> (r: &Value)
        ensures
            r@ == child(self@, seg@),
    {
        match self {
            Value::Object(t) => match t.get(seg) {
                Some(v) => v,
                None => &Value::Absent,
            },
            Value::List(l) => match parse_index(seg) {
                Some(i) => if i < l.len() {
                    assert(self@->List_0[i as int] == l@[i as int]@);
                    &l[i]
                } else {
                    &Value::Absent
                },
                None => {
                    let _ = l.len();
                    &Value::Absent
                },
            },
            _ => &Value::Absent,
        }
    }

    /// The node at the dot-separated `path`, or `Absent` where a step of the
    /// descent fails.
    pub fn get_path(&self, path: &str) -> (r: &Value)
        ensures
            r@ == lookup(self@, segments(path@)),
    {
        let segs = path_segments(path);
        let mut ctx: &Value = self;
        let mut i: usize = 0;
        assert(views(segs@).skip(0) == views(segs@));
        while i < segs.len()
            invariant
                i <= segs@.len(),
                lookup(self@, views(segs@)) == lookup(ctx@, views(segs@).skip(i as int)),
            decreases segs@.len() - i,
        {
            proof {
                let rest = views(segs@).skip(i as int);
                assert(rest[0] == segs@[i as int]@);
                assert(rest.drop_first() == views(segs@).skip(i + 1));
            }
            ctx = ctx.step(segs[i].as_str());
            i += 1;
        }
        ctx
    }

    /// The node at the dot-separated `path`; the same as `get_path`.
    pub fn get(&self, path: &str) -> (r: &Value)
        ensures
            r@ == lookup(self@, segments(path@)),
    {
        self.get_path(path)
    }

    /// Merges `value` into this node: two objects merge key by key and in
    /// depth, in every other pairing `value` takes this node's place.
    pub fn merge(&mut self, value: Value)
        ensures
            final(self)@ == merge_trees(old(self)@, value@),
        decreases value@, 1nat,
    {
        match value {
            Value::Object(source) => {
                let mut target = Value::Absent;
                std::mem::swap(self, &mut target);
                match target {
                    Value::Object(existing) => {
                        let joined = merge_tables(existing, source);
                        *self = Value::Object(joined);
                    },
                    _ => {
                        *self = Value::Object(source);
                    },
                }
            },
            other => {
                *self = other;
            },
        }
    }

    /// This node after `value` was assigned at `segs[from..]` below it.
    fn assign_at(self, segs: &Vec<String>, from: usize, value: Value) -> (r: Value)
        requires
            from <= segs@.len(),
        ensures
            r@ == assign(self@, views(segs@).skip(from as int), value@),
        decreases segs@.len() - from,
    {
        let ghost rest = views(segs@).skip(from as int);
        if from == segs.len() {
            assert(rest.len() == 0);
            let mut node = self;
            node.merge(value);
            return node;
        }
        proof {
            assert(rest.len() > 0);
            assert(rest[0] == segs@[from as int]@);
            assert(rest.drop_first() == views(segs@).skip(from + 1));
        }
        match self {
            Value::Object(table) => {
                let mut table = table;
                let ghost before = table@;
                let below = match table.remove(segs[from].as_str()) {
                    Some(v) => v,
                    None => Value::Object(Table::new()),
                };
                assert(below@ == if before.contains_key(rest[0]) {
                    before[rest[0]]
                } else {
                    empty_object()
                });
                let updated = below.assign_at(segs, from + 1, value);
                table.insert(segs[from].clone(), updated);
                assert(table@ =~= before.insert(rest[0], updated@));
                let r = Value::Object(table);
                assert(self@ == Tree::Object(before));
                assert(r@ == assign(self@, rest, value@));
                r
            },
            Value::List(list) => {
                let ghost whole = self@;
                let mut list = list;
                let ghost before = list@;
                let idx = parse_index(segs[from].as_str());
                if idx.is_some() && idx.unwrap() < list.len() {
                    let i = idx.unwrap();
                    assert(whole->List_0[i as int] == before[i as int]@);
                    let below = list.remove(i);
                    let updated = below.assign_at(segs, from + 1, value);
                    list.insert(i, updated);
                    assert(list@ =~= before.update(i as int, updated));
                    let r = Value::List(list);
                    assert(r@->List_0 =~= whole->List_0.update(i as int, updated@));
                    assert(indexes(rest[0], whole->List_0.len()));
                    assert(r@ == assign(whole, rest, value@));
                    r
                } else {
                    let _ = list.len();
                    assert(!indexes(rest[0], whole->List_0.len()));
                    Value::List(list)
                }
            },
            other => {
                let updated = Value::Object(Table::new()).assign_at(segs, from + 1, value);
                let mut table = Table::new();
                table.insert(segs[from].clone(), updated);
                assert(table@ =~= Map::<Seq<char>, Tree>::empty().insert(rest[0], updated@));
                Value::Object(table)
            },
        }
    }

    /// Assigns `value` at the dot-separated `path`: it is merged into the
    /// node at the end of the path. Missing stretches of the path are created
    /// as nested objects, never as lists, and a node on the way that is
    /// neither an object nor a list gives way to a fresh object. A list is
    /// never extended: where a segment does not index one of its items, the
    /// tree stays as it is.
    pub fn set_path(&mut self, path: &str, value: Value)
        ensures
            final(self)@ == assign(old(self)@, segments(path@), value@),
    {
        let segs = path_segments(path);
        let mut node = Value::Absent;
        std::mem::swap(self, &mut node);
        assert(views(segs@).skip(0) == views(segs@));
        *self = node.assign_at(&segs, 0, value);
    }

    /// This node after `value` was stored at `segs[from..]` below it.
    fn put_at(self, segs: &Vec<String>, from: usize, value: Value) -> (r: Value)
        requires
            from < segs@.len(),
        ensures
            r@ == put(self@, views(segs@).skip(from as int), value@),
        decreases segs@.len() - from,
    {
        let ghost rest = views(segs@).skip(from as int);
        proof {
            assert(rest[0] == segs@[from as int]@);
            assert(rest.drop_first() == views(segs@).skip(from + 1));
        }
        match self {
            Value::Object(table) => {
                let mut table = table;
                let ghost before = table@;
                if from < segs.len() - 1 && table.contains_key(segs[from].as_str()) {
                    let below = match table.remove(segs[from].as_str()) {
                        Some(v) => v,
                        None => Value::Absent,
                    };
                    let updated = below.put_at(segs, from + 1, value);
                    table.insert(segs[from].clone(), updated);
                    assert(table@ =~= before.insert(rest[0], updated@));
                } else {
                    let nested = nest_value(segs, from + 1, value);
                    table.insert(segs[from].clone(), nested);
                }
                Value::Object(table)
            },
            other => other,
        }
    }

    /// Stores `value` at the dot-separated `path`, replacing what is there.
    /// The descent follows keys that exist in objects; the rest of the path
    /// is created as nested objects. A node that is not an object is left
    /// unchanged.
    pub fn set(&mut self, path: &str, value: Value)
        ensures
            final(self)@ == put(old(self)@, segments(path@), value@),
    {
        let segs = path_segments(path);
        let mut node = Value::Absent;
        std::mem::swap(self, &mut node);
        assert(views(segs@).skip(0) == views(segs@));
        *self = node.put_at(&segs, 0, value);
    }
}

/// What merging the object `source` into the object `target` leaves under
/// the key `k`.
pub open spec fn merged_entry(
    target: Map<Seq<char>, Tree>,
    source: Map<Seq<char>, Tree>,
    k: Seq<char>,
) -> Tree {
    if source.contains_key(k) {
        if target.contains_key(k) {
            merge_trees(target[k], source[k])
        } else {
            source[k]
        }
    } else {
        target[k]
    }
}

/// Merges the entries of `source` into `target`, key by key.
fn merge_tables(base: Table, source: Table) -> (r: Table)
    ensures
        Tree::Object(r@) == merge_trees(Tree::Object(base@), Tree::Object(source@)),
    decreases Tree::Object(source@), 0nat,
{
    let ghost t0 = base@;
    let ghost s0 = source@;
    proof {
        source.lemma_finite();
    }
    let mut target = base;
    let mut pending = source;
    loop
        invariant
            s0 == source@,
            s0.dom().finite(),
            pending@.dom().finite(),
            forall|k: Seq<char>|
                #![trigger pending@.dom().contains(k)]
                pending@.contains_key(k) ==> s0.contains_key(k) && pending@[k] == s0[k],
            forall|k: Seq<char>|
                #![trigger target@.dom().contains(k)]
                target@.contains_key(k) <==> (t0.contains_key(k) || (s0.contains_key(k)
                    && !pending@.contains_key(k))),
            forall|k: Seq<char>|
                #![trigger target@.dom().contains(k)]
                target@.contains_key(k) ==> target@[k] == (if pending@.contains_key(k) {
                    t0[k]
                } else {
                    merged_entry(t0, s0, k)
                }),
        ensures
            pending@ == Map::<Seq<char>, Tree>::empty(),
        decreases pending@.dom().len(),
    {
        let ghost before = pending@;
        match pending.pop() {
            None => {
                break ;
            },
            Some(entry) => {
                let (key, incoming) = entry;
                proof {
                    vstd::set::axiom_set_remove_len(before.dom(), key@);
                    assert(pending@.dom() =~= before.dom().remove(key@));
                    assert(pending@ == before.remove(key@));
                    assert(incoming@ == s0[key@]);
                    assert forall|k: Seq<char>| pending@.contains_key(k) implies s0.contains_key(k)
                        && pending@[k] == s0[k] by {
                        assert(before.contains_key(k));
                        assert(before[k] == pending@[k]);
                    }
                    let whole = Tree::Object(s0);
                    assert(whole->Object_0 == s0);
                    vstd::map::axiom_map_index_decreases_infinite(whole->Object_0, key@);
                    assert(decreases_to!(whole => whole->Object_0[key@]));
                    assert(whole == Tree::Object(source@));
                    assert(decreases_to!(Tree::Object(source@) => incoming@));
                }
                match target.remove(key.as_str()) {
                    Some(existing) => {
                        let mut node = existing;
                        node.merge(incoming);
                        target.insert(key, node);
                    },
                    None => {
                        target.insert(key, incoming);
                    },
                }
            },
        }
    }
    assert(target@ =~= merge_trees(Tree::Object(t0), Tree::Object(s0))->Object_0);
    target
}

impl<'a> vstd::std_specs::core::IndexSpecImpl<&'a str> for Value {
    /// Every path can be looked up.
    open spec fn index_req(&self, index: &&'a str) -> bool {
        true
    }
}

impl<'a> core::ops::Index<&'a str> for Value {
    type Output = Value;

    /// The node at the dot-separated `path`.
    fn index(&self, path: &'a str) -> (r: &Value)
        ensures
            r@ == lookup(self@, segments(path@)),
    {
        self.get_path(path)
    }
}

} // verus!
