//! The stored form of a configuration tree.

use vstd::prelude::*;
use crate::render::{decimal, push_decimal};
use crate::text::{append_str, string_of};
use crate::tree::Tree;

verus! {

/// A keyed collection of values. Every key occurs once.
pub struct Table {
    entries: Vec<(String, Value)>,
}

/// The holder of a secret value. It never holds another secret.
pub struct Sealed {
    inner: Box<Value>,
}

/// A configuration node.
pub enum Value {
    /// A stored null.
    Null,
    /// A truth value.
    Bool(bool),
    /// A whole number.
    Integer(i128),
    /// A double-precision number, by its IEEE-754 bit pattern.
    Float(u64),
    /// A string.
    String(String),
    /// An ordered list.
    List(Vec<Value>),
    /// A keyed collection.
    Object(Table),
    /// A secret; read it through `as_secret`.
    Secret(Sealed),
    /// No value: the path does not exist.
    Absent,
}

/// Whether some entry of `s` has the key `k`.
pub closed spec fn has_key(s: Seq<(String, Value)>, k: Seq<char>) -> bool {
    exists|i: int| 0 <= i < s.len() && #[trigger] s[i].0@ == k
}

/// The place of an entry of `s` with the key `k`.
pub closed spec fn slot_of(s: Seq<(String, Value)>, k: Seq<char>) -> int {
    choose|i: int| 0 <= i < s.len() && #[trigger] s[i].0@ == k
}

/// Whether no two entries of `s` share a key.
pub closed spec fn distinct_keys(s: Seq<(String, Value)>) -> bool {
    forall|i: int, j: int| 0 <= i < j < s.len() ==> #[trigger] s[i].0@ != #[trigger] s[j].0@
}

impl Value {
    /// The tree that this value stores.
    pub open spec fn view(&self) -> Tree
        decreases self,
    {
        match self {
            Value::Null => Tree::Null,
            Value::Bool(b) => Tree::Bool(*b),
            Value::Integer(i) => Tree::Integer(*i as int),
            Value::Float(f) => Tree::Float(*f),
            Value::String(s) => Tree::Text(s@),
            Value::List(l) => Tree::List(
                Seq::new(
                    l@.len(),
                    |i: int|
                        if 0 <= i < l@.len() {
                            l@[i].view()
                        } else {
                            Tree::Absent
                        },
                ),
            ),
            Value::Object(t) => Tree::Object(t.view()),
            Value::Secret(s) => Tree::Secret(Box::new(s.view())),
            Value::Absent => Tree::Absent,
        }
    }
}

impl Sealed {
    /// The tree of the value that is held.
    pub closed spec fn view(&self) -> Tree
        decreases self,
    {
        self.inner.view()
    }

    #[verifier::type_invariant]
    spec fn inv(&self) -> bool {
        !(*self.inner is Secret)
    }

    /// Seals `inner`, or hands it back when it is a secret itself.
    pub fn new(inner: Value) -> (r: Result<Sealed, Value>)
        ensures
            match r {
                Ok(s) => !(inner is Secret) && s@ == inner@,
                Err(v) => inner is Secret && v == inner,
            },
    {
        match inner {
            Value::Secret(_) => Err(inner),
            _ => Ok(Sealed { inner: Box::new(inner) }),
        }
    }

    /// The value that is held, for the time of the borrow.
    pub(crate) fn expose(&self) -> (r: &Value)
        ensures
            r@ == self@,
            !(r is Secret),
    {
        proof {
            use_type_invariant(self);
        }
        &*self.inner
    }
}

impl Table {
    /// The keys and what each maps to.
    pub closed spec fn view(&self) -> Map<Seq<char>, Tree>
        decreases self,
    {
        Map::new(
            |k: Seq<char>| has_key(self.entries@, k),
            |k: Seq<char>|
                {
                    let i = slot_of(self.entries@, k);
                    if 0 <= i < self.entries@.len() {
                        self.entries@[i].1.view()
                    } else {
                        Tree::Absent
                    }
                },
        )
    }

    #[verifier::type_invariant]
    spec fn inv(&self) -> bool {
        distinct_keys(self.entries@)
    }

    /// With distinct keys, every entry is found under its own key.
    proof fn lemma_entries(&self)
        requires
            distinct_keys(self.entries@),
        ensures
            forall|i: int|
                0 <= i < self.entries@.len() ==> self@.contains_key(
                    #[trigger] self.entries@[i].0@,
                ) && self@[self.entries@[i].0@] == self.entries@[i].1@,
            forall|k: Seq<char>| self@.contains_key(k) <==> has_key(self.entries@, k),
    {
        let s = self.entries@;
        assert forall|i: int| 0 <= i < s.len() implies self@.contains_key(#[trigger] s[i].0@)
            && self@[s[i].0@] == s[i].1@ by {
            let k = s[i].0@;
            assert(has_key(s, k));
            let j = slot_of(s, k);
            assert(0 <= j < s.len() && s[j].0@ == k);
            if j < i {
                assert(s[j].0@ != s[i].0@);
            }
            if i < j {
                assert(s[i].0@ != s[j].0@);
            }
        }
    }

    /// The table with no keys.
    pub fn new() -> (t: Table)
        ensures
            t@ == Map::<Seq<char>, Tree>::empty(),
    {
        let t = Table { entries: Vec::new() };
        assert(t@ =~= Map::<Seq<char>, Tree>::empty());
        t
    }

    /// Where the entry with the key `key` is, if there is one.
    fn position(&self, key: &String) -> (r: Option<usize>)
        ensures
            match r {
                Some(i) => i < self.entries@.len() && self.entries@[i as int].0@ == key@,
                None => !has_key(self.entries@, key@),
            },
    {
        let mut i: usize = 0;
        while i < self.entries.len()
            invariant
                i <= self.entries@.len(),
                forall|j: int| 0 <= j < i ==> self.entries@[j].0@ != key@,
            decreases self.entries@.len() - i,
        {
            if self.entries[i].0 == *key {
                return Some(i);
            }
            i += 1;
        }
        None
    }

    /// The value stored under `key`.
    pub fn get(&self, key: &str) -> (r: Option<&Value>)
        ensures
            match r {
                Some(v) => self@.contains_key(key@) && v@ == self@[key@],
                None => !self@.contains_key(key@),
            },
    {
        proof {
            use_type_invariant(self);
            self.lemma_entries();
        }
        let k = key.to_owned();
        match self.position(&k) {
            Some(i) => Some(&self.entries[i].1),
            None => None,
        }
    }

    /// Whether a value is stored under `key`.
    pub fn contains_key(&self, key: &str) -> (r: bool)
        ensures
            r == self@.contains_key(key@),
    {
        self.get(key).is_some()
    }

    /// Stores `value` under `key` and returns what was stored there before.
    pub fn insert(&mut self, key: String, value: Value) -> (prev: Option<Value>)
        ensures
            final(self)@ == old(self)@.insert(key@, value@),
            match prev {
                Some(p) => old(self)@.contains_key(key@) && p@ == old(self)@[key@],
                None => !old(self)@.contains_key(key@),
            },
    {
        proof {
            use_type_invariant(&*self);
            self.lemma_entries();
        }
        let ghost before = *self;
        let found = self.position(&key);
        let mut entries: Vec<(String, Value)> = Vec::new();
        std::mem::swap(&mut self.entries, &mut entries);
        match found {
            Some(i) => {
                let old_entry = entries.remove(i);
                entries.insert(i, (old_entry.0, value));
                assert(entries@ =~= before.entries@.update(i as int, (old_entry.0, value)));
                assert(distinct_keys(entries@)) by {
                    assert forall|a: int, b: int| 0 <= a < b < entries@.len() implies entries@[a].0@
                        != entries@[b].0@ by {
                        assert(before.entries@[a].0@ != before.entries@[b].0@);
                    }
                }
                std::mem::swap(&mut self.entries, &mut entries);
                proof {
                    let s = before.entries@;
                    let n = self.entries@;
                    assert(n =~= s.update(i as int, (old_entry.0, value)));
                    assert(distinct_keys(n)) by {
                        assert forall|a: int, b: int| 0 <= a < b < n.len() implies n[a].0@
                            != n[b].0@ by {
                            assert(s[a].0@ != s[b].0@);
                        }
                    }
                    self.lemma_entries();
                    assert forall|k: Seq<char>| has_key(n, k) <==> has_key(s, k) by {
                        if has_key(n, k) {
                            let j = slot_of(n, k);
                            assert(s[j].0@ == k);
                        }
                        if has_key(s, k) {
                            let j = slot_of(s, k);
                            assert(n[j].0@ == k);
                        }
                    }
                    assert(self@ =~= before@.insert(key@, value@)) by {
                        assert forall|k: Seq<char>| self@.contains_key(k) implies self@[k]
                            == before@.insert(key@, value@)[k] by {
                            let j = slot_of(n, k);
                            assert(n[j].0@ == k);
                            if j != i {
                                assert(s[j].0@ == k);
                            }
                        }
                    }
                }
                Some(old_entry.1)
            },
            None => {
                entries.push((key, value));
                assert(distinct_keys(entries@)) by {
                    assert forall|a: int, b: int| 0 <= a < b < entries@.len() implies entries@[a].0@
                        != entries@[b].0@ by {
                        if b < before.entries@.len() {
                            assert(before.entries@[a].0@ != before.entries@[b].0@);
                        } else {
                            assert(before.entries@[a].0@ != key@);
                        }
                    }
                }
                std::mem::swap(&mut self.entries, &mut entries);
                proof {
                    let s = before.entries@;
                    let n = self.entries@;
                    assert(distinct_keys(n)) by {
                        assert forall|a: int, b: int| 0 <= a < b < n.len() implies n[a].0@
                            != n[b].0@ by {
                            if b < s.len() {
                                assert(s[a].0@ != s[b].0@);
                            } else {
                                assert(s[a].0@ != key@);
                            }
                        }
                    }
                    self.lemma_entries();
                    assert(self@ =~= before@.insert(key@, value@)) by {
                        assert forall|k: Seq<char>| self@.contains_key(k) <==> (k == key@
                            || before@.contains_key(k)) by {
                            if has_key(n, k) {
                                let j = slot_of(n, k);
                                assert(n[j].0@ == k);
                                if j < s.len() {
                                    assert(s[j].0@ == k);
                                }
                            }
                            if has_key(s, k) {
                                let j = slot_of(s, k);
                                assert(n[j].0@ == k);
                            }
                            if k == key@ {
                                assert(n[s.len() as int].0@ == k);
                            }
                        }
                        assert forall|k: Seq<char>| self@.contains_key(k) implies self@[k]
                            == before@.insert(key@, value@)[k] by {
                            let j = slot_of(n, k);
                            assert(n[j].0@ == k);
                            if j < s.len() {
                                assert(s[j].0@ == k);
                            }
                        }
                    }
                }
                None
            },
        }
    }

    /// Takes the entry with the key `key` out of the table.
    pub fn remove(&mut self, key: &str) -> (prev: Option<Value>)
        ensures
            final(self)@ == old(self)@.remove(key@),
            match prev {
                Some(p) => old(self)@.contains_key(key@) && p@ == old(self)@[key@],
                None => !old(self)@.contains_key(key@),
            },
    {
        proof {
            use_type_invariant(&*self);
            self.lemma_entries();
        }
        let ghost before = *self;
        let k = key.to_owned();
        let found = self.position(&k);
        match found {
            Some(i) => {
                let mut entries: Vec<(String, Value)> = Vec::new();
                std::mem::swap(&mut self.entries, &mut entries);
                let old_entry = entries.remove(i);
                assert(distinct_keys(entries@)) by {
                    let s = before.entries@;
                    assert forall|a: int, b: int| 0 <= a < b < entries@.len() implies entries@[a].0@
                        != entries@[b].0@ by {
                        let a0 = if a < i { a } else { a + 1 };
                        let b0 = if b < i { b } else { b + 1 };
                        assert(s[a0].0@ != s[b0].0@);
                    }
                }
                std::mem::swap(&mut self.entries, &mut entries);
                proof {
                    let s = before.entries@;
                    let n = self.entries@;
                    self.lemma_entries();
                    assert forall|j: int| 0 <= j < n.len() implies #[trigger] n[j] == s[if j < i {
                        j
                    } else {
                        j + 1
                    }] by {}
                    assert(self@ =~= before@.remove(key@)) by {
                        assert forall|q: Seq<char>| self@.contains_key(q) <==> (q != key@
                            && before@.contains_key(q)) by {
                            if has_key(n, q) {
                                let j = slot_of(n, q);
                                let j0 = if j < i { j } else { j + 1 };
                                assert(n[j] == s[j0]);
                                assert(s[j0].0@ == q);
                                if j0 < i {
                                    assert(s[j0].0@ != s[i as int].0@);
                                } else {
                                    assert(s[i as int].0@ != s[j0].0@);
                                }
                            }
                            if q != key@ && has_key(s, q) {
                                let j0 = slot_of(s, q);
                                let j = if j0 < i { j0 } else { j0 - 1 };
                                assert(n[j] == s[j0]);
                                assert(n[j].0@ == q);
                            }
                        }
                        assert forall|q: Seq<char>| self@.contains_key(q) implies self@[q]
                            == before@.remove(key@)[q] by {
                            let j = slot_of(n, q);
                            let j0 = if j < i { j } else { j + 1 };
                            assert(n[j] == s[j0]);
                            assert(s[j0].0@ == q);
                        }
                    }
                }
                Some(old_entry.1)
            },
            None => {
                assert(self@ =~= before@.remove(key@));
                None
            },
        }
    }

    /// Takes one entry out of the table; which one is not fixed.
    pub fn pop(&mut self) -> (r: Option<(String, Value)>)
        ensures
            match r {
                Some(e) => {
                    &&& old(self)@.contains_key(e.0@)
                    &&& e.1@ == old(self)@[e.0@]
                    &&& final(self)@ == old(self)@.remove(e.0@)
                },
                None => {
                    &&& old(self)@ == Map::<Seq<char>, Tree>::empty()
                    &&& final(self)@ == old(self)@
                },
            },
    {
        proof {
            use_type_invariant(&*self);
            self.lemma_entries();
        }
        let ghost before = *self;
        let mut entries: Vec<(String, Value)> = Vec::new();
        std::mem::swap(&mut self.entries, &mut entries);
        let r = entries.pop();
        let ghost popped = r;
        assert(distinct_keys(entries@)) by {
            assert forall|a: int, b: int| 0 <= a < b < entries@.len() implies entries@[a].0@
                != entries@[b].0@ by {
                assert(before.entries@[a].0@ != before.entries@[b].0@);
            }
        }
        std::mem::swap(&mut self.entries, &mut entries);
        proof {
            let s = before.entries@;
            let n = self.entries@;
            self.lemma_entries();
            match popped {
                Some(e) => {
                    let last = s.len() - 1;
                    assert(e == s[last]);
                    assert(self@ =~= before@.remove(e.0@)) by {
                        assert forall|q: Seq<char>| self@.contains_key(q) <==> (q != e.0@
                            && before@.contains_key(q)) by {
                            if has_key(n, q) {
                                let j = slot_of(n, q);
                                assert(s[j].0@ == q);
                                assert(s[j].0@ != s[last].0@);
                            }
                            if q != e.0@ && has_key(s, q) {
                                let j = slot_of(s, q);
                                assert(n[j].0@ == q);
                            }
                        }
                        assert forall|q: Seq<char>| self@.contains_key(q) implies self@[q]
                            == before@.remove(e.0@)[q] by {
                            let j = slot_of(n, q);
                            assert(s[j].0@ == q);
                        }
                    }
                },
                None => {
                    assert(before@ =~= Map::<Seq<char>, Tree>::empty());
                },
            }
        }
        r
    }

    /// The keys of the entries, in their order.
    closed spec fn key_list(&self) -> Seq<Seq<char>> {
        Seq::new(self.entries@.len(), |i: int| self.entries@[i].0@)
    }

    /// The keys of the table are the keys of its entries.
    proof fn lemma_keys(&self)
        ensures
            self@.dom() == self.key_list().to_set(),
            self@.dom().finite(),
    {
        let keys = self.key_list();
        assert(self@.dom() =~= keys.to_set()) by {
            assert forall|k: Seq<char>| self@.dom().contains(k) <==> keys.to_set().contains(k) by {
                if has_key(self.entries@, k) {
                    let j = slot_of(self.entries@, k);
                    assert(keys[j] == k);
                }
                if keys.contains(k) {
                    let j = choose|j: int| 0 <= j < keys.len() && keys[j] == k;
                    assert(self.entries@[j].0@ == k);
                }
            }
        }
        vstd::seq_lib::seq_to_set_is_finite(keys);
    }

    /// A table has finitely many keys.
    pub proof fn lemma_finite(&self)
        ensures
            self@.dom().finite(),
    {
        self.lemma_keys();
    }

    /// The number of keys.
    pub fn len(&self) -> (n: usize)
        ensures
            n == self@.dom().len(),
            self@.dom().finite(),
    {
        proof {
            use_type_invariant(self);
            self.lemma_keys();
            let keys = self.key_list();
            assert(keys.no_duplicates()) by {
                assert forall|i: int, j: int| 0 <= i < keys.len() && 0 <= j < keys.len() && i
                    != j implies keys[i] != keys[j] by {
                    if i < j {
                        assert(self.entries@[i].0@ != self.entries@[j].0@);
                    } else {
                        assert(self.entries@[j].0@ != self.entries@[i].0@);
                    }
                }
            }
            keys.unique_seq_to_set();
        }
        self.entries.len()
    }

    /// Whether the table has no keys.
    pub fn is_empty(&self) -> (r: bool)
        ensures
            r == (self@ == Map::<Seq<char>, Tree>::empty()),
    {
        proof {
            if self.entries@.len() > 0 {
                assert(has_key(self.entries@, self.entries@[0].0@));
                assert(self@.contains_key(self.entries@[0].0@));
            } else {
                assert(self@ =~= Map::<Seq<char>, Tree>::empty());
            }
        }
        self.entries.len() == 0
    }
}

impl Table {
    /// Two lists of entries with the same keys and values, place by place,
    /// are the same table.
    proof fn lemma_same_entries(&self, other: &Table)
        requires
            distinct_keys(self.entries@),
            self.entries@.len() == other.entries@.len(),
            forall|i: int|
                0 <= i < self.entries@.len() ==> (#[trigger] self.entries@[i]).0@
                    == other.entries@[i].0@ && self.entries@[i].1@ == other.entries@[i].1@,
        ensures
            distinct_keys(other.entries@),
            self@ == other@,
    {
        let a = self.entries@;
        let b = other.entries@;
        assert(distinct_keys(b)) by {
            assert forall|i: int, j: int| 0 <= i < j < b.len() implies b[i].0@ != b[j].0@ by {
                assert(a[i].0@ == b[i].0@);
                assert(a[j].0@ == b[j].0@);
                assert(a[i].0@ != a[j].0@);
            }
        }
        self.lemma_entries();
        other.lemma_entries();
        assert(self@ =~= other@) by {
            assert forall|k: Seq<char>| self@.contains_key(k) <==> other@.contains_key(k) by {
                if has_key(a, k) {
                    let i = slot_of(a, k);
                    assert(a[i].0@ == b[i].0@);
                    assert(b[i].0@ == k);
                }
                if has_key(b, k) {
                    let i = slot_of(b, k);
                    assert(a[i].0@ == b[i].0@);
                    assert(a[i].0@ == k);
                }
            }
            assert forall|k: Seq<char>| self@.contains_key(k) implies self@[k] == other@[k] by {
                let i = slot_of(a, k);
                assert(a[i].0@ == k);
                assert(a[i].0@ == b[i].0@);
                assert(self@[a[i].0@] == a[i].1@);
                assert(other@[b[i].0@] == b[i].1@);
            }
        }
    }

    /// Whether the two tables hold the same keys with the same trees.
    pub fn same(&self, other: &Table) -> (r: bool)
        ensures
            r == (self@ == other@),
        decreases self, 1nat,
    {
        proof {
            use_type_invariant(self);
            use_type_invariant(other);
            self.lemma_entries();
            other.lemma_entries();
        }
        let mut i: usize = 0;
        while i < self.entries.len()
            invariant
                i <= self.entries@.len(),
                distinct_keys(self.entries@),
                distinct_keys(other.entries@),
                forall|j: int|
                    0 <= j < self.entries@.len() ==> self@.contains_key(
                        #[trigger] self.entries@[j].0@,
                    ) && self@[self.entries@[j].0@] == self.entries@[j].1@,
                forall|j: int|
                    0 <= j < i ==> other@.contains_key(#[trigger] self.entries@[j].0@) && other@[self.entries@[j].0@]
                        == self.entries@[j].1@,
            decreases self.entries@.len() - i,
        {
            match other.get(self.entries[i].0.as_str()) {
                Some(theirs) => {
                    assert(decreases_to!(self => self.entries@[i as int].1));
                    if !self.entries[i].1.same(theirs) {
                        return false;
                    }
                },
                None => {
                    return false;
                },
            }
            i += 1;
        }
        let mut j: usize = 0;
        while j < other.entries.len()
            invariant
                j <= other.entries@.len(),
                forall|q: int|
                    0 <= q < other.entries@.len() ==> other@.contains_key(
                        #[trigger] other.entries@[q].0@,
                    ),
                forall|q: int| 0 <= q < j ==> self@.contains_key(#[trigger] other.entries@[q].0@),
            decreases other.entries@.len() - j,
        {
            if !self.contains_key(other.entries[j].0.as_str()) {
                return false;
            }
            j += 1;
        }
        proof {
            assert(self@ =~= other@) by {
                assert forall|k: Seq<char>| self@.contains_key(k) <==> other@.contains_key(k) by {
                    if has_key(self.entries@, k) {
                        let q = slot_of(self.entries@, k);
                        assert(self.entries@[q].0@ == k);
                    }
                    if has_key(other.entries@, k) {
                        let q = slot_of(other.entries@, k);
                        assert(other.entries@[q].0@ == k);
                    }
                }
                assert forall|k: Seq<char>| self@.contains_key(k) implies self@[k] == other@[k] by {
                    let q = slot_of(self.entries@, k);
                    assert(self.entries@[q].0@ == k);
                }
            }
        }
        true
    }
}

impl Clone for Table {
    fn clone(&self) -> (r: Table)
        ensures
            r@ == self@,
        decreases self, 1nat,
    {
        proof {
            use_type_invariant(self);
        }
        let mut entries: Vec<(String, Value)> = Vec::new();
        let mut i: usize = 0;
        while i < self.entries.len()
            invariant
                i <= self.entries@.len(),
                entries@.len() == i,
                forall|j: int|
                    0 <= j < i ==> (#[trigger] self.entries@[j]).0@ == entries@[j].0@
                        && self.entries@[j].1@ == entries@[j].1@,
            decreases self.entries@.len() - i,
        {
            assert(decreases_to!(self => self.entries@[i as int].1));
            let key = self.entries[i].0.clone();
            let value = self.entries[i].1.clone();
            entries.push((key, value));
            i += 1;
        }
        let ghost shadow = Table { entries };
        proof {
            self.lemma_same_entries(&shadow);
        }
        Table { entries }
    }
}

impl Clone for Sealed {
    fn clone(&self) -> (r: Sealed)
        ensures
            r@ == self@,
        decreases self, 1nat,
    {
        proof {
            use_type_invariant(self);
        }
        let inner = (*self.inner).clone();
        Sealed { inner: Box::new(inner) }
    }
}

impl Clone for Value {
    /// A copy that stores the same tree; a secret stays a secret.
    fn clone(&self) -> (r: Value)
        ensures
            r@ == self@,
        decreases self, 0nat,
    {
        match self {
            Value::Null => Value::Null,
            Value::Bool(b) => Value::Bool(*b),
            Value::Integer(n) => Value::Integer(*n),
            Value::Float(bits) => Value::Float(*bits),
            Value::String(s) => Value::String(s.clone()),
            Value::List(l) => {
                let mut out: Vec<Value> = Vec::new();
                let mut i: usize = 0;
                while i < l.len()
                    invariant
                        i <= l@.len(),
                        *self == Value::List(*l),
                        out@.len() == i,
                        forall|j: int| 0 <= j < i ==> out@[j]@ == l@[j]@,
                    decreases l@.len() - i,
                {
                    assert(l@[i as int] == self->List_0@[i as int]);
                    assert(decreases_to!(self => self->List_0@[i as int]));
                    out.push(l[i].clone());
                    i += 1;
                }
                let r = Value::List(out);
                assert(r@->List_0 =~= self@->List_0);
                r
            },
            Value::Object(t) => Value::Object(t.clone()),
            Value::Secret(s) => Value::Secret(s.clone()),
            Value::Absent => Value::Absent,
        }
    }
}

impl Value {
    /// Whether the two values store the same tree: scalars are equal,
    /// lists are equal item by item, objects hold the same keys with the
    /// same trees in whatever order, secrets hold the same.
    pub fn same(&self, other: &Value) -> (r: bool)
        ensures
            r == (self@ == other@),
        decreases self, 0nat,
    {
        match self {
            Value::Null => match other {
                Value::Null => true,
                _ => false,
            },
            Value::Bool(a) => match other {
                Value::Bool(b) => *a == *b,
                _ => false,
            },
            Value::Integer(a) => match other {
                Value::Integer(b) => *a == *b,
                _ => false,
            },
            Value::Float(a) => match other {
                Value::Float(b) => *a == *b,
                _ => false,
            },
            Value::String(a) => match other {
                Value::String(b) => *a == *b,
                _ => false,
            },
            Value::List(a) => match other {
                Value::List(b) => {
                    if a.len() != b.len() {
                        assert(self@->List_0.len() != other@->List_0.len());
                        return false;
                    }
                    let mut i: usize = 0;
                    while i < a.len()
                        invariant
                            i <= a@.len(),
                            a@.len() == b@.len(),
                            *self == Value::List(*a),
                            *other == Value::List(*b),
                            forall|j: int| 0 <= j < i ==> a@[j]@ == b@[j]@,
                        decreases a@.len() - i,
                    {
                        assert(a@[i as int] == self->List_0@[i as int]);
                        assert(decreases_to!(self => self->List_0@[i as int]));
                        if !a[i].same(&b[i]) {
                            assert(self@->List_0[i as int] != other@->List_0[i as int]);
                            return false;
                        }
                        i += 1;
                    }
                    assert(self@->List_0 =~= other@->List_0);
                    true
                },
                _ => false,
            },
            Value::Object(a) => match other {
                Value::Object(b) => {
                    let r = a.same(b);
                    assert(self@ == Tree::Object(a@));
                    assert(other@ == Tree::Object(b@));
                    r
                },
                _ => false,
            },
            Value::Secret(a) => match other {
                Value::Secret(b) => {
                    assert(decreases_to!(self => *a.inner));
                    let r = a.inner.same(&*b.inner);
                    assert(a@ == a.inner@);
                    assert(b@ == b.inner@);
                    assert(self@ == Tree::Secret(Box::new(a@)));
                    assert(other@ == Tree::Secret(Box::new(b@)));
                    r
                },
                _ => false,
            },
            Value::Absent => match other {
                Value::Absent => true,
                _ => false,
            },
        }
    }
}

/// The first `n` of `items` as they are written out, with `, ` between
/// neighbours.
pub open spec fn items_rendering(items: Seq<Value>, n: int) -> Seq<char>
    decreases items, n,
{
    if n <= 0 || n > items.len() {
        Seq::empty()
    } else if n == 1 {
        items[0].rendering()
    } else {
        items_rendering(items, n - 1) + ", "@ + items[n - 1].rendering()
    }
}

/// The first `n` of `entries` as they are written out, each as its key, `: `
/// and its value, with `, ` between neighbours.
pub open spec fn entries_rendering(entries: Seq<(String, Value)>, n: int) -> Seq<char>
    decreases entries, n,
{
    if n <= 0 || n > entries.len() {
        Seq::empty()
    } else if n == 1 {
        entries[0].0@ + ": "@ + entries[0].1.rendering()
    } else {
        entries_rendering(entries, n - 1) + ", "@ + entries[n - 1].0@ + ": "@ + entries[n
            - 1].1.rendering()
    }
}

impl Table {
    /// The entries as they are written out: each as its key, `: ` and its
    /// value, in the order in which they are stored, with `, ` between
    /// neighbours.
    pub open spec fn rendering(&self) -> Seq<char>
        decreases self, 1int,
    {
        entries_rendering(self.pairs(), self.pairs().len() as int)
    }

    /// The entries in the order in which they are stored.
    pub closed spec fn pairs(&self) -> Seq<(String, Value)> {
        self.entries@
    }

    /// The table of `pairs`, a later pair taking the place of an earlier
    /// one with the same key.
    pub fn from_pairs(pairs: Vec<(String, Value)>) -> (t: Table)
        ensures
            t@ == paired(pairs@, pairs@.len() as int),
    {
        let ghost all = pairs@;
        let mut rest = pairs;
        let mut t = Table::new();
        let mut i: usize = 0;
        let n = rest.len();
        while rest.len() > 0
            invariant
                i + rest@.len() == n == all.len(),
                rest@ == all.skip(i as int),
                t@ == paired(all, i as int),
            decreases rest@.len(),
        {
            let pair = rest.remove(0);
            assert(pair == all[i as int]);
            assert(rest@ == all.skip(i + 1));
            t.insert(pair.0, pair.1);
            i += 1;
        }
        t
    }
}

/// What the first `n` of `pairs` map their keys to, a later pair taking the
/// place of an earlier one with the same key.
pub open spec fn paired(pairs: Seq<(String, Value)>, n: int) -> Map<Seq<char>, Tree>
    decreases n,
{
    if n <= 0 || n > pairs.len() {
        Map::empty()
    } else {
        paired(pairs, n - 1).insert(pairs[n - 1].0@, pairs[n - 1].1@)
    }
}

impl Value {
    /// How the value is written out for a reader: scalars under the name of
    /// their kind, a list in `[` and `]`, an object in `{` and `}` with its
    /// entries in the order in which they are stored, and every secret as
    /// `Secret(***)`, whatever it holds.
    pub open spec fn rendering(&self) -> Seq<char>
        decreases self, 0int,
    {
        match self {
            Value::Null => "Null"@,
            Value::Bool(b) => if *b {
                "Bool(true)"@
            } else {
                "Bool(false)"@
            },
            Value::Integer(n) => "Integer("@ + decimal(*n as int) + ")"@,
            Value::Float(bits) => "Float(bits "@ + decimal(*bits as int) + ")"@,
            Value::String(s) => "String("@ + s@ + ")"@,
            Value::List(l) => "["@ + items_rendering(l@, l@.len() as int) + "]"@,
            Value::Object(t) => "{"@ + t.rendering() + "}"@,
            Value::Secret(_) => "Secret(***)"@,
            Value::Absent => "Absent"@,
        }
    }

    /// What a secret is written out as does not depend on what it holds.
    pub proof fn law_secret_is_masked(&self)
        requires
            self is Secret,
        ensures
            self.rendering() == "Secret(***)"@,
    {
    }

    /// Appends the rendering of the value to `out`.
    fn render_into(&self, out: &mut Vec<char>)
        ensures
            final(out)@ == old(out)@ + self.rendering(),
        decreases self,
    {
        let ghost start = out@;
        match self {
            Value::Null => {
                append_str(out, "Null");
            },
            Value::Bool(b) => {
                if *b {
                    append_str(out, "Bool(true)");
                } else {
                    append_str(out, "Bool(false)");
                }
            },
            Value::Integer(n) => {
                append_str(out, "Integer(");
                push_decimal(out, *n);
                append_str(out, ")");
                assert(out@ =~= start + ("Integer("@ + decimal(*n as int) + ")"@));
            },
            Value::Float(bits) => {
                append_str(out, "Float(bits ");
                push_decimal(out, *bits as i128);
                append_str(out, ")");
                assert(out@ =~= start + ("Float(bits "@ + decimal(*bits as int) + ")"@));
            },
            Value::String(s) => {
                append_str(out, "String(");
                append_str(out, s.as_str());
                append_str(out, ")");
                assert(out@ =~= start + ("String("@ + s@ + ")"@));
            },
            Value::List(l) => {
                append_str(out, "[");
                let mut i: usize = 0;
                assert(out@ =~= start + "["@ + items_rendering(l@, 0));
                while i < l.len()
                    invariant
                        i <= l@.len(),
                        *self == Value::List(*l),
                        out@ == start + "["@ + items_rendering(l@, i as int),
                    decreases l@.len() - i,
                {
                    let ghost before = out@;
                    if i > 0 {
                        append_str(out, ", ");
                    }
                    assert(l@[i as int] == self->List_0@[i as int]);
                    assert(decreases_to!(self => self->List_0@[i as int]));
                    l[i].render_into(out);
                    assert(out@ =~= start + "["@ + items_rendering(l@, i + 1)) by {
                        if i == 0 {
                            assert(items_rendering(l@, 0) =~= Seq::<char>::empty());
                        }
                    }
                    i += 1;
                }
                append_str(out, "]");
                assert(out@ =~= start + ("["@ + items_rendering(l@, l@.len() as int) + "]"@));
            },
            Value::Object(t) => {
                append_str(out, "{");
                let mut i: usize = 0;
                assert(out@ =~= start + "{"@ + entries_rendering(t.entries@, 0));
                while i < t.entries.len()
                    invariant
                        i <= t.entries@.len(),
                        *self == Value::Object(*t),
                        out@ == start + "{"@ + entries_rendering(t.entries@, i as int),
                    decreases t.entries@.len() - i,
                {
                    if i > 0 {
                        append_str(out, ", ");
                    }
                    append_str(out, t.entries[i].0.as_str());
                    append_str(out, ": ");
                    assert(t.entries@[i as int] == self->Object_0.entries@[i as int]);
                    assert(decreases_to!(self => self->Object_0.entries@[i as int].1));
                    t.entries[i].1.render_into(out);
                    assert(out@ =~= start + "{"@ + entries_rendering(t.entries@, i + 1)) by {
                        if i == 0 {
                            assert(entries_rendering(t.entries@, 0) =~= Seq::<char>::empty());
                        }
                    }
                    i += 1;
                }
                append_str(out, "}");
                assert(out@ =~= start + ("{"@ + t.rendering() + "}"@));
            },
            Value::Secret(_) => {
                append_str(out, "Secret(***)");
            },
            Value::Absent => {
                append_str(out, "Absent");
            },
        }
    }

    /// The value written out for a reader. What a secret holds is never
    /// written.
    pub fn debug_string(&self) -> (r: String)
        ensures
            r@ == self.rendering(),
    {
        let mut out: Vec<char> = Vec::new();
        self.render_into(&mut out);
        assert(out@ =~= self.rendering());
        assert(out@.subrange(0, out@.len() as int) == out@);
        string_of(&out, 0, out.len())
    }
}

} // verus!
