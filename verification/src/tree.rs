//! The mathematical model of a configuration tree, and what path lookup,
//! assignment and merging mean on it.

use vstd::prelude::*;
use crate::text::split;

verus! {

/// What a configuration node is, independent of how it is stored.
pub enum Tree {
    /// A stored null.
    Null,
    /// A truth value.
    Bool(bool),
    /// A whole number.
    Integer(int),
    /// A double-precision number, by its IEEE-754 bit pattern.
    Float(u64),
    /// A string.
    Text(Seq<char>),
    /// An ordered, index-addressed list.
    List(Seq<Tree>),
    /// A keyed collection: every key occurs once, order is irrelevant.
    Object(Map<Seq<char>, Tree>),
    /// A value whose reading is mediated.
    Secret(Box<Tree>),
    /// No value: the path does not exist.
    Absent,
}

/// Whether `c` is one of `0` to `9`.
pub open spec fn is_digit(c: char) -> bool {
    '0' <= c <= '9'
}

/// The number that the digit `c` stands for.
pub open spec fn digit_value(c: char) -> nat {
    (c as u32 - '0' as u32) as nat
}

/// Whether `s` holds digits only.
pub open spec fn all_digits(s: Seq<char>) -> bool {
    forall|i: int| 0 <= i < s.len() ==> is_digit(#[trigger] s[i])
}

/// The number that a string of digits denotes in base ten.
pub open spec fn decimal_value(s: Seq<char>) -> nat
    decreases s.len(),
{
    if s.len() == 0 {
        0
    } else {
        decimal_value(s.drop_last()) * 10 + digit_value(s.last())
    }
}

/// The non-negative number that `s` denotes: one or more digits, optionally
/// after a `+`. Anything else denotes nothing.
pub open spec fn unsigned_decimal(s: Seq<char>) -> Option<nat> {
    let digits = if s.len() > 0 && s[0] == '+' {
        s.skip(1)
    } else {
        s
    };
    if digits.len() > 0 && all_digits(digits) {
        Some(decimal_value(digits))
    } else {
        None
    }
}

/// The number that `s` denotes: one or more digits, optionally after a `+`
/// or a `-`. Anything else denotes nothing.
pub open spec fn signed_decimal(s: Seq<char>) -> Option<int> {
    if s.len() > 0 && s[0] == '-' {
        if s.len() > 1 && all_digits(s.skip(1)) {
            Some(-(decimal_value(s.skip(1)) as int))
        } else {
            None
        }
    } else {
        match unsigned_decimal(s) {
            Some(n) => Some(n as int),
            None => None,
        }
    }
}

/// The segments of a dot-separated path. A path has at least one segment; the
/// empty path has the one empty segment.
pub open spec fn segments(path: Seq<char>) -> Seq<Seq<char>> {
    split(path, seq!['.'])
}

/// One step of descent. At an object the segment is a key; at a list it must
/// denote an index within the list; every other node has no children.
pub open spec fn child(t: Tree, seg: Seq<char>) -> Tree {
    match t {
        Tree::Object(m) => if m.contains_key(seg) {
            m[seg]
        } else {
            Tree::Absent
        },
        Tree::List(l) => {
            let idx = unsigned_decimal(seg);
            if idx is Some && idx->0 < l.len() {
                l[idx->0 as int]
            } else {
                Tree::Absent
            }
        },
        _ => Tree::Absent,
    }
}

/// The node that `segs` leads to from `t`, or `Absent` as soon as a step fails.
pub open spec fn lookup(t: Tree, segs: Seq<Seq<char>>) -> Tree
    decreases segs.len(),
{
    if segs.len() == 0 {
        t
    } else {
        lookup(child(t, segs[0]), segs.drop_first())
    }
}

/// Merging `incoming` into `target`. Two objects merge key by key: keys of
/// one side only are kept as they are, keys of both sides have their values
/// merged in turn. In every other pairing `incoming` takes the place of
/// `target`.
pub open spec fn merge_trees(target: Tree, incoming: Tree) -> Tree
    decreases incoming,
{
    match (target, incoming) {
        (Tree::Object(a), Tree::Object(b)) => Tree::Object(
            Map::new(
                |k: Seq<char>| a.contains_key(k) || b.contains_key(k),
                |k: Seq<char>|
                    if b.contains_key(k) {
                        if a.contains_key(k) {
                            merge_trees(a[k], b[k])
                        } else {
                            b[k]
                        }
                    } else {
                        a[k]
                    },
            ),
        ),
        _ => incoming,
    }
}

/// The object with no keys.
pub open spec fn empty_object() -> Tree {
    Tree::Object(Map::empty())
}

/// Whether `seg` denotes the index of one of `len` items.
pub open spec fn indexes(seg: Seq<char>, len: nat) -> bool {
    let idx = unsigned_decimal(seg);
    idx is Some && idx->0 < len
}

/// Assigning `v` at `segs` below `t`; at the end of the path `v` is merged
/// into the node that is there. On the way the descent follows object keys
/// and list indices. A key that an object lacks is created as an empty
/// object, and a node that is neither an object nor a list gives way to a
/// fresh object, so missing stretches of the path become nested objects,
/// never lists. A list is never extended: where a segment does not index
/// one of its items, the tree stays as it is.
pub open spec fn assign(t: Tree, segs: Seq<Seq<char>>, v: Tree) -> Tree
    decreases segs.len(),
{
    if segs.len() == 0 {
        merge_trees(t, v)
    } else {
        let seg = segs[0];
        let rest = segs.drop_first();
        match t {
            Tree::Object(m) => {
                let below = if m.contains_key(seg) {
                    m[seg]
                } else {
                    empty_object()
                };
                Tree::Object(m.insert(seg, assign(below, rest, v)))
            },
            Tree::List(l) => if indexes(seg, l.len()) {
                let i = unsigned_decimal(seg)->0 as int;
                Tree::List(l.update(i, assign(l[i], rest, v)))
            } else {
                t
            },
            _ => Tree::Object(Map::empty().insert(seg, assign(empty_object(), rest, v))),
        }
    }
}

/// `v` wrapped in one single-key object per segment, outermost first.
pub open spec fn nest(segs: Seq<Seq<char>>, v: Tree) -> Tree
    decreases segs.len(),
{
    if segs.len() == 0 {
        v
    } else {
        Tree::Object(Map::empty().insert(segs[0], nest(segs.drop_first(), v)))
    }
}

/// Storing `v` at `segs` below `t`, replacing what is there. The descent
/// follows keys that exist in objects; from the first missing key on, the
/// rest of the path is created as nested objects. A node that is not an
/// object is left as it is.
pub open spec fn put(t: Tree, segs: Seq<Seq<char>>, v: Tree) -> Tree
    decreases segs.len(),
{
    if segs.len() == 0 {
        t
    } else {
        let seg = segs[0];
        let rest = segs.drop_first();
        match t {
            Tree::Object(m) => if rest.len() > 0 && m.contains_key(seg) {
                Tree::Object(m.insert(seg, put(m[seg], rest, v)))
            } else {
                Tree::Object(m.insert(seg, nest(rest, v)))
            },
            _ => t,
        }
    }
}

} // verus!
