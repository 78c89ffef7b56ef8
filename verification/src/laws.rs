//! What holds of merging, assignment, lookup and expansion for every tree.

use vstd::prelude::*;
use crate::config::resolved;
use crate::template::{expand, finish, scan};
use crate::tree::{
    assign, child, empty_object, indexes, lookup, merge_trees, unsigned_decimal, Tree,
};

verus! {

/// Merging into anything but an object, or merging anything but an object,
/// puts the incoming tree in the target's place.
pub proof fn law_merge_replaces(target: Tree, incoming: Tree)
    requires
        !(target is Object && incoming is Object),
    ensures
        merge_trees(target, incoming) == incoming,
{
}

/// Merging one object into another keeps every key of the target that the
/// incoming object lacks, with its tree; takes over every key that only the
/// incoming object has, with its tree; and under every key that both have
/// leaves the two trees merged in turn. No other key appears.
pub proof fn law_merge_objects(target: Map<Seq<char>, Tree>, incoming: Map<Seq<char>, Tree>)
    ensures
        merge_trees(Tree::Object(target), Tree::Object(incoming)) is Object,
        forall|k: Seq<char>|
            #![trigger target.contains_key(k)]
            #![trigger incoming.contains_key(k)]
            {
                let merged = merge_trees(Tree::Object(target), Tree::Object(incoming))->Object_0;
                &&& merged.contains_key(k) <==> target.contains_key(k) || incoming.contains_key(k)
                &&& target.contains_key(k) && !incoming.contains_key(k) ==> merged[k] == target[k]
                &&& !target.contains_key(k) && incoming.contains_key(k) ==> merged[k]
                    == incoming[k]
                &&& target.contains_key(k) && incoming.contains_key(k) ==> merged[k]
                    == merge_trees(target[k], incoming[k])
            },
{
}

/// Whether `merged` keeps what `target` had apart from `incoming`: where
/// both are objects, every key of `target` is still there, with its own
/// tree where `incoming` lacks the key, and keeping in turn what the tree
/// under the key had where `incoming` has the key too.
pub open spec fn keeps(target: Tree, incoming: Tree, merged: Tree) -> bool
    decreases incoming,
{
    target is Object && incoming is Object ==> merged is Object && forall|k: Seq<char>|
        #![trigger target->Object_0.contains_key(k)]
        target->Object_0.contains_key(k) ==> merged->Object_0.contains_key(k) && if incoming->Object_0.contains_key(
            k,
        ) {
            keeps(target->Object_0[k], incoming->Object_0[k], merged->Object_0[k])
        } else {
            merged->Object_0[k] == target->Object_0[k]
        }
}

/// A merge keeps every key of the target that the incoming object lacks,
/// at every depth.
pub proof fn law_merge_keeps(target: Tree, incoming: Tree)
    requires
        incoming is Object,
    ensures
        keeps(target, incoming, merge_trees(target, incoming)),
    decreases incoming,
{
    if target is Object {
        let a = target->Object_0;
        let b = incoming->Object_0;
        let m = merge_trees(target, incoming)->Object_0;
        assert forall|k: Seq<char>| a.contains_key(k) implies m.contains_key(k) && if b.contains_key(
            k,
        ) {
            keeps(a[k], b[k], m[k])
        } else {
            m[k] == a[k]
        } by {
            if b.contains_key(k) {
                if b[k] is Object {
                    law_merge_keeps(a[k], b[k]);
                }
            }
        }
    }
}

/// Whether an assignment can follow `segs` from `t` to the end: no list on
/// the way is met with a segment that does not index one of its items.
pub open spec fn follows(t: Tree, segs: Seq<Seq<char>>) -> bool
    decreases segs.len(),
{
    segs.len() == 0 || match t {
        Tree::Object(m) => m.contains_key(segs[0]) ==> follows(m[segs[0]], segs.drop_first()),
        Tree::List(l) => indexes(segs[0], l.len()) && follows(
            l[unsigned_decimal(segs[0])->0 as int],
            segs.drop_first(),
        ),
        _ => true,
    }
}

/// Below the absent node there is nothing.
pub proof fn law_lookup_absent(segs: Seq<Seq<char>>)
    ensures
        lookup(Tree::Absent, segs) == Tree::Absent,
    decreases segs.len(),
{
    if segs.len() > 0 {
        law_lookup_absent(segs.drop_first());
    }
}

/// After `v` was assigned at `segs` below a fresh empty object, the path
/// leads to `v`.
proof fn lemma_fresh(segs: Seq<Seq<char>>, v: Tree)
    ensures
        lookup(assign(empty_object(), segs, v), segs) == v,
    decreases segs.len(),
{
    if segs.len() == 0 {
        if v is Object {
            assert(merge_trees(empty_object(), v)->Object_0 =~= v->Object_0);
        }
    } else {
        lemma_fresh(segs.drop_first(), v);
    }
}

/// After `v` was assigned at a path on which no list is met with a segment
/// that does not index it, the path leads to what merging `v` into the node
/// that was there before gives.
pub proof fn law_assign_then_lookup(t: Tree, segs: Seq<Seq<char>>, v: Tree)
    requires
        follows(t, segs),
    ensures
        lookup(assign(t, segs, v), segs) == merge_trees(lookup(t, segs), v),
    decreases segs.len(),
{
    if segs.len() > 0 {
        let seg = segs[0];
        let rest = segs.drop_first();
        match t {
            Tree::Object(m) => {
                if m.contains_key(seg) {
                    law_assign_then_lookup(m[seg], rest, v);
                } else {
                    law_lookup_absent(rest);
                    lemma_fresh(rest, v);
                }
            },
            Tree::List(l) => {
                law_assign_then_lookup(l[unsigned_decimal(seg)->0 as int], rest, v);
            },
            _ => {
                law_lookup_absent(rest);
                lemma_fresh(rest, v);
            },
        }
    }
}

/// After `v` was assigned at a path on which no list is met with a segment
/// that does not index it, looking the path up gives `v` itself, unless `v`
/// and the node that was there before are both objects (which are merged).
pub proof fn law_set_then_get(t: Tree, segs: Seq<Seq<char>>, v: Tree)
    requires
        follows(t, segs),
        !(lookup(t, segs) is Object && v is Object),
    ensures
        lookup(assign(t, segs, v), segs) == v,
{
    law_assign_then_lookup(t, segs, v);
}

/// An assignment along a path on which a list is met with a segment that
/// does not index it leaves the tree as it is: no list is extended, and
/// none is lost.
pub proof fn law_assign_spares_lists(t: Tree, segs: Seq<Seq<char>>, v: Tree)
    requires
        !follows(t, segs),
    ensures
        assign(t, segs, v) == t,
    decreases segs.len(),
{
    let seg = segs[0];
    let rest = segs.drop_first();
    match t {
        Tree::Object(m) => {
            law_assign_spares_lists(m[seg], rest, v);
            assert(m.insert(seg, m[seg]) =~= m);
        },
        Tree::List(l) => {
            if indexes(seg, l.len()) {
                let i = unsigned_decimal(seg)->0 as int;
                law_assign_spares_lists(l[i], rest, v);
                assert(l.update(i, l[i]) =~= l);
            }
        },
        _ => {},
    }
}

/// Where the layer of the highest precedence has something at a path, that
/// is what the path resolves to, whatever the layers below it hold.
pub proof fn law_first_layer_decides(trees: Seq<Tree>, segs: Seq<Seq<char>>)
    requires
        trees.len() > 0,
        !(lookup(trees[0], segs) is Absent),
    ensures
        resolved(trees, segs) == lookup(trees[0], segs),
{
}

/// A path resolves to what the first layer that has something there has.
pub proof fn law_resolution(trees: Seq<Tree>, segs: Seq<Seq<char>>, i: int)
    requires
        0 <= i < trees.len(),
        !(lookup(trees[i], segs) is Absent),
        forall|j: int| 0 <= j < i ==> lookup(#[trigger] trees[j], segs) is Absent,
    ensures
        resolved(trees, segs) == lookup(trees[i], segs),
    decreases i,
{
    if i > 0 {
        let rest = trees.drop_first();
        assert forall|j: int| 0 <= j < i - 1 implies lookup(#[trigger] rest[j], segs) is Absent by {
            assert(rest[j] == trees[j + 1]);
        }
        law_resolution(rest, segs, i - 1);
    }
}

/// A path that no layer has anything at resolves to `Absent`.
pub proof fn law_absent_everywhere(trees: Seq<Tree>, segs: Seq<Seq<char>>)
    requires
        forall|j: int| 0 <= j < trees.len() ==> lookup(#[trigger] trees[j], segs) is Absent,
    ensures
        resolved(trees, segs) is Absent,
    decreases trees.len(),
{
    if trees.len() > 0 {
        let rest = trees.drop_first();
        assert forall|j: int| 0 <= j < rest.len() implies lookup(#[trigger] rest[j], segs) is Absent by {
            assert(rest[j] == trees[j + 1]);
        }
        law_absent_everywhere(rest, segs);
    }
}

/// How many passes the expansion of `s` makes when it may make `passes`.
pub open spec fn passes_made(
    s: Seq<char>,
    env: Seq<(String, String)>,
    files: Seq<(String, String)>,
    passes: nat,
) -> nat
    decreases passes,
{
    if passes == 0 {
        0
    } else if scan(s, env, files).used {
        1 + passes_made(finish(scan(s, env, files)), env, files, (passes - 1) as nat)
    } else {
        1
    }
}

/// An expansion never makes more passes than it may, whatever the text
/// refers to; where it stops early, the last pass substituted nothing.
pub proof fn law_expansion_bounded(
    s: Seq<char>,
    env: Seq<(String, String)>,
    files: Seq<(String, String)>,
    passes: nat,
)
    ensures
        passes_made(s, env, files, passes) <= passes,
    decreases passes,
{
    if passes > 0 && scan(s, env, files).used {
        law_expansion_bounded(finish(scan(s, env, files)), env, files, (passes - 1) as nat);
    }
}

/// A text in which a pass substitutes nothing is expanded by that one pass,
/// however many passes are allowed.
pub proof fn law_expansion_settles(
    s: Seq<char>,
    env: Seq<(String, String)>,
    files: Seq<(String, String)>,
    passes: nat,
)
    requires
        passes >= 1,
        !scan(s, env, files).used,
    ensures
        expand(s, env, files, passes) == finish(scan(s, env, files)),
{
}

} // verus!
