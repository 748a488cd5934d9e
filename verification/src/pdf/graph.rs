//! What a page needs: the objects that can be reached from it by following
//! references, gathered breadth first.

use crate::pdf::document::{lemma_count, lemma_place, Document};
use crate::pdf::object::{collect_references, references, ObjectId, ObjectView};
use vstd::prelude::*;

verus! {

/// A graph of objects: each object under its id.
pub type Graph = Map<ObjectId, ObjectView>;

/// `order`, with those of the first `n` of `refs` added at its end, one
/// after the other, that are objects of `g` and not in it yet.
pub open spec fn extended(g: Graph, order: Seq<ObjectId>, refs: Seq<ObjectId>, n: nat) -> Seq<
    ObjectId,
>
    decreases n,
{
    if 0 < n <= refs.len() {
        let o = extended(g, order, refs, (n - 1) as nat);
        let r = refs[n - 1];
        if g.contains_key(r) && !o.contains(r) {
            o.push(r)
        } else {
            o
        }
    } else {
        order
    }
}

/// What a breadth-first walk makes of `order` when it goes on from the
/// object at `head`: it adds what each object refers to, in turn, until no
/// object of `order` is left to look at. A reference to an id under which
/// `g` has no object is passed over.
pub open spec fn walked(g: Graph, order: Seq<ObjectId>, head: nat) -> Seq<ObjectId>
    decreases g.dom().len() - head,
{
    if head < order.len() <= g.dom().len() {
        let refs = references(g[order[head as int]]);
        walked(g, extended(g, order, refs, refs.len()), head + 1)
    } else {
        order
    }
}

/// The ids of the objects that `root` needs, in the order in which a
/// breadth-first walk from `root` meets them: `root` first.
pub open spec fn closure(g: Graph, root: ObjectId) -> Seq<ObjectId> {
    walked(g, seq![root], 0)
}

/// Every id of `order` is an object of `g`, and none occurs twice.
pub open spec fn distinct_objects(g: Graph, order: Seq<ObjectId>) -> bool {
    &&& order.no_duplicates()
    &&& forall|i: int| 0 <= i < order.len() ==> g.contains_key(#[trigger] order[i])
}

/// Whether `front` is how `whole` begins.
pub open spec fn begins_with(whole: Seq<ObjectId>, front: Seq<ObjectId>) -> bool {
    &&& front.len() <= whole.len()
    &&& forall|i: int| 0 <= i < front.len() ==> whole[i] == front[i]
}

/// Whether the object under `a` holds a reference to `b`, both being
/// objects of `g`.
pub open spec fn refers(g: Graph, a: ObjectId, b: ObjectId) -> bool {
    g.contains_key(a) && g.contains_key(b) && references(g[a]).contains(b)
}

/// Whether `order` holds, for each of its first `n` objects, every object
/// that it refers to.
pub open spec fn closed_upto(g: Graph, order: Seq<ObjectId>, n: int) -> bool {
    forall|i: int, b: ObjectId|
        0 <= i < n && i < order.len() && #[trigger] refers(g, order[i], b) ==> order.contains(b)
}

/// Whether each step of `path` follows a reference.
pub open spec fn is_path(g: Graph, path: Seq<ObjectId>) -> bool {
    &&& path.len() > 0
    &&& forall|i: int| 0 <= i < path.len() - 1 ==> refers(g, #[trigger] path[i], path[i + 1])
}

/// Whether `to` can be reached from `from` by following references
/// through objects of `g`.
pub open spec fn reachable(g: Graph, from: ObjectId, to: ObjectId) -> bool {
    exists|path: Seq<ObjectId>| is_path(g, path) && path[0] == from && #[trigger] path.last() == to
}

/// Whether every id of `order` can be reached from `root`.
pub open spec fn all_reachable(g: Graph, root: ObjectId, order: Seq<ObjectId>) -> bool {
    forall|i: int| 0 <= i < order.len() ==> reachable(g, root, #[trigger] order[i])
}

/// Distinct objects of a graph are no more than the graph has.
pub proof fn lemma_bound(g: Graph, order: Seq<ObjectId>)
    requires
        g.dom().finite(),
        distinct_objects(g, order),
    ensures
        order.len() <= g.dom().len(),
{
    order.unique_seq_to_set();
    assert(order.to_set().subset_of(g.dom())) by {
        assert forall|id: ObjectId| order.to_set().contains(id) implies g.dom().contains(id) by {
            let i = choose|i: int| 0 <= i < order.len() && order[i] == id;
            assert(g.contains_key(order[i]));
        }
    }
    vstd::set_lib::lemma_len_subset(order.to_set(), g.dom());
}

/// One more step along a reference reaches one more object.
pub proof fn lemma_reachable_step(g: Graph, root: ObjectId, a: ObjectId, b: ObjectId)
    requires
        reachable(g, root, a),
        refers(g, a, b),
    ensures
        reachable(g, root, b),
{
    let p = choose|path: Seq<ObjectId>|
        is_path(g, path) && path[0] == root && #[trigger] path.last() == a;
    let q = p.push(b);
    assert forall|i: int| 0 <= i < q.len() - 1 implies refers(g, #[trigger] q[i], q[i + 1]) by {
        if i < p.len() - 1 {
            assert(refers(g, p[i], p[i + 1]));
        }
    }
    assert(q[0] == root && q.last() == b);
}

/// Adding what an object refers to keeps what was there, adds objects
/// only, each once, and leaves out none that the object refers to.
pub proof fn lemma_extended(
    g: Graph,
    root: ObjectId,
    order: Seq<ObjectId>,
    from: ObjectId,
    refs: Seq<ObjectId>,
    n: nat,
)
    requires
        distinct_objects(g, order),
        n <= refs.len(),
        all_reachable(g, root, order),
        reachable(g, root, from),
        g.contains_key(from),
        refs == references(g[from]),
    ensures
        distinct_objects(g, extended(g, order, refs, n)),
        begins_with(extended(g, order, refs, n), order),
        all_reachable(g, root, extended(g, order, refs, n)),
        forall|k: int|
            0 <= k < n && g.contains_key(#[trigger] refs[k]) ==> extended(
                g,
                order,
                refs,
                n,
            ).contains(refs[k]),
    decreases n,
{
    if n > 0 {
        lemma_extended(g, root, order, from, refs, (n - 1) as nat);
        let o = extended(g, order, refs, (n - 1) as nat);
        let r = refs[n - 1];
        let e = extended(g, order, refs, n);
        if g.contains_key(r) && !o.contains(r) {
            assert(e == o.push(r));
            assert(references(g[from]).contains(r));
            assert(refers(g, from, r));
            lemma_reachable_step(g, root, from, r);
            assert forall|k: int| 0 <= k < n && g.contains_key(#[trigger] refs[k]) implies e.contains(
                refs[k],
            ) by {
                if k < n - 1 {
                    let i = choose|i: int| 0 <= i < o.len() && o[i] == refs[k];
                    assert(e[i] == refs[k]);
                } else {
                    assert(e[o.len() as int] == r);
                }
            }
        } else {
            assert(e == o);
        }
    }
}

/// The walk keeps what it started from, gathers distinct objects that can
/// all be reached from the root, and ends with every object that one of
/// them refers to.
pub proof fn lemma_walked(g: Graph, root: ObjectId, order: Seq<ObjectId>, head: nat)
    requires
        g.dom().finite(),
        distinct_objects(g, order),
        all_reachable(g, root, order),
        head <= order.len(),
        closed_upto(g, order, head as int),
    ensures
        distinct_objects(g, walked(g, order, head)),
        begins_with(walked(g, order, head), order),
        all_reachable(g, root, walked(g, order, head)),
        closed_upto(g, walked(g, order, head), walked(g, order, head).len() as int),
    decreases g.dom().len() - head,
{
    lemma_bound(g, order);
    if head < order.len() {
        let from = order[head as int];
        let refs = references(g[from]);
        let next = extended(g, order, refs, refs.len());
        lemma_extended(g, root, order, from, refs, refs.len());
        assert(closed_upto(g, next, head as int + 1)) by {
            assert forall|i: int, b: ObjectId|
                0 <= i < head + 1 && i < next.len() && #[trigger] refers(
                    g,
                    next[i],
                    b,
                ) implies next.contains(b) by {
                assert(next[i] == order[i]);
                if i < head {
                    assert(order.contains(b));
                    let j = choose|j: int| 0 <= j < order.len() && order[j] == b;
                    assert(next[j] == b);
                } else {
                    let k = choose|k: int| 0 <= k < refs.len() && refs[k] == b;
                    assert(g.contains_key(refs[k]));
                }
            }
        }
        lemma_walked(g, root, next, head + 1);
        let end = walked(g, next, head + 1);
        assert(walked(g, order, head) == end);
        assert(begins_with(end, order)) by {
            assert forall|i: int| 0 <= i < order.len() implies end[i] == order[i] by {
                assert(next[i] == order[i]);
            }
        }
    } else {
        assert(walked(g, order, head) == order);
    }
}

/// What the closure of an object is: distinct objects of the graph, the
/// root first; each of them can be reached from the root, and whatever
/// can be reached from the root is one of them.
pub proof fn lemma_closure(g: Graph, root: ObjectId)
    requires
        g.dom().finite(),
        g.contains_key(root),
    ensures
        distinct_objects(g, closure(g, root)),
        closure(g, root).len() >= 1,
        closure(g, root)[0] == root,
        closure(g, root).len() <= g.dom().len(),
        closed_upto(g, closure(g, root), closure(g, root).len() as int),
        forall|id: ObjectId| closure(g, root).contains(id) <==> reachable(g, root, id),
{
    let start = seq![root];
    assert(reachable(g, root, root)) by {
        let p = seq![root];
        assert(is_path(g, p) && p[0] == root && p.last() == root);
    }
    lemma_walked(g, root, start, 0);
    let c = closure(g, root);
    assert(c[0] == start[0]);
    lemma_bound(g, c);
    assert forall|id: ObjectId| c.contains(id) <==> reachable(g, root, id) by {
        if c.contains(id) {
            let i = choose|i: int| 0 <= i < c.len() && c[i] == id;
            assert(reachable(g, root, c[i]));
        }
        if reachable(g, root, id) {
            let p = choose|path: Seq<ObjectId>|
                is_path(g, path) && path[0] == root && #[trigger] path.last() == id;
            lemma_path_inside(g, c, p, p.len() - 1);
        }
    }
}

/// A path that starts inside a closed set of objects stays inside it.
pub proof fn lemma_path_inside(g: Graph, c: Seq<ObjectId>, path: Seq<ObjectId>, k: int)
    requires
        closed_upto(g, c, c.len() as int),
        is_path(g, path),
        c.contains(path[0]),
        0 <= k < path.len(),
    ensures
        c.contains(path[k]),
    decreases k,
{
    if k > 0 {
        lemma_path_inside(g, c, path, k - 1);
        let i = choose|i: int| 0 <= i < c.len() && c[i] == path[k - 1];
        assert(refers(g, path[k - 1], path[k - 1 + 1]));
        assert(refers(g, c[i], path[k]));
    }
}

/// The ids of the objects that `root` needs: `root` itself, then whatever
/// can be reached from it by following references, breadth first. A
/// reference to an id under which the document has no object is passed
/// over.
pub fn reachable_objects(source: &Document, root: ObjectId) -> (order: Vec<ObjectId>)
    requires
        source.wf(),
        source@.objects.contains_key(root),
    ensures
        order@ == closure(source@.objects, root),
        order@.len() <= source@.objects.dom().len(),
        order@.no_duplicates(),
        order@[0] == root,
        forall|id: ObjectId| order@.contains(id) <==> reachable(source@.objects, root, id),
{
    let ghost g = source@.objects;
    let n = source.slots.len();
    let mut seen: Vec<bool> = vec![false; n];
    let mut order: Vec<ObjectId> = Vec::new();
    let start = source.find(root);
    let at = start.unwrap();
    seen.set(at, true);
    order.push(root);
    proof {
        lemma_count(source.slots@);
        assert(order@ == seq![root]);
        assert forall|j: int| 0 <= j < n implies (seen@[j] <==> order@.contains(
            #[trigger] source.slots@[j].id,
        )) by {
            lemma_place(source.slots@, j);
            lemma_place(source.slots@, at as int);
            if j == at {
                assert(order@[0] == source.slots@[j].id);
            }
        }
    }
    let mut head: usize = 0;
    while head < order.len()
        invariant
            source.wf(),
            g == source@.objects,
            n == source.slots@.len(),
            n == g.dom().len(),
            g.dom().finite(),
            seen@.len() == n,
            head <= order@.len(),
            distinct_objects(g, order@),
            forall|j: int|
                0 <= j < n ==> (seen@[j] <==> order@.contains(#[trigger] source.slots@[j].id)),
            walked(g, order@, head as nat) == closure(g, root),
        decreases n - head,
    {
        proof {
            lemma_bound(g, order@);
        }
        let ghost before = order@;
        let current = order[head];
        let found = source.get_object(current);
        let object = found.unwrap();
        let mut refs: Vec<ObjectId> = Vec::new();
        collect_references(object, &mut refs);
        assert(refs@ == references(g[current])) by {
            assert(Seq::<ObjectId>::empty() + references(object@) == references(object@));
        }
        let mut k: usize = 0;
        while k < refs.len()
            invariant
                source.wf(),
                g == source@.objects,
                n == source.slots@.len(),
                seen@.len() == n,
                k <= refs@.len(),
                distinct_objects(g, order@),
                forall|j: int|
                    0 <= j < n ==> (seen@[j] <==> order@.contains(#[trigger] source.slots@[j].id)),
                order@ == extended(g, before, refs@, k as nat),
            decreases refs.len() - k,
        {
            let r = refs[k];
            let ghost o = order@;
            match source.find(r) {
                Some(j) => {
                    proof {
                        lemma_place(source.slots@, j as int);
                    }
                    if !seen[j] {
                        seen.set(j, true);
                        order.push(r);
                        proof {
                            assert(!o.contains(r));
                            assert forall|a: int, b: int|
                                0 <= a < order@.len() && 0 <= b < order@.len() && a
                                    != b implies order@[a] != order@[b] by {
                                if a < o.len() && b < o.len() {
                                    assert(o[a] != o[b]);
                                } else if a < o.len() {
                                    assert(o.contains(o[a]));
                                } else {
                                    assert(o.contains(o[b]));
                                }
                            }
                            assert forall|i: int| 0 <= i < n implies (seen@[i] <==> order@.contains(
                                #[trigger] source.slots@[i].id,
                            )) by {
                                let id = source.slots@[i].id;
                                lemma_place(source.slots@, i);
                                if o.contains(id) {
                                    let x = choose|x: int| 0 <= x < o.len() && o[x] == id;
                                    assert(order@[x] == id);
                                }
                                if i == j {
                                    assert(order@[o.len() as int] == id);
                                }
                                if order@.contains(id) && i != j {
                                    let x = choose|x: int| 0 <= x < order@.len() && order@[x] == id;
                                    assert(x < o.len());
                                    assert(o[x] == id);
                                }
                            }
                        }
                    } else {
                        assert(o.contains(r));
                    }
                },
                None => {
                    assert(!g.contains_key(r));
                },
            }
            k += 1;
        }
        proof {
            assert(walked(g, before, head as nat) == walked(
                g,
                extended(g, before, refs@, refs@.len()),
                (head + 1) as nat,
            ));
            lemma_extended_grows(g, before, refs@, refs@.len());
        }
        head += 1;
    }
    proof {
        lemma_bound(g, order@);
        assert(walked(g, order@, head as nat) == order@);
        lemma_closure(g, root);
    }
    order
}

/// Adding never takes away.
pub proof fn lemma_extended_grows(g: Graph, order: Seq<ObjectId>, refs: Seq<ObjectId>, n: nat)
    requires
        n <= refs.len(),
    ensures
        extended(g, order, refs, n).len() >= order.len(),
    decreases n,
{
    if n > 0 {
        lemma_extended_grows(g, order, refs, (n - 1) as nat);
    }
}

} // verus!
