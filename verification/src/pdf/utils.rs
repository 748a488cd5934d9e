//! Copying a page with everything it needs into another document, and
//! giving a document its page tree.

use crate::pdf::dictionary::copy_bytes;
use crate::pdf::document::{lemma_place, Document, DocumentView};
use crate::pdf::error::PdfError;
use crate::pdf::graph::{closure, distinct_objects, lemma_closure, reachable_objects, Graph};
use crate::pdf::integrity::{intact, lemma_copied_intact};
use crate::pdf::object::{
    entries_view, items_view, lemma_entries_view, lemma_items_view, Dictionary, Entry, EntryView,
    Object, ObjectId, ObjectView, Stream, StreamView,
};
use vstd::prelude::*;

pub use crate::pdf::object::collect_references;
pub use crate::pdf::page_tree::create_pages_structure;

verus! {

/// The id that the object at place `k` of a copy gets in a document whose
/// object numbers went up to `base`.
pub open spec fn new_id(base: nat, k: int) -> ObjectId {
    ObjectId { number: (base + 1 + k) as u32, generation: 0 }
}

/// What stands for a reference to `r` in a copy: a reference to the copy
/// of `r` where `r` is among the objects copied, null where it is not.
pub open spec fn renamed(r: ObjectId, order: Seq<ObjectId>, base: nat) -> ObjectView {
    if order.contains(r) {
        ObjectView::Reference(new_id(base, order.index_of(r)))
    } else {
        ObjectView::Null
    }
}

/// `obj` with every reference renamed, and nothing else changed.
pub open spec fn rewritten(obj: ObjectView, order: Seq<ObjectId>, base: nat) -> ObjectView
    decreases obj, 0nat,
{
    match obj {
        ObjectView::Reference(r) => renamed(r, order, base),
        ObjectView::Array(items) => ObjectView::Array(
            rewritten_items(items, order, base, items.len()),
        ),
        ObjectView::Dictionary(entries) => ObjectView::Dictionary(
            rewritten_entries(entries, order, base, entries.len()),
        ),
        ObjectView::Stream(s) => ObjectView::Stream(
            StreamView { dict: rewritten_entries(s.dict, order, base, s.dict.len()), ..s },
        ),
        _ => obj,
    }
}

/// The first `n` of `items`, each rewritten.
pub open spec fn rewritten_items(
    items: Seq<ObjectView>,
    order: Seq<ObjectId>,
    base: nat,
    n: nat,
) -> Seq<ObjectView>
    decreases items, n,
{
    if 0 < n <= items.len() {
        rewritten_items(items, order, base, (n - 1) as nat).push(
            rewritten(items[n - 1], order, base),
        )
    } else {
        Seq::empty()
    }
}

/// The first `n` of `entries`, each with its value rewritten.
pub open spec fn rewritten_entries(
    entries: Seq<EntryView>,
    order: Seq<ObjectId>,
    base: nat,
    n: nat,
) -> Seq<EntryView>
    decreases entries, n,
{
    if 0 < n <= entries.len() {
        rewritten_entries(entries, order, base, (n - 1) as nat).push(
            EntryView {
                key: entries[n - 1].key,
                value: rewritten(entries[n - 1].value, order, base),
            },
        )
    } else {
        Seq::empty()
    }
}

/// The references of `obj` to ids that are not among the objects copied,
/// in the order in which they stand in it.
pub open spec fn dropped(obj: ObjectView, order: Seq<ObjectId>) -> Seq<ObjectId>
    decreases obj, 0nat,
{
    match obj {
        ObjectView::Reference(r) => if order.contains(r) {
            Seq::empty()
        } else {
            seq![r]
        },
        ObjectView::Array(items) => dropped_items(items, order, items.len()),
        ObjectView::Dictionary(entries) => dropped_entries(entries, order, entries.len()),
        ObjectView::Stream(s) => dropped_entries(s.dict, order, s.dict.len()),
        _ => Seq::empty(),
    }
}

/// What the first `n` of `items` drop.
pub open spec fn dropped_items(items: Seq<ObjectView>, order: Seq<ObjectId>, n: nat) -> Seq<
    ObjectId,
>
    decreases items, n,
{
    if 0 < n <= items.len() {
        dropped_items(items, order, (n - 1) as nat) + dropped(items[n - 1], order)
    } else {
        Seq::empty()
    }
}

/// What the values of the first `n` of `entries` drop.
pub open spec fn dropped_entries(entries: Seq<EntryView>, order: Seq<ObjectId>, n: nat) -> Seq<
    ObjectId,
>
    decreases entries, n,
{
    if 0 < n <= entries.len() {
        dropped_entries(entries, order, (n - 1) as nat) + dropped(entries[n - 1].value, order)
    } else {
        Seq::empty()
    }
}

/// Rewritten items are the items, each rewritten.
pub proof fn lemma_rewritten_items(items: Seq<ObjectView>, order: Seq<ObjectId>, base: nat, n: nat)
    requires
        n <= items.len(),
    ensures
        rewritten_items(items, order, base, n).len() == n,
        forall|k: int|
            0 <= k < n ==> #[trigger] rewritten_items(items, order, base, n)[k] == rewritten(
                items[k],
                order,
                base,
            ),
    decreases n,
{
    if n > 0 {
        lemma_rewritten_items(items, order, base, (n - 1) as nat);
        assert(rewritten_items(items, order, base, n) == rewritten_items(
            items,
            order,
            base,
            (n - 1) as nat,
        ).push(rewritten(items[n - 1], order, base)));
    } else {
        assert(rewritten_items(items, order, base, 0).len() == 0);
    }
}

/// Rewritten entries are the entries, each with its key and its value
/// rewritten.
pub proof fn lemma_rewritten_entries(
    entries: Seq<EntryView>,
    order: Seq<ObjectId>,
    base: nat,
    n: nat,
)
    requires
        n <= entries.len(),
    ensures
        rewritten_entries(entries, order, base, n).len() == n,
        forall|k: int|
            0 <= k < n ==> #[trigger] rewritten_entries(entries, order, base, n)[k] == (EntryView {
                key: entries[k].key,
                value: rewritten(entries[k].value, order, base),
            }),
    decreases n,
{
    if n > 0 {
        lemma_rewritten_entries(entries, order, base, (n - 1) as nat);
        assert(rewritten_entries(entries, order, base, n) == rewritten_entries(
            entries,
            order,
            base,
            (n - 1) as nat,
        ).push(
            EntryView {
                key: entries[n - 1].key,
                value: rewritten(entries[n - 1].value, order, base),
            },
        ));
    } else {
        assert(rewritten_entries(entries, order, base, 0).len() == 0);
    }
}

/// The table that the copier looks new numbers up in: for each object of
/// the source, by its place, the number of its copy, or 0 where it is not
/// copied.
pub open(crate) spec fn numbered(
    source: &Document,
    numbers: Seq<u32>,
    order: Seq<ObjectId>,
    base: nat,
) -> bool {
    &&& source.wf()
    &&& distinct_objects(source@.objects, order)
    &&& base + order.len() <= u32::MAX
    &&& numbers.len() == source.slots@.len()
    &&& forall|j: int, i: int|
        0 <= j < numbers.len() && 0 <= i < order.len() && (#[trigger] source.slots@[j]).id
            == #[trigger] order[i] ==> numbers[j] == base + 1 + i
    &&& forall|j: int|
        0 <= j < numbers.len() && #[trigger] numbers[j] != 0 ==> order.contains(source.slots@[j].id)
}

/// What stands in a copy for a reference to `r`, and a note of `r` where
/// the copy cannot refer to it.
fn update_reference(
    r: ObjectId,
    source: &Document,
    numbers: &Vec<u32>,
    unresolved: &mut Vec<ObjectId>,
    Ghost(order): Ghost<Seq<ObjectId>>,
    Ghost(base): Ghost<nat>,
) -> (out: Object)
    requires
        numbered(source, numbers@, order, base),
    ensures
        out@ == renamed(r, order, base),
        final(unresolved)@ == old(unresolved)@ + dropped(ObjectView::Reference(r), order),
{
    let number: u32 = match source.find(r) {
        Some(j) => {
            proof {
                lemma_place(source.slots@, j as int);
                if order.contains(r) {
                    let i = order.index_of(r);
                    assert(source.slots@[j as int].id == order[i]);
                }
            }
            numbers[j]
        },
        None => {
            proof {
                if order.contains(r) {
                    let i = order.index_of(r);
                    assert(source@.objects.contains_key(order[i]));
                }
            }
            0
        },
    };
    assert(number != 0 <==> order.contains(r));
    assert(dropped(ObjectView::Reference(r), order) == if order.contains(r) {
        Seq::<ObjectId>::empty()
    } else {
        seq![r]
    });
    if number != 0 {
        assert(old(unresolved)@ + Seq::<ObjectId>::empty() == old(unresolved)@);
        let out = Object::Reference(ObjectId { number, generation: 0 });
        assert(out@ == ObjectView::Reference(ObjectId { number, generation: 0 }));
        out
    } else {
        unresolved.push(r);
        assert(old(unresolved)@.push(r) == old(unresolved)@ + seq![r]);
        let out = Object::Null;
        assert(out@ == ObjectView::Null);
        out
    }
}

/// A copy of `obj` in which every reference points at the copy of what it
/// pointed at. A reference to something that is not copied becomes null and
/// is noted in `unresolved`.
pub(crate) fn update_references(
    obj: &Object,
    source: &Document,
    numbers: &Vec<u32>,
    unresolved: &mut Vec<ObjectId>,
    Ghost(order): Ghost<Seq<ObjectId>>,
    Ghost(base): Ghost<nat>,
) -> (out: Object)
    requires
        numbered(source, numbers@, order, base),
    ensures
        out@ == rewritten(obj@, order, base),
        final(unresolved)@ == old(unresolved)@ + dropped(obj@, order),
    decreases obj, 1nat,
{
    proof {
        assert(old(unresolved)@ + Seq::<ObjectId>::empty() == old(unresolved)@);
    }
    match obj {
        Object::Null => {
            let out = Object::Null;
            assert(obj@ == ObjectView::Null && out@ == ObjectView::Null);
            assert(rewritten(obj@, order, base) == obj@);
            assert(dropped(obj@, order) == Seq::<ObjectId>::empty());
            out
        },
        Object::Boolean(b) => {
            let out = Object::Boolean(*b);
            assert(obj@ == ObjectView::Boolean(*b) && out@ == obj@);
            assert(rewritten(obj@, order, base) == obj@);
            assert(dropped(obj@, order) == Seq::<ObjectId>::empty());
            out
        },
        Object::Integer(i) => {
            let out = Object::Integer(*i);
            assert(obj@ == ObjectView::Integer(*i) && out@ == obj@);
            assert(rewritten(obj@, order, base) == obj@);
            assert(dropped(obj@, order) == Seq::<ObjectId>::empty());
            out
        },
        Object::Real(r) => {
            let out = Object::Real(*r);
            assert(obj@ == ObjectView::Real(*r) && out@ == obj@);
            assert(rewritten(obj@, order, base) == obj@);
            assert(dropped(obj@, order) == Seq::<ObjectId>::empty());
            out
        },
        Object::Name(n) => {
            let out = Object::Name(copy_bytes(n));
            assert(obj@ == ObjectView::Name(n@) && out@ == obj@);
            assert(rewritten(obj@, order, base) == obj@);
            assert(dropped(obj@, order) == Seq::<ObjectId>::empty());
            out
        },
        Object::String(s, f) => {
            let out = Object::String(copy_bytes(s), *f);
            assert(obj@ == ObjectView::String(s@, *f) && out@ == obj@);
            assert(rewritten(obj@, order, base) == obj@);
            assert(dropped(obj@, order) == Seq::<ObjectId>::empty());
            out
        },
        Object::Reference(r) => {
            assert(obj@ == ObjectView::Reference(*r));
            assert(rewritten(obj@, order, base) == renamed(*r, order, base));
            update_reference(*r, source, numbers, unresolved, Ghost(order), Ghost(base))
        },
        Object::Array(items) => {
            let ghost views = items_view(items@, items@.len());
            assert(obj@ == ObjectView::Array(views));
            assert(rewritten(obj@, order, base) == ObjectView::Array(
                rewritten_items(views, order, base, views.len()),
            ));
            assert(dropped(obj@, order) == dropped_items(views, order, views.len()));
            let copies = update_items(items, source, numbers, unresolved, Ghost(order), Ghost(base));
            let out = Object::Array(copies);
            assert(out@ == ObjectView::Array(items_view(copies@, copies@.len())));
            out
        },
        Object::Dictionary(d) => {
            let ghost views = entries_view(d.entries@, d.entries@.len());
            assert(obj@ == ObjectView::Dictionary(views));
            assert(rewritten(obj@, order, base) == ObjectView::Dictionary(
                rewritten_entries(views, order, base, views.len()),
            ));
            assert(dropped(obj@, order) == dropped_entries(views, order, views.len()));
            let copies = update_entries(
                &d.entries,
                source,
                numbers,
                unresolved,
                Ghost(order),
                Ghost(base),
            );
            let out = Object::Dictionary(Dictionary { entries: copies });
            assert(out@ == ObjectView::Dictionary(entries_view(copies@, copies@.len())));
            out
        },
        Object::Stream(s) => {
            let ghost views = entries_view(s.dict.entries@, s.dict.entries@.len());
            let ghost sv = StreamView {
                dict: views,
                content: s.content@,
                allows_compression: s.allows_compression,
                start_position: s.start_position,
            };
            assert(obj@ == ObjectView::Stream(sv));
            assert(rewritten(obj@, order, base) == ObjectView::Stream(
                StreamView { dict: rewritten_entries(views, order, base, views.len()), ..sv },
            ));
            assert(dropped(obj@, order) == dropped_entries(views, order, views.len()));
            let copies = update_entries(
                &s.dict.entries,
                source,
                numbers,
                unresolved,
                Ghost(order),
                Ghost(base),
            );
            let out = Object::Stream(
                Stream {
                    dict: Dictionary { entries: copies },
                    content: copy_bytes(&s.content),
                    allows_compression: s.allows_compression,
                    start_position: s.start_position,
                },
            );
            assert(out@ == ObjectView::Stream(
                StreamView {
                    dict: entries_view(copies@, copies@.len()),
                    content: s.content@,
                    allows_compression: s.allows_compression,
                    start_position: s.start_position,
                },
            ));
            out
        },
    }
}

fn update_items(
    items: &Vec<Object>,
    source: &Document,
    numbers: &Vec<u32>,
    unresolved: &mut Vec<ObjectId>,
    Ghost(order): Ghost<Seq<ObjectId>>,
    Ghost(base): Ghost<nat>,
) -> (copies: Vec<Object>)
    requires
        numbered(source, numbers@, order, base),
    ensures
        items_view(copies@, copies@.len()) == rewritten_items(
            items_view(items@, items@.len()),
            order,
            base,
            items@.len(),
        ),
        items_view(items@, items@.len()).len() == items@.len(),
        final(unresolved)@ == old(unresolved)@ + dropped_items(
            items_view(items@, items@.len()),
            order,
            items@.len(),
        ),
    decreases items, 0nat,
{
    let ghost views = items_view(items@, items@.len());
    proof {
        lemma_items_view(items@, items@.len());
        assert(dropped_items(views, order, 0) == Seq::<ObjectId>::empty());
        assert(old(unresolved)@ + Seq::<ObjectId>::empty() == old(unresolved)@);
    }
    let mut copies: Vec<Object> = Vec::new();
    let mut i: usize = 0;
    while i < items.len()
        invariant
            numbered(source, numbers@, order, base),
            i <= items.len(),
            copies@.len() == i,
            views == items_view(items@, items@.len()),
            views.len() == items@.len(),
            forall|k: int| 0 <= k < items@.len() ==> #[trigger] views[k] == items@[k]@,
            forall|k: int| 0 <= k < i ==> (#[trigger] copies@[k])@ == rewritten(views[k], order, base),
            unresolved@ == old(unresolved)@ + dropped_items(views, order, i as nat),
        decreases items.len() - i,
    {
        let ghost noted = unresolved@;
        let copy = update_references(
            &items[i],
            source,
            numbers,
            unresolved,
            Ghost(order),
            Ghost(base),
        );
        proof {
            assert(views[i as int] == items@[i as int]@);
            assert(dropped_items(views, order, (i + 1) as nat) == dropped_items(
                views,
                order,
                i as nat,
            ) + dropped(views[i as int], order));
            assert(noted + dropped(views[i as int], order) == old(unresolved)@ + (dropped_items(
                views,
                order,
                i as nat,
            ) + dropped(views[i as int], order)));
        }
        copies.push(copy);
        i += 1;
    }
    proof {
        lemma_items_view(copies@, copies@.len());
        lemma_rewritten_items(views, order, base, views.len());
        assert(items_view(copies@, copies@.len()) =~= rewritten_items(
            views,
            order,
            base,
            views.len(),
        ));
    }
    copies
}

fn update_entries(
    entries: &Vec<Entry>,
    source: &Document,
    numbers: &Vec<u32>,
    unresolved: &mut Vec<ObjectId>,
    Ghost(order): Ghost<Seq<ObjectId>>,
    Ghost(base): Ghost<nat>,
) -> (copies: Vec<Entry>)
    requires
        numbered(source, numbers@, order, base),
    ensures
        entries_view(copies@, copies@.len()) == rewritten_entries(
            entries_view(entries@, entries@.len()),
            order,
            base,
            entries@.len(),
        ),
        entries_view(entries@, entries@.len()).len() == entries@.len(),
        final(unresolved)@ == old(unresolved)@ + dropped_entries(
            entries_view(entries@, entries@.len()),
            order,
            entries@.len(),
        ),
    decreases entries, 0nat,
{
    let ghost views = entries_view(entries@, entries@.len());
    proof {
        lemma_entries_view(entries@, entries@.len());
        assert(dropped_entries(views, order, 0) == Seq::<ObjectId>::empty());
        assert(old(unresolved)@ + Seq::<ObjectId>::empty() == old(unresolved)@);
    }
    let mut copies: Vec<Entry> = Vec::new();
    let mut i: usize = 0;
    while i < entries.len()
        invariant
            numbered(source, numbers@, order, base),
            i <= entries.len(),
            copies@.len() == i,
            views == entries_view(entries@, entries@.len()),
            views.len() == entries@.len(),
            forall|k: int| 0 <= k < entries@.len() ==> #[trigger] views[k] == entries@[k]@,
            forall|k: int|
                0 <= k < i ==> (#[trigger] copies@[k])@ == (EntryView {
                    key: views[k].key,
                    value: rewritten(views[k].value, order, base),
                }),
            unresolved@ == old(unresolved)@ + dropped_entries(views, order, i as nat),
        decreases entries.len() - i,
    {
        let ghost noted = unresolved@;
        let value = update_references(
            &entries[i].value,
            source,
            numbers,
            unresolved,
            Ghost(order),
            Ghost(base),
        );
        let key = copy_bytes(&entries[i].key);
        proof {
            assert(views[i as int] == entries@[i as int]@);
            assert(dropped_entries(views, order, (i + 1) as nat) == dropped_entries(
                views,
                order,
                i as nat,
            ) + dropped(views[i as int].value, order));
            assert(noted + dropped(views[i as int].value, order) == old(unresolved)@ + (
            dropped_entries(views, order, i as nat) + dropped(views[i as int].value, order)));
        }
        copies.push(Entry { key, value });
        i += 1;
    }
    proof {
        lemma_entries_view(copies@, copies@.len());
        lemma_rewritten_entries(views, order, base, views.len());
        assert(entries_view(copies@, copies@.len()) =~= rewritten_entries(
            views,
            order,
            base,
            views.len(),
        ));
    }
    copies
}

/// Whether `id` is one of the `count` ids given out after `base`.
pub open spec fn is_new(id: ObjectId, base: nat, count: nat) -> bool {
    id.generation == 0 && base < id.number <= base + count
}

/// `objects`, and under new ids after `base` the copies of the first
/// `count` objects of `order`, which are taken from `g`.
pub open spec fn with_copies(
    objects: Graph,
    g: Graph,
    order: Seq<ObjectId>,
    base: nat,
    count: nat,
) -> Graph {
    Map::new(
        |id: ObjectId| objects.contains_key(id) || is_new(id, base, count),
        |id: ObjectId|
            if is_new(id, base, count) {
                rewritten(g[order[id.number - base - 1]], order, base)
            } else {
                objects[id]
            },
    )
}

/// The references that the first `n` objects of `order` hold to ids that
/// are not in `order`.
pub open spec fn dropped_all(g: Graph, order: Seq<ObjectId>, n: nat) -> Seq<ObjectId>
    decreases n,
{
    if 0 < n <= order.len() {
        dropped_all(g, order, (n - 1) as nat) + dropped(g[order[n - 1]], order)
    } else {
        Seq::empty()
    }
}

/// The target after the page `page` of `source` was copied into it with
/// everything that the page needs: each object of the page's closure
/// stands under a new id, the page under the first, and its references
/// point at the copies. Nothing that was in the target has changed.
pub open spec fn copied(target: DocumentView, source: Graph, page: ObjectId) -> DocumentView {
    let order = closure(source, page);
    DocumentView {
        objects: with_copies(target.objects, source, order, target.max_id, order.len()),
        max_id: target.max_id + order.len(),
        unresolved: target.unresolved + dropped_all(source, order, order.len()),
        ..target
    }
}

fn number_table(source: &Document, order: &Vec<ObjectId>, base: u32) -> (numbers: Vec<u32>)
    requires
        source.wf(),
        distinct_objects(source@.objects, order@),
        base + order@.len() <= u32::MAX,
    ensures
        numbered(source, numbers@, order@, base as nat),
{
    let n = source.slots.len();
    let mut numbers: Vec<u32> = vec![0u32; n];
    let mut k: usize = 0;
    while k < order.len()
        invariant
            source.wf(),
            distinct_objects(source@.objects, order@),
            base + order@.len() <= u32::MAX,
            k <= order@.len(),
            numbers@.len() == source.slots@.len(),
            forall|j: int, i: int|
                0 <= j < numbers@.len() && 0 <= i < k && (#[trigger] source.slots@[j]).id
                    == #[trigger] order@[i] ==> numbers@[j] == base + 1 + i,
            forall|j: int|
                0 <= j < numbers@.len() && #[trigger] numbers@[j] != 0 ==> exists|i: int|
                    0 <= i < k && order@[i] == source.slots@[j].id,
        decreases order.len() - k,
    {
        let id = order[k];
        let found = source.find(id);
        assert(found is Some) by {
            assert(source@.objects.contains_key(order@[k as int]));
        }
        let j = found.unwrap();
        let ghost before = numbers@;
        numbers.set(j, base + 1 + k as u32);
        proof {
            assert forall|x: int, i: int|
                0 <= x < numbers@.len() && 0 <= i < k + 1 && (#[trigger] source.slots@[x]).id
                    == #[trigger] order@[i] implies numbers@[x] == base + 1 + i by {
                lemma_place(source.slots@, x);
                lemma_place(source.slots@, j as int);
                if i < k {
                    assert(order@[i] != order@[k as int]);
                    assert(x != j);
                    assert(before[x] == base + 1 + i);
                }
            }
            assert forall|x: int| 0 <= x < numbers@.len() && #[trigger] numbers@[x] != 0 implies exists|
                i: int,
            |
                0 <= i < k + 1 && order@[i] == source.slots@[x].id by {
                if x == j {
                    assert(order@[k as int] == source.slots@[x].id);
                } else {
                    assert(before[x] != 0);
                    let i = choose|i: int| 0 <= i < k && order@[i] == source.slots@[x].id;
                    assert(0 <= i < k + 1 && order@[i] == source.slots@[x].id);
                }
            }
        }
        k += 1;
    }
    numbers
}

/// Copies the page `page_id` of `source` into `target` with everything that
/// the page needs, and returns the id of the page's copy. It fails, and
/// leaves the target as it is, where the target has too few object numbers
/// left.
pub fn copy_page_with_resources(source: &Document, page_id: ObjectId, target: &mut Document) -> (r:
    Result<ObjectId, PdfError>)
    requires
        source.wf(),
        old(target).wf(),
        source@.objects.contains_key(page_id),
    ensures
        final(target).wf(),
        match r {
            Ok(id) => {
                &&& copied(old(target)@, source@.objects, page_id).max_id <= u32::MAX
                &&& final(target)@ == copied(old(target)@, source@.objects, page_id)
                &&& id == new_id(old(target)@.max_id, 0)
                &&& intact(old(target)@) ==> intact(final(target)@)
            },
            Err(e) => {
                &&& copied(old(target)@, source@.objects, page_id).max_id > u32::MAX
                &&& e == PdfError::ObjectIdOverflow
                &&& final(target)@ == old(target)@
            },
        },
{
    let ghost g = source@.objects;
    let order = reachable_objects(source, page_id);
    proof {
        lemma_closure(g, page_id);
    }
    let base: u32 = target.max_id;
    if order.len() as u64 > (u32::MAX - base) as u64 {
        return Err(PdfError::ObjectIdOverflow);
    }
    let numbers = number_table(source, &order, base);
    let mut k: usize = 0;
    proof {
        assert(with_copies(target@.objects, g, order@, base as nat, 0) =~= target@.objects);
        assert(target@.unresolved + Seq::<ObjectId>::empty() == target@.unresolved);
    }
    while k < order.len()
        invariant
            source.wf(),
            target.wf(),
            g == source@.objects,
            order@ == closure(g, page_id),
            numbered(source, numbers@, order@, base as nat),
            k <= order@.len(),
            target@.max_id == base + k,
            target@.objects == with_copies(old(target)@.objects, g, order@, base as nat, k as nat),
            target@.unresolved == old(target)@.unresolved + dropped_all(g, order@, k as nat),
            target@.root == old(target)@.root,
            target@.pages == old(target)@.pages,
            base == old(target)@.max_id,
        decreases order.len() - k,
    {
        let id = order[k];
        let found = source.get_object(id);
        assert(found is Some) by {
            assert(g.contains_key(order@[k as int]));
        }
        let object = found.unwrap();
        let ghost noted = target@.unresolved;
        let ghost held = target@.objects;
        let copy = update_references(
            object,
            source,
            &numbers,
            &mut target.unresolved,
            Ghost(order@),
            Ghost(base as nat),
        );
        assert(target@.objects == held);
        let added = target.add_object(copy);
        proof {
            let nid = new_id(base as nat, k as int);
            assert(added == Ok::<ObjectId, PdfError>(nid));
            assert(held.insert(nid, copy@) =~= with_copies(
                old(target)@.objects,
                g,
                order@,
                base as nat,
                (k + 1) as nat,
            ));
            assert(dropped_all(g, order@, (k + 1) as nat) == dropped_all(g, order@, k as nat)
                + dropped(g[order@[k as int]], order@));
            assert(noted + dropped(g[order@[k as int]], order@) == old(target)@.unresolved + (
            dropped_all(g, order@, k as nat) + dropped(g[order@[k as int]], order@)));
        }
        k += 1;
    }
    proof {
        if intact(old(target)@) {
            old(target).lemma_wf();
            lemma_copied_intact(old(target)@, g, page_id);
        }
    }
    Ok(ObjectId { number: base + 1, generation: 0 })
}

} // verus!
