//! No dangling references: what the operations of this library build
//! refers to nothing outside itself.

use crate::pdf::delete::extracted;
use crate::pdf::dictionary::{ascii, dict_set, lemma_key_position};
use crate::pdf::document::{is_page, DocumentView};
use crate::pdf::graph::{closure, lemma_closure, refers, Graph};
use crate::pdf::merge::{
    copied_pages, copy_ids, empty_document, lemma_copied, lemma_copied_pages, lemma_merged_into,
    lemma_merged_monotonic, lemma_pages_monotonic, merged, merged_into, merged_pages,
};
use crate::pdf::object::{
    array_references, dict_references, references, EntryView, ObjectId, ObjectView,
};
use crate::pdf::page_tree::{assembled, catalog_node, kids, pages_node, with_parent};
use crate::pdf::utils::{
    copied, dropped, dropped_all, dropped_entries, dropped_items, is_new, lemma_rewritten_entries,
    lemma_rewritten_items, new_id, rewritten, rewritten_entries, rewritten_items,
};
use vstd::prelude::*;

verus! {

/// Whether every reference in `obj` is to an object of the graph.
pub open spec fn resolves(objects: Graph, obj: ObjectView) -> bool {
    forall|r: ObjectId| #[trigger] references(obj).contains(r) ==> objects.contains_key(r)
}

/// Whether the document refers to nothing that it does not hold: every
/// reference in every object, the root, and every page is an object of the
/// document.
pub open spec fn intact(doc: DocumentView) -> bool {
    &&& forall|id: ObjectId| #[trigger]
        doc.objects.contains_key(id) ==> resolves(doc.objects, doc.objects[id])
    &&& (doc.root matches Some(c) ==> doc.objects.contains_key(c))
    &&& forall|i: int| 0 <= i < doc.pages.len() ==> doc.objects.contains_key(#[trigger] doc.pages[i])
}

/// What is in one of two sequences is in both put together, and nothing
/// else is.
pub proof fn lemma_concat_contains(a: Seq<ObjectId>, b: Seq<ObjectId>, r: ObjectId)
    ensures
        (a + b).contains(r) <==> a.contains(r) || b.contains(r),
{
    if a.contains(r) {
        let i = choose|i: int| 0 <= i < a.len() && a[i] == r;
        assert((a + b)[i] == r);
    }
    if b.contains(r) {
        let i = choose|i: int| 0 <= i < b.len() && b[i] == r;
        assert((a + b)[a.len() + i] == r);
    }
    if (a + b).contains(r) {
        let i = choose|i: int| 0 <= i < (a + b).len() && (a + b)[i] == r;
        if i < a.len() {
            assert(a[i] == r);
        } else {
            assert(b[i - a.len()] == r);
        }
    }
}

/// An array refers to what its items refer to.
pub proof fn lemma_array_references(items: Seq<ObjectView>, n: nat, r: ObjectId)
    requires
        n <= items.len(),
    ensures
        array_references(items, n).contains(r) <==> exists|k: int|
            0 <= k < n && references(#[trigger] items[k]).contains(r),
    decreases n,
{
    if n > 0 {
        lemma_array_references(items, (n - 1) as nat, r);
        lemma_concat_contains(
            array_references(items, (n - 1) as nat),
            references(items[n - 1]),
            r,
        );
        assert(array_references(items, n) == array_references(items, (n - 1) as nat) + references(
            items[n - 1],
        ));
        if array_references(items, (n - 1) as nat).contains(r) {
            let k = choose|k: int| 0 <= k < n - 1 && references(#[trigger] items[k]).contains(r);
            assert(0 <= k < n && references(items[k]).contains(r));
        }
        if exists|k: int| 0 <= k < n && references(#[trigger] items[k]).contains(r) {
            let k = choose|k: int| 0 <= k < n && references(#[trigger] items[k]).contains(r);
            if k < n - 1 {
                assert(array_references(items, (n - 1) as nat).contains(r));
            }
        }
    } else {
        assert(array_references(items, 0) == Seq::<ObjectId>::empty());
    }
}

/// A dictionary refers to what its values refer to.
pub proof fn lemma_dict_references(entries: Seq<EntryView>, n: nat, r: ObjectId)
    requires
        n <= entries.len(),
    ensures
        dict_references(entries, n).contains(r) <==> exists|k: int|
            0 <= k < n && references((#[trigger] entries[k]).value).contains(r),
    decreases n,
{
    if n > 0 {
        lemma_dict_references(entries, (n - 1) as nat, r);
        lemma_concat_contains(
            dict_references(entries, (n - 1) as nat),
            references(entries[n - 1].value),
            r,
        );
        assert(dict_references(entries, n) == dict_references(entries, (n - 1) as nat)
            + references(entries[n - 1].value));
        if dict_references(entries, (n - 1) as nat).contains(r) {
            let k = choose|k: int|
                0 <= k < n - 1 && references((#[trigger] entries[k]).value).contains(r);
            assert(0 <= k < n && references(entries[k].value).contains(r));
        }
        if exists|k: int| 0 <= k < n && references((#[trigger] entries[k]).value).contains(r) {
            let k = choose|k: int|
                0 <= k < n && references((#[trigger] entries[k]).value).contains(r);
            if k < n - 1 {
                assert(dict_references(entries, (n - 1) as nat).contains(r));
            }
        }
    } else {
        assert(dict_references(entries, 0) == Seq::<ObjectId>::empty());
    }
}

/// A rewritten object refers to copies only.
pub proof fn lemma_rewritten_references(
    obj: ObjectView,
    order: Seq<ObjectId>,
    base: nat,
    r: ObjectId,
)
    requires
        references(rewritten(obj, order, base)).contains(r),
    ensures
        exists|k: int| 0 <= k < order.len() && r == #[trigger] new_id(base, k),
    decreases obj,
{
    match obj {
        ObjectView::Reference(x) => {
            if order.contains(x) {
                let k = order.index_of(x);
                assert(rewritten(obj, order, base) == ObjectView::Reference(new_id(base, k)));
                assert(references(rewritten(obj, order, base)) == seq![new_id(base, k)]);
                assert(r == new_id(base, k));
            } else {
                assert(rewritten(obj, order, base) == ObjectView::Null);
                assert(references(ObjectView::Null) == Seq::<ObjectId>::empty());
            }
        },
        ObjectView::Array(items) => {
            let copies = rewritten_items(items, order, base, items.len());
            assert(rewritten(obj, order, base) == ObjectView::Array(copies));
            lemma_rewritten_items(items, order, base, items.len());
            assert(references(ObjectView::Array(copies)) == array_references(copies, copies.len()));
            lemma_array_references(copies, copies.len(), r);
            let k = choose|k: int|
                0 <= k < copies.len() && references(#[trigger] copies[k]).contains(r);
            assert(copies[k] == rewritten(items[k], order, base));
            lemma_rewritten_references(items[k], order, base, r);
        },
        ObjectView::Dictionary(entries) => {
            let copies = rewritten_entries(entries, order, base, entries.len());
            assert(rewritten(obj, order, base) == ObjectView::Dictionary(copies));
            lemma_rewritten_entries(entries, order, base, entries.len());
            assert(references(ObjectView::Dictionary(copies)) == dict_references(
                copies,
                copies.len(),
            ));
            lemma_dict_references(copies, copies.len(), r);
            let k = choose|k: int|
                0 <= k < copies.len() && references((#[trigger] copies[k]).value).contains(r);
            assert(copies[k].value == rewritten(entries[k].value, order, base));
            lemma_rewritten_references(entries[k].value, order, base, r);
        },
        ObjectView::Stream(s) => {
            let copies = rewritten_entries(s.dict, order, base, s.dict.len());
            lemma_rewritten_entries(s.dict, order, base, s.dict.len());
            let out = rewritten(obj, order, base);
            assert(out matches ObjectView::Stream(t) && t.dict == copies);
            assert(references(out) == dict_references(copies, copies.len()));
            lemma_dict_references(copies, copies.len(), r);
            let k = choose|k: int|
                0 <= k < copies.len() && references((#[trigger] copies[k]).value).contains(r);
            assert(copies[k].value == rewritten(s.dict[k].value, order, base));
            lemma_rewritten_references(s.dict[k].value, order, base, r);
        },
        _ => {
            assert(rewritten(obj, order, base) == obj);
            assert(references(obj) == Seq::<ObjectId>::empty());
        },
    }
}

/// What an object drops is what it refers to outside the objects copied.
pub proof fn lemma_dropped(obj: ObjectView, order: Seq<ObjectId>, r: ObjectId)
    ensures
        dropped(obj, order).contains(r) <==> references(obj).contains(r) && !order.contains(r),
    decreases obj, 1nat,
{
    match obj {
        ObjectView::Reference(x) => {
            assert(references(obj) == seq![x]);
            assert(seq![x][0] == x);
            if order.contains(x) {
                assert(dropped(obj, order) == Seq::<ObjectId>::empty());
            } else {
                assert(dropped(obj, order) == seq![x]);
            }
        },
        ObjectView::Array(items) => {
            assert(references(obj) == array_references(items, items.len()));
            assert(dropped(obj, order) == dropped_items(items, order, items.len()));
            lemma_dropped_items(items, order, items.len(), r);
        },
        ObjectView::Dictionary(entries) => {
            assert(references(obj) == dict_references(entries, entries.len()));
            assert(dropped(obj, order) == dropped_entries(entries, order, entries.len()));
            lemma_dropped_entries(entries, order, entries.len(), r);
        },
        ObjectView::Stream(s) => {
            assert(references(obj) == dict_references(s.dict, s.dict.len()));
            assert(dropped(obj, order) == dropped_entries(s.dict, order, s.dict.len()));
            lemma_dropped_entries(s.dict, order, s.dict.len(), r);
        },
        _ => {
            assert(references(obj) == Seq::<ObjectId>::empty());
            assert(dropped(obj, order) == Seq::<ObjectId>::empty());
        },
    }
}

/// What items drop is what they refer to outside the objects copied.
pub proof fn lemma_dropped_items(items: Seq<ObjectView>, order: Seq<ObjectId>, n: nat, r: ObjectId)
    requires
        n <= items.len(),
    ensures
        dropped_items(items, order, n).contains(r) <==> array_references(items, n).contains(r)
            && !order.contains(r),
    decreases items, n,
{
    if n > 0 {
        lemma_dropped_items(items, order, (n - 1) as nat, r);
        lemma_dropped(items[n - 1], order, r);
        assert(dropped_items(items, order, n) == dropped_items(items, order, (n - 1) as nat)
            + dropped(items[n - 1], order));
        assert(array_references(items, n) == array_references(items, (n - 1) as nat) + references(
            items[n - 1],
        ));
        lemma_concat_contains(
            dropped_items(items, order, (n - 1) as nat),
            dropped(items[n - 1], order),
            r,
        );
        lemma_concat_contains(
            array_references(items, (n - 1) as nat),
            references(items[n - 1]),
            r,
        );
    } else {
        assert(dropped_items(items, order, 0) == Seq::<ObjectId>::empty());
        assert(array_references(items, 0) == Seq::<ObjectId>::empty());
    }
}

/// What entries drop is what their values refer to outside the objects
/// copied.
pub proof fn lemma_dropped_entries(
    entries: Seq<EntryView>,
    order: Seq<ObjectId>,
    n: nat,
    r: ObjectId,
)
    requires
        n <= entries.len(),
    ensures
        dropped_entries(entries, order, n).contains(r) <==> dict_references(entries, n).contains(r)
            && !order.contains(r),
    decreases entries, n,
{
    if n > 0 {
        lemma_dropped_entries(entries, order, (n - 1) as nat, r);
        lemma_dropped(entries[n - 1].value, order, r);
        assert(dropped_entries(entries, order, n) == dropped_entries(
            entries,
            order,
            (n - 1) as nat,
        ) + dropped(entries[n - 1].value, order));
        assert(dict_references(entries, n) == dict_references(entries, (n - 1) as nat)
            + references(entries[n - 1].value));
        lemma_concat_contains(
            dropped_entries(entries, order, (n - 1) as nat),
            dropped(entries[n - 1].value, order),
            r,
        );
        lemma_concat_contains(
            dict_references(entries, (n - 1) as nat),
            references(entries[n - 1].value),
            r,
        );
    } else {
        assert(dropped_entries(entries, order, 0) == Seq::<ObjectId>::empty());
        assert(dict_references(entries, 0) == Seq::<ObjectId>::empty());
    }
}

/// A copy loses no reference that its source can resolve: the references
/// that are replaced by null, and noted, are those to ids under which the
/// source has no object.
pub proof fn lemma_only_stale_dropped(g: Graph, root: ObjectId, n: nat, r: ObjectId)
    requires
        g.dom().finite(),
        g.contains_key(root),
        n <= closure(g, root).len(),
        dropped_all(g, closure(g, root), n).contains(r),
    ensures
        !g.contains_key(r),
    decreases n,
{
    let order = closure(g, root);
    lemma_closure(g, root);
    if n > 0 {
        let earlier = dropped_all(g, order, (n - 1) as nat);
        let last = dropped(g[order[n - 1]], order);
        assert(dropped_all(g, order, n) == earlier + last);
        lemma_concat_contains(earlier, last, r);
        if earlier.contains(r) {
            lemma_only_stale_dropped(g, root, (n - 1) as nat, r);
        } else {
            lemma_dropped(g[order[n - 1]], order, r);
            if g.contains_key(r) {
                assert(g.contains_key(order[n - 1]));
                assert(refers(g, order[n - 1], r));
            }
        }
    } else {
        assert(dropped_all(g, order, 0) == Seq::<ObjectId>::empty());
    }
}

/// Copying a page into an intact document leaves the document intact: the
/// copies refer to copies only, whatever the source refers to.
pub proof fn lemma_copied_intact(target: DocumentView, source: Graph, page: ObjectId)
    requires
        target.wf(),
        intact(target),
        source.dom().finite(),
        source.contains_key(page),
        copied(target, source, page).max_id <= u32::MAX,
    ensures
        intact(copied(target, source, page)),
{
    lemma_copied(target, source, page);
    lemma_closure(source, page);
    let order = closure(source, page);
    let base = target.max_id;
    let after = copied(target, source, page);
    assert forall|id: ObjectId| #[trigger] after.objects.contains_key(id) implies resolves(
        after.objects,
        after.objects[id],
    ) by {
        assert forall|r: ObjectId| #[trigger]
            references(after.objects[id]).contains(r) implies after.objects.contains_key(r) by {
            if is_new(id, base, order.len()) {
                let from = source[order[id.number - base - 1]];
                lemma_rewritten_references(from, order, base, r);
                let k = choose|k: int| 0 <= k < order.len() && r == #[trigger] new_id(base, k);
                assert(is_new(r, base, order.len()));
            } else {
                assert(target.objects.contains_key(id));
                assert(resolves(target.objects, target.objects[id]));
                assert(target.objects.contains_key(r));
            }
        }
    }
    assert forall|i: int| 0 <= i < after.pages.len() implies after.objects.contains_key(
        #[trigger] after.pages[i],
    ) by {
        assert(target.objects.contains_key(target.pages[i]));
    }
}

/// Copying pages one after the other into an intact document leaves the
/// document intact.
pub proof fn lemma_copied_pages_intact(
    target: DocumentView,
    source: Graph,
    pages: Seq<ObjectId>,
    n: nat,
)
    requires
        target.wf(),
        intact(target),
        source.dom().finite(),
        n <= pages.len(),
        forall|i: int| 0 <= i < pages.len() ==> source.contains_key(#[trigger] pages[i]),
        copied_pages(target, source, pages, n).max_id <= u32::MAX,
    ensures
        intact(copied_pages(target, source, pages, n)),
    decreases n,
{
    if n > 0 {
        let before = copied_pages(target, source, pages, (n - 1) as nat);
        lemma_pages_monotonic(target, source, pages, (n - 1) as nat, n);
        lemma_copied_pages_intact(target, source, pages, (n - 1) as nat);
        lemma_copied_pages(target, source, pages, (n - 1) as nat);
        assert(source.contains_key(pages[n - 1]));
        lemma_copied_intact(before, source, pages[n - 1]);
    }
}

/// An object that is marked as a child refers to its parent and to what
/// it referred to before, and to nothing else.
pub proof fn lemma_with_parent_references(obj: ObjectView, parent: ObjectId, r: ObjectId)
    requires
        references(with_parent(obj, parent)).contains(r),
    ensures
        r == parent || references(obj).contains(r),
{
    match obj {
        ObjectView::Dictionary(entries) => {
            let key = ascii("Parent"@);
            let value = ObjectView::Reference(parent);
            let after = dict_set(entries, key, value);
            assert(references(with_parent(obj, parent)) == dict_references(after, after.len()));
            assert(references(obj) == dict_references(entries, entries.len()));
            lemma_dict_references(after, after.len(), r);
            lemma_dict_references(entries, entries.len(), r);
            lemma_key_position(entries, key, 0);
            let k = choose|k: int|
                0 <= k < after.len() && references((#[trigger] after[k]).value).contains(r);
            if after[k].value == value {
                assert(references(value) == seq![parent]);
            } else {
                assert(after[k] == entries[k]);
            }
        },
        _ => {},
    }
}

/// The page tree keeps an intact document intact and well formed: the node
/// refers to the pages, the catalog to the node, and each page to the node
/// besides what it referred to before.
pub proof fn lemma_assembled_intact(target: DocumentView, pages: Seq<ObjectId>)
    requires
        target.wf(),
        intact(target),
        target.max_id + 2 <= u32::MAX,
        forall|i: int| 0 <= i < pages.len() ==> is_page(target.objects, #[trigger] pages[i]),
    ensures
        intact(assembled(target, pages)),
        assembled(target, pages).wf(),
{
    let pages_id = new_id(target.max_id, 0);
    let catalog_id = new_id(target.max_id, 1);
    let after = assembled(target, pages);
    assert(after.objects.dom() =~= target.objects.dom().insert(pages_id).insert(catalog_id));
    assert forall|i: int| 0 <= i < after.pages.len() implies is_page(
        after.objects,
        #[trigger] after.pages[i],
    ) by {
        assert(is_page(target.objects, pages[i]));
        assert(pages.contains(pages[i]));
    }
    assert forall|id: ObjectId| #[trigger] after.objects.contains_key(id) implies resolves(
        after.objects,
        after.objects[id],
    ) by {
        assert forall|r: ObjectId| #[trigger]
            references(after.objects[id]).contains(r) implies after.objects.contains_key(r) by {
            if id == pages_id {
                lemma_pages_node_references(pages, r);
                let j = choose|j: int| 0 <= j < pages.len() && pages[j] == r;
                assert(is_page(target.objects, pages[j]));
            } else if id == catalog_id {
                lemma_catalog_node_references(pages_id, r);
            } else {
                assert(target.objects.contains_key(id));
                assert(resolves(target.objects, target.objects[id]));
                if pages.contains(id) {
                    lemma_with_parent_references(target.objects[id], pages_id, r);
                }
                if r != pages_id {
                    assert(target.objects.contains_key(r));
                }
            }
        }
    }
}

/// The node that lists the pages refers to the pages and to nothing else.
pub proof fn lemma_pages_node_references(pages: Seq<ObjectId>, r: ObjectId)
    requires
        references(pages_node(pages)).contains(r),
    ensures
        pages.contains(r),
{
    let entries = pages_node(pages)->Dictionary_0;
    assert(references(pages_node(pages)) == dict_references(entries, entries.len()));
    lemma_dict_references(entries, entries.len(), r);
    let k = choose|k: int|
        0 <= k < entries.len() && references((#[trigger] entries[k]).value).contains(r);
    if k == 0 {
        assert(references(entries[0].value) == Seq::<ObjectId>::empty());
    } else if k == 2 {
        assert(references(entries[2].value) == Seq::<ObjectId>::empty());
    } else {
        let list = kids(pages);
        assert(references(entries[1].value) == array_references(list, list.len()));
        lemma_array_references(list, list.len(), r);
        let j = choose|j: int| 0 <= j < list.len() && references(#[trigger] list[j]).contains(r);
        assert(list[j] == ObjectView::Reference(pages[j]));
        assert(references(list[j]) == seq![pages[j]]);
        assert(pages[j] == r);
    }
}

/// The catalog refers to the node that lists the pages and to nothing
/// else.
pub proof fn lemma_catalog_node_references(pages_id: ObjectId, r: ObjectId)
    requires
        references(catalog_node(pages_id)).contains(r),
    ensures
        r == pages_id,
{
    let entries = catalog_node(pages_id)->Dictionary_0;
    assert(references(catalog_node(pages_id)) == dict_references(entries, entries.len()));
    lemma_dict_references(entries, entries.len(), r);
    let k = choose|k: int|
        0 <= k < entries.len() && references((#[trigger] entries[k]).value).contains(r);
    if k == 0 {
        assert(references(entries[0].value) == Seq::<ObjectId>::empty());
    } else {
        assert(references(entries[1].value) == seq![pages_id]);
    }
}

/// What merging makes is intact and well formed, whatever the inputs
/// refer to: no reference in it, nor its root, nor a page of it lies
/// outside it.
pub proof fn lemma_merged_intact(docs: Seq<DocumentView>)
    requires
        forall|i: int| 0 <= i < docs.len() ==> (#[trigger] docs[i]).wf(),
        merged(docs).max_id <= u32::MAX,
    ensures
        intact(merged(docs)),
        merged(docs).wf(),
{
    lemma_merged_into_intact(docs, docs.len());
    lemma_merged_into(docs, docs.len());
    lemma_assembled_intact(merged_into(docs, docs.len()), merged_pages(docs, docs.len()));
}

/// Merging document by document keeps the target intact.
pub proof fn lemma_merged_into_intact(docs: Seq<DocumentView>, n: nat)
    requires
        n <= docs.len(),
        forall|i: int| 0 <= i < docs.len() ==> (#[trigger] docs[i]).wf(),
        merged_into(docs, n).max_id <= u32::MAX,
    ensures
        intact(merged_into(docs, n)),
    decreases n,
{
    if n > 0 {
        let d = docs[n - 1];
        assert(d.wf());
        lemma_merged_monotonic(docs, (n - 1) as nat, n);
        lemma_merged_into_intact(docs, (n - 1) as nat);
        lemma_merged_into(docs, (n - 1) as nat);
        lemma_copied_pages_intact(merged_into(docs, (n - 1) as nat), d.objects, d.pages, d.pages.len());
    }
}

/// The document made of some pages of a source is intact and well formed,
/// whatever the source refers to.
pub proof fn lemma_extracted_intact(source: DocumentView, keep: Seq<ObjectId>)
    requires
        source.wf(),
        forall|i: int| 0 <= i < keep.len() ==> is_page(source.objects, #[trigger] keep[i]),
        extracted(source, keep).max_id <= u32::MAX,
    ensures
        intact(extracted(source, keep)),
        extracted(source, keep).wf(),
        extracted(source, keep).pages.len() == keep.len(),
{
    let start = empty_document();
    assert(start.objects.dom() =~= Set::<ObjectId>::empty());
    lemma_copied_pages_intact(start, source.objects, keep, keep.len());
    lemma_copied_pages(start, source.objects, keep, keep.len());
    lemma_assembled_intact(
        copied_pages(start, source.objects, keep, keep.len()),
        copy_ids(start, source.objects, keep, keep.len()),
    );
}

} // verus!
