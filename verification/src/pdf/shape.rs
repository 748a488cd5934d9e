//! What a copy has in common with the object it was made from: everything
//! but the numbering of objects. This is stated through the shape of an
//! object, which is the object with every reference taken out.

use crate::pdf::delete::extracted;
use crate::pdf::dictionary::{ascii, dict_set, key_position, lemma_key_position};
use crate::pdf::document::DocumentView;
use crate::pdf::graph::{closure, lemma_closure, Graph};
use crate::pdf::merge::{
    copied_pages, copy_ids, empty_document, lemma_copied, lemma_copied_pages, lemma_merged_into,
    lemma_merged_monotonic, lemma_merged_size, lemma_pages_monotonic, merged, merged_into,
    merged_pages, total_pages,
};
use crate::pdf::object::{EntryView, ObjectId, ObjectView, StreamView};
use crate::pdf::page_tree::with_parent;
use crate::pdf::utils::{
    is_new, lemma_rewritten_entries, lemma_rewritten_items, new_id, rewritten, rewritten_entries,
    rewritten_items,
};
use vstd::prelude::*;

verus! {

/// `obj` with null in the place of every reference: what is left of an
/// object when the numbering of objects is set aside.
pub open spec fn shape(obj: ObjectView) -> ObjectView {
    rewritten(obj, Seq::empty(), 0)
}

/// The shape of a page that hangs in a page tree: the shape of the page
/// with its parent set. Which object the parent is makes no difference to
/// it; an object that is no dictionary has no parent to set.
pub open spec fn page_shape(page: ObjectView) -> ObjectView {
    shape(with_parent(page, ObjectId { number: 0, generation: 0 }))
}

/// A rewritten object has the shape of the object it was made from.
pub proof fn lemma_shape_rewritten(obj: ObjectView, order: Seq<ObjectId>, base: nat)
    ensures
        shape(rewritten(obj, order, base)) == shape(obj),
    decreases obj,
{
    let none = Seq::<ObjectId>::empty();
    match obj {
        ObjectView::Reference(x) => {
            assert(rewritten(obj, none, 0) == ObjectView::Null);
            if order.contains(x) {
                let y = new_id(base, order.index_of(x));
                assert(rewritten(obj, order, base) == ObjectView::Reference(y));
                assert(rewritten(ObjectView::Reference(y), none, 0) == ObjectView::Null);
            } else {
                assert(rewritten(obj, order, base) == ObjectView::Null);
                assert(rewritten(ObjectView::Null, none, 0) == ObjectView::Null);
            }
        },
        ObjectView::Array(items) => {
            let copies = rewritten_items(items, order, base, items.len());
            assert(rewritten(obj, order, base) == ObjectView::Array(copies));
            lemma_rewritten_items(items, order, base, items.len());
            lemma_rewritten_items(copies, none, 0, copies.len());
            lemma_rewritten_items(items, none, 0, items.len());
            let a = rewritten_items(copies, none, 0, copies.len());
            let b = rewritten_items(items, none, 0, items.len());
            assert(rewritten(ObjectView::Array(copies), none, 0) == ObjectView::Array(a));
            assert(rewritten(obj, none, 0) == ObjectView::Array(b));
            assert forall|k: int| 0 <= k < a.len() implies a[k] == b[k] by {
                assert(copies[k] == rewritten(items[k], order, base));
                lemma_shape_rewritten(items[k], order, base);
            }
            assert(a =~= b);
        },
        ObjectView::Dictionary(entries) => {
            let copies = rewritten_entries(entries, order, base, entries.len());
            assert(rewritten(obj, order, base) == ObjectView::Dictionary(copies));
            lemma_shape_entries(entries, order, base);
            assert(rewritten(ObjectView::Dictionary(copies), none, 0) == ObjectView::Dictionary(
                rewritten_entries(copies, none, 0, copies.len()),
            ));
            assert(rewritten(obj, none, 0) == ObjectView::Dictionary(
                rewritten_entries(entries, none, 0, entries.len()),
            ));
        },
        ObjectView::Stream(s) => {
            let copies = rewritten_entries(s.dict, order, base, s.dict.len());
            let t = StreamView { dict: copies, ..s };
            assert(rewritten(obj, order, base) == ObjectView::Stream(t));
            lemma_shape_entries(s.dict, order, base);
            assert(rewritten(ObjectView::Stream(t), none, 0) == ObjectView::Stream(
                StreamView { dict: rewritten_entries(copies, none, 0, copies.len()), ..t },
            ));
            assert(rewritten(obj, none, 0) == ObjectView::Stream(
                StreamView { dict: rewritten_entries(s.dict, none, 0, s.dict.len()), ..s },
            ));
        },
        _ => {
            assert(rewritten(obj, order, base) == obj);
        },
    }
}

/// Rewritten entries have the shapes of the entries they were made from.
pub proof fn lemma_shape_entries(entries: Seq<EntryView>, order: Seq<ObjectId>, base: nat)
    ensures
        rewritten_entries(
            rewritten_entries(entries, order, base, entries.len()),
            Seq::empty(),
            0,
            entries.len(),
        ) == rewritten_entries(entries, Seq::empty(), 0, entries.len()),
        rewritten_entries(entries, order, base, entries.len()).len() == entries.len(),
    decreases entries,
{
    let none = Seq::<ObjectId>::empty();
    let copies = rewritten_entries(entries, order, base, entries.len());
    lemma_rewritten_entries(entries, order, base, entries.len());
    lemma_rewritten_entries(copies, none, 0, copies.len());
    lemma_rewritten_entries(entries, none, 0, entries.len());
    let a = rewritten_entries(copies, none, 0, copies.len());
    let b = rewritten_entries(entries, none, 0, entries.len());
    assert forall|k: int| 0 <= k < a.len() implies a[k] == b[k] by {
        assert(copies[k].value == rewritten(entries[k].value, order, base));
        lemma_shape_rewritten(entries[k].value, order, base);
    }
    assert(a =~= b);
}

/// Taking the references out of entries does not move a key.
pub proof fn lemma_shape_keys(entries: Seq<EntryView>, key: Seq<u8>, from: int)
    requires
        0 <= from <= entries.len(),
    ensures
        key_position(rewritten_entries(entries, Seq::empty(), 0, entries.len()), key, from)
            == key_position(entries, key, from),
    decreases entries.len() - from,
{
    let none = Seq::<ObjectId>::empty();
    let shapes = rewritten_entries(entries, none, 0, entries.len());
    lemma_rewritten_entries(entries, none, 0, entries.len());
    if from < entries.len() {
        assert(shapes[from].key == entries[from].key);
        if entries[from].key != key {
            lemma_shape_keys(entries, key, from + 1);
        }
    }
}

/// The shape of a page in a page tree is given by the shape of the page:
/// whatever the parent is, and whatever the page refers to.
pub proof fn lemma_page_shape(a: ObjectView, b: ObjectView, parent: ObjectId)
    requires
        shape(a) == shape(b),
    ensures
        shape(with_parent(a, parent)) == page_shape(b),
{
    let none = Seq::<ObjectId>::empty();
    let zero = ObjectId { number: 0, generation: 0 };
    let key = ascii("Parent"@);
    match a {
        ObjectView::Dictionary(ea) => {
            assert(shape(a) == ObjectView::Dictionary(rewritten_entries(ea, none, 0, ea.len())));
            match b {
                ObjectView::Dictionary(eb) => {
                    assert(shape(b) == ObjectView::Dictionary(
                        rewritten_entries(eb, none, 0, eb.len()),
                    ));
                    lemma_shape_set(ea, key, parent);
                    lemma_shape_set(eb, key, zero);
                },
                ObjectView::Reference(x) => {
                    assert(shape(b) == ObjectView::Null);
                },
                ObjectView::Array(items) => {
                    assert(shape(b) is Array);
                },
                ObjectView::Stream(s) => {
                    assert(shape(b) is Stream);
                },
                _ => {
                    assert(shape(b) == b);
                },
            }
        },
        ObjectView::Reference(x) => {
            assert(shape(a) == ObjectView::Null);
            match b {
                ObjectView::Dictionary(eb) => {
                    assert(shape(b) is Dictionary);
                },
                _ => {},
            }
        },
        ObjectView::Array(items) => {
            assert(shape(a) is Array);
            match b {
                ObjectView::Dictionary(eb) => {
                    assert(shape(b) is Dictionary);
                },
                _ => {},
            }
        },
        ObjectView::Stream(s) => {
            assert(shape(a) is Stream);
            match b {
                ObjectView::Dictionary(eb) => {
                    assert(shape(b) is Dictionary);
                },
                _ => {},
            }
        },
        _ => {
            assert(shape(a) == a);
            match b {
                ObjectView::Dictionary(eb) => {
                    assert(shape(b) is Dictionary);
                },
                _ => {},
            }
        },
    }
}

/// The shape of entries with a parent set is the shape of the entries with
/// null set under the same key.
pub proof fn lemma_shape_set(entries: Seq<EntryView>, key: Seq<u8>, parent: ObjectId)
    ensures
        rewritten_entries(
            dict_set(entries, key, ObjectView::Reference(parent)),
            Seq::empty(),
            0,
            dict_set(entries, key, ObjectView::Reference(parent)).len(),
        ) == dict_set(
            rewritten_entries(entries, Seq::empty(), 0, entries.len()),
            key,
            ObjectView::Null,
        ),
{
    let none = Seq::<ObjectId>::empty();
    let value = ObjectView::Reference(parent);
    let after = dict_set(entries, key, value);
    let shapes = rewritten_entries(entries, none, 0, entries.len());
    lemma_rewritten_entries(entries, none, 0, entries.len());
    lemma_rewritten_entries(after, none, 0, after.len());
    lemma_shape_keys(entries, key, 0);
    lemma_key_position(entries, key, 0);
    let a = rewritten_entries(after, none, 0, after.len());
    let b = dict_set(shapes, key, ObjectView::Null);
    assert(rewritten(value, none, 0) == ObjectView::Null);
    assert(a.len() == b.len());
    assert forall|k: int| 0 <= k < a.len() implies a[k] == b[k] by {
        assert(a[k] == (EntryView { key: after[k].key, value: rewritten(after[k].value, none, 0) }));
        if k < entries.len() && k != key_position(entries, key, 0) {
            assert(after[k] == entries[k]);
            assert(b[k] == shapes[k]);
        }
    }
    assert(a =~= b);
}

/// Where the copy of a page stands, and what it is: the page rewritten
/// for the place that its closure took in the target.
pub proof fn lemma_page_copy(
    target: DocumentView,
    source: Graph,
    pages: Seq<ObjectId>,
    n: nat,
    k: int,
)
    requires
        target.wf(),
        source.dom().finite(),
        0 <= k < n <= pages.len(),
        forall|i: int| 0 <= i < pages.len() ==> source.contains_key(#[trigger] pages[i]),
        copied_pages(target, source, pages, n).max_id <= u32::MAX,
    ensures
        copied_pages(target, source, pages, n).objects.contains_key(
            copy_ids(target, source, pages, n)[k],
        ),
        copied_pages(target, source, pages, n).objects[copy_ids(target, source, pages, n)[k]]
            == rewritten(
            source[pages[k]],
            closure(source, pages[k]),
            copied_pages(target, source, pages, k as nat).max_id,
        ),
    decreases n,
{
    let before = copied_pages(target, source, pages, (n - 1) as nat);
    let after = copied_pages(target, source, pages, n);
    let page = pages[n - 1];
    assert(source.contains_key(page));
    lemma_pages_monotonic(target, source, pages, (n - 1) as nat, n);
    lemma_copied_pages(target, source, pages, (n - 1) as nat);
    lemma_copied(before, source, page);
    lemma_closure(source, page);
    if k == n - 1 {
        let order = closure(source, page);
        let id = new_id(before.max_id, 0);
        assert(copy_ids(target, source, pages, n)[k] == id);
        assert(is_new(id, before.max_id, order.len()));
        assert(order[id.number - before.max_id - 1] == page);
    } else {
        lemma_page_copy(target, source, pages, (n - 1) as nat, k);
        let id = copy_ids(target, source, pages, (n - 1) as nat)[k];
        assert(copy_ids(target, source, pages, n)[k] == id);
        assert(before.objects.contains_key(id));
    }
}

/// Where the page `j` of the document `i` stands after the first `n`
/// documents were merged, and that its copy has the shape of the page.
pub proof fn lemma_merged_page(docs: Seq<DocumentView>, n: nat, i: int, j: int)
    requires
        forall|x: int| 0 <= x < docs.len() ==> (#[trigger] docs[x]).wf(),
        0 <= i < n <= docs.len(),
        0 <= j < docs[i].pages.len(),
        merged_into(docs, n).max_id <= u32::MAX,
    ensures
        total_pages(docs, i as nat) + j < merged_pages(docs, n).len(),
        merged_into(docs, n).objects.contains_key(
            merged_pages(docs, n)[total_pages(docs, i as nat) + j],
        ),
        shape(
            merged_into(docs, n).objects[merged_pages(docs, n)[total_pages(docs, i as nat) + j]],
        ) == shape(docs[i].objects[docs[i].pages[j]]),
    decreases n,
{
    let before = merged_into(docs, (n - 1) as nat);
    let d = docs[n - 1];
    assert(d.wf());
    let earlier = merged_pages(docs, (n - 1) as nat);
    let added = copy_ids(before, d.objects, d.pages, d.pages.len());
    lemma_merged_monotonic(docs, (n - 1) as nat, n);
    lemma_merged_into(docs, (n - 1) as nat);
    lemma_merged_size(docs, (n - 1) as nat);
    lemma_merged_size(docs, n);
    lemma_copied_pages(before, d.objects, d.pages, d.pages.len());
    if i == n - 1 {
        lemma_page_copy(before, d.objects, d.pages, d.pages.len(), j);
        assert(merged_pages(docs, n)[earlier.len() + j] == added[j]);
        lemma_shape_rewritten(
            d.objects[d.pages[j]],
            closure(d.objects, d.pages[j]),
            copied_pages(before, d.objects, d.pages, j as nat).max_id,
        );
    } else {
        lemma_merged_page(docs, (n - 1) as nat, i, j);
        lemma_total_pages_grows(docs, (i + 1) as nat, (n - 1) as nat);
        let at = total_pages(docs, i as nat) + j;
        assert(at < earlier.len());
        assert(merged_pages(docs, n)[at] == earlier[at]);
        assert(before.objects.contains_key(earlier[at]));
    }
}

/// More documents have no fewer pages.
pub proof fn lemma_total_pages_grows(docs: Seq<DocumentView>, m: nat, n: nat)
    requires
        m <= n <= docs.len(),
    ensures
        total_pages(docs, m) <= total_pages(docs, n),
    decreases n,
{
    if m < n {
        lemma_total_pages_grows(docs, m, (n - 1) as nat);
    }
}

/// The pages of a merged document: as many as the inputs have together,
/// and the page `j` of the input `i` stands after all pages of the inputs
/// before it and after the pages before it in its own document. Its copy
/// is the page hung into the new page tree, and differs from that in the
/// numbering of objects only.
pub proof fn lemma_merged_pages(docs: Seq<DocumentView>, i: int, j: int)
    requires
        forall|x: int| 0 <= x < docs.len() ==> (#[trigger] docs[x]).wf(),
        0 <= i < docs.len(),
        0 <= j < docs[i].pages.len(),
        merged(docs).max_id <= u32::MAX,
    ensures
        merged(docs).pages.len() == total_pages(docs, docs.len()),
        total_pages(docs, i as nat) + j < merged(docs).pages.len(),
        merged(docs).objects.contains_key(merged(docs).pages[total_pages(docs, i as nat) + j]),
        shape(merged(docs).objects[merged(docs).pages[total_pages(docs, i as nat) + j]])
            == page_shape(docs[i].objects[docs[i].pages[j]]),
{
    let n = docs.len();
    let target = merged_into(docs, n);
    let pages = merged_pages(docs, n);
    lemma_merged_size(docs, n);
    lemma_merged_into(docs, n);
    lemma_merged_page(docs, n, i, j);
    let at = total_pages(docs, i as nat) + j;
    let id = pages[at];
    let pages_id = new_id(target.max_id, 0);
    let catalog_id = new_id(target.max_id, 1);
    assert(target.objects.contains_key(id));
    assert(id != pages_id && id != catalog_id);
    assert(pages.contains(id));
    assert(merged(docs).objects[id] == with_parent(target.objects[id], pages_id));
    lemma_page_shape(target.objects[id], docs[i].objects[docs[i].pages[j]], pages_id);
}

/// The pages of a document made of some pages of a source: as many as
/// were taken, in the order in which they were taken, and each is the page
/// taken, hung into the new page tree; it differs from that page in the
/// numbering of objects only.
pub proof fn lemma_extracted_page(source: DocumentView, keep: Seq<ObjectId>, k: int)
    requires
        source.wf(),
        forall|i: int| 0 <= i < keep.len() ==> source.objects.contains_key(#[trigger] keep[i]),
        0 <= k < keep.len(),
        extracted(source, keep).max_id <= u32::MAX,
    ensures
        extracted(source, keep).pages.len() == keep.len(),
        extracted(source, keep).objects.contains_key(extracted(source, keep).pages[k]),
        shape(extracted(source, keep).objects[extracted(source, keep).pages[k]]) == page_shape(
            source.objects[keep[k]],
        ),
{
    let start = empty_document();
    assert(start.objects.dom() =~= Set::<ObjectId>::empty());
    let target = copied_pages(start, source.objects, keep, keep.len());
    let pages = copy_ids(start, source.objects, keep, keep.len());
    lemma_copied_pages(start, source.objects, keep, keep.len());
    lemma_page_copy(start, source.objects, keep, keep.len(), k);
    let id = pages[k];
    let pages_id = new_id(target.max_id, 0);
    let catalog_id = new_id(target.max_id, 1);
    assert(target.objects.contains_key(id));
    assert(id != pages_id && id != catalog_id);
    assert(pages.contains(id));
    assert(extracted(source, keep).objects[id] == with_parent(target.objects[id], pages_id));
    lemma_shape_rewritten(
        source.objects[keep[k]],
        closure(source.objects, keep[k]),
        copied_pages(start, source.objects, keep, k as nat).max_id,
    );
    lemma_page_shape(target.objects[id], source.objects[keep[k]], pages_id);
}

/// The two documents in a row.
pub open spec fn both(a: DocumentView, b: DocumentView) -> Seq<DocumentView> {
    seq![a, b]
}

/// Merging two documents yields as many pages as both have together: the
/// pages of the first in their order, then the pages of the second in
/// theirs.
pub proof fn lemma_merge_two(a: DocumentView, b: DocumentView)
    requires
        a.wf(),
        b.wf(),
        merged(both(a, b)).max_id <= u32::MAX,
    ensures
        merged(both(a, b)).pages.len() == a.pages.len() + b.pages.len(),
        forall|j: int|
            0 <= j < a.pages.len() ==> shape(
                merged(both(a, b)).objects[#[trigger] merged(both(a, b)).pages[j]],
            ) == page_shape(a.objects[a.pages[j]]),
        forall|j: int|
            0 <= j < b.pages.len() ==> shape(
                merged(both(a, b)).objects[#[trigger] merged(both(a, b)).pages[a.pages.len() + j]],
            ) == page_shape(b.objects[b.pages[j]]),
{
    let docs = both(a, b);
    assert(docs[0] == a && docs[1] == b);
    lemma_merged_size(docs, 2);
    assert(total_pages(docs, 0) == 0);
    assert(total_pages(docs, 1) == a.pages.len());
    assert(total_pages(docs, 2) == a.pages.len() + b.pages.len());
    assert forall|j: int| 0 <= j < a.pages.len() implies shape(
        merged(docs).objects[#[trigger] merged(docs).pages[j]],
    ) == page_shape(a.objects[a.pages[j]]) by {
        lemma_merged_pages(docs, 0, j);
    }
    assert forall|j: int| 0 <= j < b.pages.len() implies shape(
        merged(docs).objects[#[trigger] merged(docs).pages[a.pages.len() + j]],
    ) == page_shape(b.objects[b.pages[j]]) by {
        lemma_merged_pages(docs, 1, j);
    }
}

/// Merging no documents yields a document without pages.
pub proof fn lemma_merge_none()
    ensures
        merged(Seq::<DocumentView>::empty()).pages.len() == 0,
        merged(Seq::<DocumentView>::empty()).max_id == 2,
{
}

/// The document `d`, `n` times in a row.
pub open spec fn repeated(d: DocumentView, n: nat) -> Seq<DocumentView> {
    Seq::new(n, |i: int| d)
}

/// Merging a document with itself `n` times yields `n` times its pages,
/// and each copy of a page has the shape of that page in a page tree.
pub proof fn lemma_merge_repeated(d: DocumentView, n: nat)
    requires
        d.wf(),
        merged(repeated(d, n)).max_id <= u32::MAX,
    ensures
        merged(repeated(d, n)).pages.len() == n * d.pages.len(),
        forall|c: int, j: int|
            0 <= c < n && 0 <= j < d.pages.len() ==> c * d.pages.len() + j < n * d.pages.len()
                && shape(
                merged(repeated(d, n)).objects[#[trigger] merged(repeated(d, n)).pages[c
                    * d.pages.len() + j]],
            ) == page_shape(d.objects[d.pages[j]]),
{
    let docs = repeated(d, n);
    lemma_merged_size(docs, n);
    lemma_total_repeated(d, n, n);
    assert forall|c: int, j: int| 0 <= c < n && 0 <= j < d.pages.len() implies c * d.pages.len()
        + j < n * d.pages.len() && shape(
        merged(docs).objects[#[trigger] merged(docs).pages[c * d.pages.len() + j]],
    ) == page_shape(d.objects[d.pages[j]]) by {
        lemma_total_repeated(d, n, c as nat);
        assert(docs[c] == d);
        lemma_merged_pages(docs, c, j);
    }
}

/// The first `m` of `n` copies of a document have `m` times its pages.
pub proof fn lemma_total_repeated(d: DocumentView, n: nat, m: nat)
    requires
        m <= n,
    ensures
        total_pages(repeated(d, n), m) == m * d.pages.len(),
    decreases m,
{
    if m > 0 {
        lemma_total_repeated(d, n, (m - 1) as nat);
        assert(repeated(d, n)[m - 1] == d);
        assert(m * d.pages.len() == (m - 1) * d.pages.len() + d.pages.len()) by (nonlinear_arith);
    } else {
        assert(0 * d.pages.len() == 0);
    }
}

} // verus!
