//! The page tree of a finished document: one node that lists every page,
//! and the catalog that leads to it.

use crate::pdf::dictionary::{
    ascii, dict_get, dict_set, key_position, lemma_get_after_set, lemma_set_twice, name_bytes,
};
use crate::pdf::document::{is_page, lemma_place, lemma_replace, Document, DocumentView};
use crate::pdf::error::PdfError;
use crate::pdf::integrity::{intact, lemma_assembled_intact};
use crate::pdf::object::{
    entries_view, items_view, lemma_entries_view, lemma_items_view, Dictionary, Entry, EntryView,
    Object, ObjectId, ObjectView,
};
use crate::pdf::utils::new_id;
use vstd::prelude::*;

verus! {

/// `obj` with its `Parent` set to a reference to `parent`, if `obj` is a
/// dictionary; anything else stays as it is.
pub open spec fn with_parent(obj: ObjectView, parent: ObjectId) -> ObjectView {
    match obj {
        ObjectView::Dictionary(entries) => ObjectView::Dictionary(
            dict_set(entries, ascii("Parent"@), ObjectView::Reference(parent)),
        ),
        _ => obj,
    }
}

/// One reference for each page, in order.
pub open spec fn kids(pages: Seq<ObjectId>) -> Seq<ObjectView> {
    pages.map_values(|p: ObjectId| ObjectView::Reference(p))
}

/// The node that lists the pages: its kids are the pages in order, and its
/// count is their number.
pub open spec fn pages_node(pages: Seq<ObjectId>) -> ObjectView {
    ObjectView::Dictionary(
        seq![
            EntryView { key: ascii("Type"@), value: ObjectView::Name(ascii("Pages"@)) },
            EntryView { key: ascii("Kids"@), value: ObjectView::Array(kids(pages)) },
            EntryView { key: ascii("Count"@), value: ObjectView::Integer(pages.len() as i64) },
        ],
    )
}

/// The catalog: it leads to the node that lists the pages.
pub open spec fn catalog_node(pages_id: ObjectId) -> ObjectView {
    ObjectView::Dictionary(
        seq![
            EntryView { key: ascii("Type"@), value: ObjectView::Name(ascii("Catalog"@)) },
            EntryView { key: ascii("Pages"@), value: ObjectView::Reference(pages_id) },
        ],
    )
}

/// The objects of a document after it got its page tree.
pub open spec fn assembled_objects(
    objects: Map<ObjectId, ObjectView>,
    pages: Seq<ObjectId>,
    pages_id: ObjectId,
    catalog_id: ObjectId,
) -> Map<ObjectId, ObjectView> {
    Map::new(
        |id: ObjectId| objects.contains_key(id) || id == pages_id || id == catalog_id,
        |id: ObjectId|
            if id == pages_id {
                pages_node(pages)
            } else if id == catalog_id {
                catalog_node(pages_id)
            } else if pages.contains(id) {
                with_parent(objects[id], pages_id)
            } else {
                objects[id]
            },
    )
}

/// The document after it got its page tree: a new node lists `pages`, each
/// of these pages names that node as its parent, a new catalog leads to
/// the node, and the trailer names the catalog as the root.
pub open spec fn assembled(target: DocumentView, pages: Seq<ObjectId>) -> DocumentView {
    let pages_id = new_id(target.max_id, 0);
    let catalog_id = new_id(target.max_id, 1);
    DocumentView {
        objects: assembled_objects(target.objects, pages, pages_id, catalog_id),
        max_id: target.max_id + 2,
        root: Some(catalog_id),
        pages,
        unresolved: target.unresolved,
    }
}

/// Makes the object under `page` name `parent` as its parent, where it is a
/// dictionary.
fn set_parent(target: &mut Document, page: ObjectId, parent: ObjectId)
    requires
        old(target).wf(),
        old(target)@.objects.contains_key(page),
    ensures
        final(target).wf(),
        final(target)@ == (DocumentView {
            objects: old(target)@.objects.insert(
                page,
                with_parent(old(target)@.objects[page], parent),
            ),
            ..old(target)@
        }),
{
    let found = target.find(page);
    let j = found.unwrap();
    let ghost before = target.slots@;
    proof {
        lemma_place(before, j as int);
    }
    let slot = &mut target.slots[j];
    match &mut slot.object {
        Object::Dictionary(d) => {
            d.set(name_bytes("Parent"), Object::Reference(parent));
        },
        _ => {},
    }
    proof {
        let after = target.slots@;
        assert(after == before.update(j as int, after[j as int]));
        lemma_replace(before, j as int, after[j as int]);
        assert(target@.objects.dom() =~= old(target)@.objects.dom());
    }
}

/// An object that is already marked as a child is not changed by being
/// marked again.
pub proof fn lemma_with_parent_twice(obj: ObjectView, parent: ObjectId)
    ensures
        with_parent(with_parent(obj, parent), parent) == with_parent(obj, parent),
{
    match obj {
        ObjectView::Dictionary(entries) => {
            lemma_set_twice(entries, ascii("Parent"@), ObjectView::Reference(parent));
        },
        _ => {},
    }
}

fn make_pages_node(page_objects: &Vec<ObjectId>) -> (node: Object)
    requires
        page_objects@.len() <= i64::MAX,
    ensures
        node@ == pages_node(page_objects@),
{
    let mut list: Vec<Object> = Vec::new();
    let mut i: usize = 0;
    while i < page_objects.len()
        invariant
            i <= page_objects@.len(),
            list@.len() == i,
            forall|k: int|
                0 <= k < i ==> (#[trigger] list@[k])@ == ObjectView::Reference(page_objects@[k]),
        decreases page_objects.len() - i,
    {
        let r = Object::Reference(page_objects[i]);
        assert(r@ == ObjectView::Reference(page_objects@[i as int]));
        list.push(r);
        i += 1;
    }
    proof {
        lemma_items_view(list@, list@.len());
        assert(items_view(list@, list@.len()) =~= kids(page_objects@));
    }
    let count = Object::Integer(page_objects.len() as i64);
    let kind = Object::Name(name_bytes("Pages"));
    let array = Object::Array(list);
    assert(count@ == ObjectView::Integer(page_objects@.len() as i64));
    assert(kind@ == ObjectView::Name(ascii("Pages"@)));
    assert(array@ == ObjectView::Array(kids(page_objects@)));
    let mut entries: Vec<Entry> = Vec::new();
    entries.push(Entry { key: name_bytes("Type"), value: kind });
    entries.push(Entry { key: name_bytes("Kids"), value: array });
    entries.push(Entry { key: name_bytes("Count"), value: count });
    let node = Object::Dictionary(Dictionary { entries });
    proof {
        lemma_entries_view(entries@, entries@.len());
        assert(node@ == ObjectView::Dictionary(entries_view(entries@, entries@.len())));
        assert(entries_view(entries@, entries@.len()) =~= pages_node(page_objects@)->Dictionary_0);
    }
    node
}

fn make_catalog_node(pages_id: ObjectId) -> (node: Object)
    ensures
        node@ == catalog_node(pages_id),
{
    let kind = Object::Name(name_bytes("Catalog"));
    let link = Object::Reference(pages_id);
    assert(kind@ == ObjectView::Name(ascii("Catalog"@)));
    assert(link@ == ObjectView::Reference(pages_id));
    let mut entries: Vec<Entry> = Vec::new();
    entries.push(Entry { key: name_bytes("Type"), value: kind });
    entries.push(Entry { key: name_bytes("Pages"), value: link });
    let node = Object::Dictionary(Dictionary { entries });
    proof {
        lemma_entries_view(entries@, entries@.len());
        assert(node@ == ObjectView::Dictionary(entries_view(entries@, entries@.len())));
        assert(entries_view(entries@, entries@.len()) =~= catalog_node(pages_id)->Dictionary_0);
    }
    node
}

/// A copy of `ids`.
pub fn copy_ids(ids: &Vec<ObjectId>) -> (r: Vec<ObjectId>)
    ensures
        r@ == ids@,
{
    let mut r: Vec<ObjectId> = Vec::new();
    let mut i: usize = 0;
    while i < ids.len()
        invariant
            i <= ids.len(),
            r@ == ids@.take(i as int),
        decreases ids.len() - i,
    {
        r.push(ids[i]);
        i += 1;
    }
    assert(ids@.take(ids@.len() as int) == ids@);
    r
}

/// The objects while the pages are being marked: the node is there, and
/// the first `n` of `pages` name it as their parent.
pub open spec fn marked_objects(
    objects: Map<ObjectId, ObjectView>,
    pages: Seq<ObjectId>,
    pages_id: ObjectId,
    n: int,
) -> Map<ObjectId, ObjectView> {
    Map::new(
        |id: ObjectId| objects.contains_key(id) || id == pages_id,
        |id: ObjectId|
            if id == pages_id {
                pages_node(pages)
            } else if pages.take(n).contains(id) {
                with_parent(objects[id], pages_id)
            } else {
                objects[id]
            },
    )
}

/// The keys of the page tree are different keys.
pub proof fn lemma_keys_differ()
    ensures
        ascii("Type"@) != ascii("Kids"@),
        ascii("Type"@) != ascii("Count"@),
        ascii("Kids"@) != ascii("Count"@),
        ascii("Type"@) != ascii("Pages"@),
{
    reveal_strlit("Type");
    reveal_strlit("Kids");
    reveal_strlit("Count");
    reveal_strlit("Pages");
    assert(ascii("Type"@)[0] == 84u8);
    assert(ascii("Kids"@)[0] == 75u8);
    assert(ascii("Count"@)[0] == 67u8);
    assert(ascii("Pages"@)[0] == 80u8);
}

/// What stands under `key` in the dictionary under `id`; nothing where
/// there is no such object, dictionary or key.
pub open spec fn entry_of(
    objects: Map<ObjectId, ObjectView>,
    id: ObjectId,
    key: Seq<u8>,
) -> Option<ObjectView> {
    if objects.contains_key(id) {
        match objects[id] {
            ObjectView::Dictionary(entries) => dict_get(entries, key),
            _ => None,
        }
    } else {
        None
    }
}

/// The node that lists the pages of a document: what the catalog, which
/// the trailer names as the root, refers to as its pages.
pub open spec fn pages_node_of(doc: DocumentView) -> Option<ObjectId> {
    match doc.root {
        Some(catalog) => match entry_of(doc.objects, catalog, ascii("Pages"@)) {
            Some(ObjectView::Reference(node)) => Some(node),
            _ => None,
        },
        None => None,
    }
}

/// Whether the document has a sound page tree: the root leads to a node
/// whose kids are the pages in order and whose count is their number, and
/// every page names that node as its parent.
pub open spec fn page_tree_sound(doc: DocumentView) -> bool {
    match pages_node_of(doc) {
        Some(node) => {
            &&& entry_of(doc.objects, node, ascii("Kids"@)) == Some(
                ObjectView::Array(kids(doc.pages)),
            )
            &&& kids(doc.pages).len() == doc.pages.len()
            &&& entry_of(doc.objects, node, ascii("Count"@)) == Some(
                ObjectView::Integer(doc.pages.len() as i64),
            )
            &&& forall|i: int|
                0 <= i < doc.pages.len() ==> entry_of(
                    doc.objects,
                    #[trigger] doc.pages[i],
                    ascii("Parent"@),
                ) == Some(ObjectView::Reference(node))
        },
        None => false,
    }
}

/// What the page tree of a document looks like once it is made: the root
/// is the catalog, the catalog leads to the node, the node lists the pages
/// as its kids and counts as many as it lists, and each page names the
/// node as its parent.
pub proof fn lemma_page_tree(target: DocumentView, pages: Seq<ObjectId>)
    requires
        target.wf(),
        target.max_id + 2 <= u32::MAX,
        pages.len() <= i64::MAX,
        forall|i: int| 0 <= i < pages.len() ==> is_page(target.objects, #[trigger] pages[i]),
    ensures
        ({
            let doc = assembled(target, pages);
            let pages_id = new_id(target.max_id, 0);
            let catalog_id = new_id(target.max_id, 1);
            &&& doc.root == Some(catalog_id)
            &&& doc.pages == pages
            &&& doc.objects[catalog_id] matches ObjectView::Dictionary(catalog) && dict_get(
                catalog,
                ascii("Pages"@),
            ) == Some(ObjectView::Reference(pages_id))
            &&& doc.objects[pages_id] matches ObjectView::Dictionary(node) && dict_get(
                node,
                ascii("Kids"@),
            ) == Some(ObjectView::Array(kids(pages))) && dict_get(node, ascii("Count"@)) == Some(
                ObjectView::Integer(kids(pages).len() as i64),
            )
            &&& forall|i: int|
                0 <= i < pages.len() ==> (doc.objects[#[trigger] pages[i]] matches ObjectView::Dictionary(
                    page,
                ) && dict_get(page, ascii("Parent"@)) == Some(ObjectView::Reference(pages_id)))
        }),
        page_tree_sound(assembled(target, pages)),
{
    let doc = assembled(target, pages);
    let pages_id = new_id(target.max_id, 0);
    let catalog_id = new_id(target.max_id, 1);
    lemma_keys_differ();
    let catalog = catalog_node(pages_id)->Dictionary_0;
    assert(key_position(catalog, ascii("Pages"@), 1) == 1);
    assert(key_position(catalog, ascii("Pages"@), 0) == 1);
    let node = pages_node(pages)->Dictionary_0;
    assert(key_position(node, ascii("Kids"@), 1) == 1);
    assert(key_position(node, ascii("Kids"@), 0) == 1);
    assert(key_position(node, ascii("Count"@), 2) == 2);
    assert(key_position(node, ascii("Count"@), 1) == 2);
    assert(key_position(node, ascii("Count"@), 0) == 2);
    assert forall|i: int| 0 <= i < pages.len() implies (doc.objects[#[trigger] pages[i]] matches ObjectView::Dictionary(
        page,
    ) && dict_get(page, ascii("Parent"@)) == Some(ObjectView::Reference(pages_id))) by {
        let id = pages[i];
        assert(is_page(target.objects, id));
        assert(id != pages_id && id != catalog_id);
        assert(pages.contains(id));
        match target.objects[id] {
            ObjectView::Dictionary(entries) => {
                lemma_get_after_set(entries, ascii("Parent"@), ObjectView::Reference(pages_id));
            },
            _ => {},
        }
    }
    assert(doc.objects.contains_key(catalog_id) && doc.objects.contains_key(pages_id));
    assert(doc.objects[catalog_id] == catalog_node(pages_id));
    assert(doc.objects[pages_id] == pages_node(pages));
    assert(entry_of(doc.objects, catalog_id, ascii("Pages"@)) == Some(
        ObjectView::Reference(pages_id),
    ));
    assert(pages_node_of(doc) == Some(pages_id));
    assert forall|i: int| 0 <= i < doc.pages.len() implies entry_of(
        doc.objects,
        #[trigger] doc.pages[i],
        ascii("Parent"@),
    ) == Some(ObjectView::Reference(pages_id)) by {
        assert(is_page(target.objects, pages[i]));
        assert(doc.objects[pages[i]] is Dictionary);
    }
}

/// Gives `target` its page tree: a new node that lists `page_objects`, each
/// of which then names the node as its parent, and a new catalog that the
/// trailer names as the root. The pages of the document are then
/// `page_objects`. It fails, and leaves the target as it is, where the
/// target has fewer than two object numbers left.
pub fn create_pages_structure(target: &mut Document, page_objects: &Vec<ObjectId>) -> (r: Result<
    (),
    PdfError,
>)
    requires
        old(target).wf(),
        page_objects@.len() <= i64::MAX,
        forall|i: int|
            0 <= i < page_objects@.len() ==> is_page(
                old(target)@.objects,
                #[trigger] page_objects@[i],
            ),
    ensures
        final(target).wf(),
        match r {
            Ok(_) => {
                &&& old(target)@.max_id + 2 <= u32::MAX
                &&& final(target)@ == assembled(old(target)@, page_objects@)
                &&& page_tree_sound(final(target)@)
                &&& intact(old(target)@) ==> intact(final(target)@)
            },
            Err(e) => {
                &&& old(target)@.max_id + 2 > u32::MAX
                &&& e == PdfError::ObjectIdOverflow
                &&& final(target)@ == old(target)@
            },
        },
{
    if target.max_id > u32::MAX - 2 {
        return Err(PdfError::ObjectIdOverflow);
    }
    let ghost start = target@;
    let ghost pages = page_objects@;
    let node = make_pages_node(page_objects);
    let added = target.add_object(node);
    let pages_id = added.unwrap();
    proof {
        assert(pages.take(0) =~= Seq::<ObjectId>::empty());
        assert(target@.objects =~= marked_objects(start.objects, pages, pages_id, 0));
    }
    let mut i: usize = 0;
    while i < page_objects.len()
        invariant
            target.wf(),
            start == old(target)@,
            start.wf(),
            pages == page_objects@,
            pages_id == new_id(start.max_id, 0),
            start.max_id + 2 <= u32::MAX,
            i <= pages.len(),
            forall|k: int| 0 <= k < pages.len() ==> is_page(start.objects, #[trigger] pages[k]),
            target@.objects == marked_objects(start.objects, pages, pages_id, i as int),
            target@.max_id == start.max_id + 1,
            target@.root == start.root,
            target@.pages == start.pages,
            target@.unresolved == start.unresolved,
        decreases page_objects.len() - i,
    {
        let page = page_objects[i];
        let ghost held = target@.objects;
        assert(is_page(start.objects, pages[i as int]));
        set_parent(target, page, pages_id);
        proof {
            lemma_with_parent_twice(start.objects[page], pages_id);
            let next = marked_objects(start.objects, pages, pages_id, i + 1);
            let done = pages.take(i as int);
            let more = pages.take(i + 1);
            assert(more =~= done.push(page));
            assert forall|id: ObjectId| more.contains(id) <==> (done.contains(id) || id
                == page) by {
                if done.contains(id) {
                    let x = choose|x: int| 0 <= x < done.len() && done[x] == id;
                    assert(more[x] == id);
                }
                if id == page {
                    assert(more[i as int] == id);
                }
                if more.contains(id) {
                    let x = choose|x: int| 0 <= x < more.len() && more[x] == id;
                    if x < i {
                        assert(done[x] == id);
                    }
                }
            }
            assert(page != pages_id);
            assert(target@.objects =~= next);
        }
        i += 1;
    }
    let catalog = make_catalog_node(pages_id);
    let ghost held = target@.objects;
    let added = target.add_object(catalog);
    let catalog_id = added.unwrap();
    target.root = Some(catalog_id);
    target.pages = copy_ids(page_objects);
    proof {
        assert(pages.take(pages.len() as int) == pages);
        assert(catalog_id == new_id(start.max_id, 1));
        assert(target@.objects =~= assembled_objects(start.objects, pages, pages_id, catalog_id));
        assert forall|k: int| 0 <= k < pages.len() implies is_page(
            target@.objects,
            #[trigger] pages[k],
        ) by {
            assert(is_page(start.objects, pages[k]));
            assert(pages.contains(pages[k]));
        }
        lemma_page_tree(start, pages);
        if intact(start) {
            lemma_assembled_intact(start, pages);
        }
    }
    Ok(())
}

} // verus!
