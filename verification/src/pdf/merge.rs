//! Merging documents: the pages of each input, in the order given, become
//! the pages of one new document.

use crate::pdf::document::{is_page, Document, DocumentView};
use crate::pdf::error::PdfError;
use crate::pdf::graph::{closure, lemma_closure, Graph};
use crate::pdf::integrity::{intact, lemma_merged_intact};
use crate::pdf::object::ObjectId;
use crate::pdf::page_tree::{assembled, create_pages_structure, page_tree_sound};
use crate::pdf::utils::{copied, copy_page_with_resources, is_new, new_id, rewritten};
use vstd::prelude::*;

verus! {

/// The document that has nothing in it.
pub open spec fn empty_document() -> DocumentView {
    DocumentView {
        objects: Map::empty(),
        max_id: 0,
        root: None,
        pages: Seq::empty(),
        unresolved: Seq::empty(),
    }
}

/// The target after the first `n` of `pages` were copied into it from
/// `source`, one after the other.
pub open spec fn copied_pages(
    target: DocumentView,
    source: Graph,
    pages: Seq<ObjectId>,
    n: nat,
) -> DocumentView
    decreases n,
{
    if 0 < n <= pages.len() {
        copied(copied_pages(target, source, pages, (n - 1) as nat), source, pages[n - 1])
    } else {
        target
    }
}

/// The ids under which the copies of the first `n` of `pages` stand in
/// the target.
pub open spec fn copy_ids(target: DocumentView, source: Graph, pages: Seq<ObjectId>, n: nat) -> Seq<
    ObjectId,
>
    decreases n,
{
    if 0 < n <= pages.len() {
        copy_ids(target, source, pages, (n - 1) as nat).push(
            new_id(copied_pages(target, source, pages, (n - 1) as nat).max_id, 0),
        )
    } else {
        Seq::empty()
    }
}

/// Whether `later` holds everything that `earlier` holds, unchanged, and
/// differs from it in objects and notes only.
pub open spec fn grown_from(later: DocumentView, earlier: DocumentView) -> bool {
    &&& later.max_id >= earlier.max_id
    &&& later.root == earlier.root
    &&& later.pages == earlier.pages
    &&& forall|id: ObjectId| #[trigger]
        earlier.objects.contains_key(id) ==> later.objects.contains_key(id) && later.objects[id]
            == earlier.objects[id]
}

/// A copy adds one object at least, and changes neither root nor pages.
pub proof fn lemma_copied_size(target: DocumentView, source: Graph, page: ObjectId)
    requires
        source.dom().finite(),
        source.contains_key(page),
    ensures
        copied(target, source, page).max_id >= target.max_id + 1,
        copied(target, source, page).root == target.root,
        copied(target, source, page).pages == target.pages,
{
    lemma_closure(source, page);
}

/// A copy adds to a well-formed target and leaves it well formed, where
/// its object numbers fit.
pub proof fn lemma_copied(target: DocumentView, source: Graph, page: ObjectId)
    requires
        target.wf(),
        source.dom().finite(),
        source.contains_key(page),
        copied(target, source, page).max_id <= u32::MAX,
    ensures
        grown_from(copied(target, source, page), target),
        copied(target, source, page).objects.contains_key(new_id(target.max_id, 0)),
        copied(target, source, page).objects[new_id(target.max_id, 0)] == rewritten(
            source[page],
            closure(source, page),
            target.max_id,
        ),
        source[page] is Dictionary ==> is_page(
            copied(target, source, page).objects,
            new_id(target.max_id, 0),
        ),
        copied(target, source, page).wf(),
{
    lemma_closure(source, page);
    let order = closure(source, page);
    let after = copied(target, source, page);
    let nid = new_id(target.max_id, 0);
    assert(is_new(nid, target.max_id, order.len()));
    assert(order[nid.number - target.max_id - 1] == page);
    assert forall|i: int| 0 <= i < after.pages.len() implies is_page(
        after.objects,
        #[trigger] after.pages[i],
    ) by {
        assert(is_page(target.objects, target.pages[i]));
    }
    let fresh = Set::new(|id: ObjectId| is_new(id, target.max_id, order.len()));
    assert(after.objects.dom() =~= target.objects.dom().union(fresh));
    assert(fresh.finite()) by {
        let lo: int = target.max_id as int + 1;
        let hi: int = target.max_id as int + order.len() as int + 1;
        vstd::set_lib::lemma_int_range(lo, hi);
        let range = vstd::set_lib::set_int_range(lo, hi);
        let ids = range.map(|n: int| ObjectId { number: n as u32, generation: 0 });
        range.lemma_map_finite(|n: int| ObjectId { number: n as u32, generation: 0 });
        assert(fresh =~= ids) by {
            assert forall|id: ObjectId| fresh.contains(id) implies ids.contains(id) by {
                assert(range.contains(id.number as int));
                assert(id == (ObjectId { number: (id.number as int) as u32, generation: 0 }));
            }
        }
    }
}

/// Copying more pages never lowers the bound on the object numbers.
pub proof fn lemma_pages_monotonic(
    target: DocumentView,
    source: Graph,
    pages: Seq<ObjectId>,
    m: nat,
    n: nat,
)
    requires
        m <= n <= pages.len(),
    ensures
        copied_pages(target, source, pages, m).max_id <= copied_pages(target, source, pages, n).max_id,
    decreases n,
{
    if m < n {
        lemma_pages_monotonic(target, source, pages, m, (n - 1) as nat);
    }
}

/// Copying pages adds one object at least for each page, gives one id for
/// each page, and changes neither root nor pages.
pub proof fn lemma_copied_pages_size(
    target: DocumentView,
    source: Graph,
    pages: Seq<ObjectId>,
    n: nat,
)
    requires
        source.dom().finite(),
        n <= pages.len(),
        forall|i: int| 0 <= i < pages.len() ==> source.contains_key(#[trigger] pages[i]),
    ensures
        copied_pages(target, source, pages, n).max_id >= target.max_id + n,
        copied_pages(target, source, pages, n).root == target.root,
        copied_pages(target, source, pages, n).pages == target.pages,
        copy_ids(target, source, pages, n).len() == n,
    decreases n,
{
    if n > 0 {
        lemma_copied_pages_size(target, source, pages, (n - 1) as nat);
        assert(source.contains_key(pages[n - 1]));
        lemma_copied_size(copied_pages(target, source, pages, (n - 1) as nat), source, pages[n - 1]);
    }
}

/// Copies of pages one after the other add to a well-formed target and
/// keep it well formed, where the object numbers fit; the copies of the
/// pages are then among its objects.
pub proof fn lemma_copied_pages(target: DocumentView, source: Graph, pages: Seq<ObjectId>, n: nat)
    requires
        target.wf(),
        source.dom().finite(),
        n <= pages.len(),
        forall|i: int| 0 <= i < pages.len() ==> source.contains_key(#[trigger] pages[i]),
        copied_pages(target, source, pages, n).max_id <= u32::MAX,
    ensures
        grown_from(copied_pages(target, source, pages, n), target),
        copied_pages(target, source, pages, n).wf(),
        copy_ids(target, source, pages, n).len() == n,
        forall|k: int|
            0 <= k < n ==> copied_pages(target, source, pages, n).objects.contains_key(
                #[trigger] copy_ids(target, source, pages, n)[k],
            ),
        forall|k: int|
            0 <= k < n && source[pages[k]] is Dictionary ==> is_page(
                copied_pages(target, source, pages, n).objects,
                #[trigger] copy_ids(target, source, pages, n)[k],
            ),
    decreases n,
{
    if n > 0 {
        let before = copied_pages(target, source, pages, (n - 1) as nat);
        let after = copied_pages(target, source, pages, n);
        assert(source.contains_key(pages[n - 1]));
        lemma_copied_size(before, source, pages[n - 1]);
        lemma_copied_pages(target, source, pages, (n - 1) as nat);
        lemma_copied(before, source, pages[n - 1]);
        let ids = copy_ids(target, source, pages, n);
        let earlier = copy_ids(target, source, pages, (n - 1) as nat);
        assert forall|k: int| 0 <= k < n implies after.objects.contains_key(#[trigger] ids[k]) by {
            if k < n - 1 {
                assert(ids[k] == earlier[k]);
                assert(before.objects.contains_key(earlier[k]));
            }
        }
        assert forall|k: int| 0 <= k < n && source[pages[k]] is Dictionary implies is_page(
            after.objects,
            #[trigger] ids[k],
        ) by {
            if k < n - 1 {
                assert(ids[k] == earlier[k]);
                assert(is_page(before.objects, earlier[k]));
            }
        }
    }
}

/// How many of the first `n` of `pages` can be copied into the target
/// before it runs out of object numbers.
pub open spec fn fitting(target: DocumentView, source: Graph, pages: Seq<ObjectId>, n: nat) -> nat
    decreases n,
{
    if 0 < n <= pages.len() {
        if copied_pages(target, source, pages, n).max_id <= u32::MAX {
            n
        } else {
            fitting(target, source, pages, (n - 1) as nat)
        }
    } else {
        0
    }
}

/// Where the first `m` pages fit and one more does not, `m` pages fit,
/// however many are tried.
pub proof fn lemma_fitting(
    target: DocumentView,
    source: Graph,
    pages: Seq<ObjectId>,
    m: nat,
    n: nat,
)
    requires
        m < n <= pages.len(),
        copied_pages(target, source, pages, m).max_id <= u32::MAX,
        copied_pages(target, source, pages, m + 1).max_id > u32::MAX,
    ensures
        fitting(target, source, pages, n) == m,
    decreases n,
{
    lemma_pages_monotonic(target, source, pages, m + 1, n);
    if n > m + 1 {
        lemma_fitting(target, source, pages, m, (n - 1) as nat);
    } else if m > 0 {
        assert(fitting(target, source, pages, m) == m);
    }
}

/// Copies `pages` of `source` into `target`, one after the other, and adds
/// the ids of the copies to `new_pages`. It fails where the target runs out
/// of object numbers, and leaves in the target the copies of the pages
/// that fitted.
pub fn copy_pages(
    source: &Document,
    pages: &Vec<ObjectId>,
    target: &mut Document,
    new_pages: &mut Vec<ObjectId>,
) -> (r: Result<(), PdfError>)
    requires
        source.wf(),
        old(target).wf(),
        forall|i: int| 0 <= i < pages@.len() ==> source@.objects.contains_key(#[trigger] pages@[i]),
    ensures
        final(target).wf(),
        match r {
            Ok(_) => {
                &&& copied_pages(old(target)@, source@.objects, pages@, pages@.len()).max_id
                    <= u32::MAX
                &&& final(target)@ == copied_pages(
                    old(target)@,
                    source@.objects,
                    pages@,
                    pages@.len(),
                )
                &&& final(new_pages)@ == old(new_pages)@ + copy_ids(
                    old(target)@,
                    source@.objects,
                    pages@,
                    pages@.len(),
                )
            },
            Err(e) => {
                &&& copied_pages(old(target)@, source@.objects, pages@, pages@.len()).max_id
                    > u32::MAX
                &&& e == PdfError::ObjectIdOverflow
                &&& final(target)@ == copied_pages(
                    old(target)@,
                    source@.objects,
                    pages@,
                    fitting(old(target)@, source@.objects, pages@, pages@.len()),
                )
                &&& final(new_pages)@ == old(new_pages)@ + copy_ids(
                    old(target)@,
                    source@.objects,
                    pages@,
                    fitting(old(target)@, source@.objects, pages@, pages@.len()),
                )
            },
        },
{
    let ghost start = target@;
    let ghost g = source@.objects;
    let ghost listed = old(new_pages)@;
    proof {
        source.lemma_wf();
        target.lemma_wf();
        assert(listed + Seq::<ObjectId>::empty() == listed);
    }
    let mut i: usize = 0;
    while i < pages.len()
        invariant
            source.wf(),
            target.wf(),
            start.wf(),
            start == old(target)@,
            listed == old(new_pages)@,
            g == source@.objects,
            g.dom().finite(),
            i <= pages@.len(),
            forall|k: int| 0 <= k < pages@.len() ==> g.contains_key(#[trigger] pages@[k]),
            target@ == copied_pages(start, g, pages@, i as nat),
            new_pages@ == listed + copy_ids(start, g, pages@, i as nat),
        decreases pages.len() - i,
    {
        let ghost before = target@;
        let ghost ids = new_pages@;
        assert(g.contains_key(pages@[i as int]));
        let copy = copy_page_with_resources(source, pages[i], target);
        proof {
            assert(copied_pages(start, g, pages@, (i + 1) as nat) == copied(
                before,
                g,
                pages@[i as int],
            ));
        }
        match copy {
            Ok(id) => {
                new_pages.push(id);
                proof {
                    assert(copy_ids(start, g, pages@, (i + 1) as nat) == copy_ids(
                        start,
                        g,
                        pages@,
                        i as nat,
                    ).push(id));
                    assert(ids.push(id) == listed + copy_ids(start, g, pages@, i as nat).push(id));
                }
            },
            Err(e) => {
                proof {
                    lemma_pages_monotonic(start, g, pages@, (i + 1) as nat, pages@.len());
                    lemma_fitting(start, g, pages@, i as nat, pages@.len());
                }
                return Err(e);
            },
        }
        i += 1;
    }
    Ok(())
}

/// The target after all pages of the first `n` documents were copied into
/// an empty document, document by document.
pub open spec fn merged_into(docs: Seq<DocumentView>, n: nat) -> DocumentView
    decreases n,
{
    if 0 < n <= docs.len() {
        copied_pages(
            merged_into(docs, (n - 1) as nat),
            docs[n - 1].objects,
            docs[n - 1].pages,
            docs[n - 1].pages.len(),
        )
    } else {
        empty_document()
    }
}

/// The ids of the copies of all pages of the first `n` documents: those
/// of the first document first, each document's pages in their order.
pub open spec fn merged_pages(docs: Seq<DocumentView>, n: nat) -> Seq<ObjectId>
    decreases n,
{
    if 0 < n <= docs.len() {
        merged_pages(docs, (n - 1) as nat) + copy_ids(
            merged_into(docs, (n - 1) as nat),
            docs[n - 1].objects,
            docs[n - 1].pages,
            docs[n - 1].pages.len(),
        )
    } else {
        Seq::empty()
    }
}

/// The document that merging makes of `docs`: every page of every
/// document copied with what it needs, in the order given, under one new
/// page tree. Of no documents it makes a document without pages.
pub open spec fn merged(docs: Seq<DocumentView>) -> DocumentView {
    assembled(merged_into(docs, docs.len()), merged_pages(docs, docs.len()))
}

/// What the documents are, one by one.
pub open spec fn document_views(docs: Seq<Document>) -> Seq<DocumentView> {
    docs.map_values(|d: Document| d@)
}

/// Merging more documents never lowers the bound on the object numbers.
pub proof fn lemma_merged_monotonic(docs: Seq<DocumentView>, m: nat, n: nat)
    requires
        m <= n <= docs.len(),
    ensures
        merged_into(docs, m).max_id <= merged_into(docs, n).max_id,
    decreases n,
{
    if m < n {
        lemma_merged_monotonic(docs, m, (n - 1) as nat);
        let d = docs[n - 1];
        lemma_pages_monotonic(
            merged_into(docs, (n - 1) as nat),
            d.objects,
            d.pages,
            0,
            d.pages.len(),
        );
    }
}

/// The number of pages of the first `n` documents together.
pub open spec fn total_pages(docs: Seq<DocumentView>, n: nat) -> nat
    decreases n,
{
    if 0 < n <= docs.len() {
        total_pages(docs, (n - 1) as nat) + docs[n - 1].pages.len()
    } else {
        0
    }
}

/// Merging yields one page for each page of each document, and one
/// object at least for each; before the page tree is made there is
/// neither root nor page.
pub proof fn lemma_merged_size(docs: Seq<DocumentView>, n: nat)
    requires
        n <= docs.len(),
        forall|i: int| 0 <= i < docs.len() ==> (#[trigger] docs[i]).wf(),
    ensures
        merged_pages(docs, n).len() == total_pages(docs, n),
        merged_pages(docs, n).len() <= merged_into(docs, n).max_id,
        merged_into(docs, n).root is None,
        merged_into(docs, n).pages.len() == 0,
    decreases n,
{
    if n > 0 {
        lemma_merged_size(docs, (n - 1) as nat);
        let d = docs[n - 1];
        assert(d.wf());
        lemma_copied_pages_size(merged_into(docs, (n - 1) as nat), d.objects, d.pages, d.pages.len());
    }
}

/// Merging document by document keeps the target well formed, where the
/// object numbers fit, and the copies of the pages are among its objects.
pub proof fn lemma_merged_into(docs: Seq<DocumentView>, n: nat)
    requires
        n <= docs.len(),
        forall|i: int| 0 <= i < docs.len() ==> (#[trigger] docs[i]).wf(),
        merged_into(docs, n).max_id <= u32::MAX,
    ensures
        merged_into(docs, n).wf(),
        forall|k: int|
            0 <= k < merged_pages(docs, n).len() ==> is_page(
                merged_into(docs, n).objects,
                #[trigger] merged_pages(docs, n)[k],
            ),
    decreases n,
{
    if n > 0 {
        let before = merged_into(docs, (n - 1) as nat);
        let d = docs[n - 1];
        assert(d.wf());
        let after = merged_into(docs, n);
        let earlier = merged_pages(docs, (n - 1) as nat);
        let added = copy_ids(before, d.objects, d.pages, d.pages.len());
        lemma_merged_monotonic(docs, (n - 1) as nat, n);
        lemma_merged_into(docs, (n - 1) as nat);
        lemma_copied_pages(before, d.objects, d.pages, d.pages.len());
        assert forall|k: int| 0 <= k < merged_pages(docs, n).len() implies is_page(
            after.objects,
            #[trigger] merged_pages(docs, n)[k],
        ) by {
            if k < earlier.len() {
                assert(merged_pages(docs, n)[k] == earlier[k]);
                assert(is_page(before.objects, earlier[k]));
            } else {
                let j = k - earlier.len();
                assert(merged_pages(docs, n)[k] == added[j]);
                assert(is_page(d.objects, d.pages[j]));
                assert(is_page(after.objects, added[j]));
            }
        }
    } else {
        assert(empty_document().objects.dom() =~= Set::<ObjectId>::empty());
    }
}

/// Merges the documents: every page of every input, in the order given,
/// is copied with what it needs into one new document, which then gets
/// its page tree. It fails where the result would need more object numbers
/// than there are.
pub fn merge_pdfs(inputs: &Vec<Document>) -> (r: Result<Document, PdfError>)
    requires
        forall|i: int| 0 <= i < inputs@.len() ==> (#[trigger] inputs@[i]).wf(),
    ensures
        match r {
            Ok(d) => {
                &&& d.wf()
                &&& merged(document_views(inputs@)).max_id <= u32::MAX
                &&& d@ == merged(document_views(inputs@))
                &&& intact(d@)
                &&& page_tree_sound(d@)
            },
            Err(e) => {
                &&& merged(document_views(inputs@)).max_id > u32::MAX
                &&& e == PdfError::ObjectIdOverflow
            },
        },
{
    let ghost docs = document_views(inputs@);
    let mut target = Document::new();
    let mut page_objects: Vec<ObjectId> = Vec::new();
    proof {
        assert(target@ == empty_document());
        assert forall|i: int| 0 <= i < docs.len() implies (#[trigger] docs[i]).wf() by {
            inputs@[i].lemma_wf();
        }
    }
    let mut i: usize = 0;
    while i < inputs.len()
        invariant
            i <= inputs@.len(),
            docs == document_views(inputs@),
            forall|k: int| 0 <= k < inputs@.len() ==> (#[trigger] inputs@[k]).wf(),
            forall|k: int| 0 <= k < docs.len() ==> (#[trigger] docs[k]).wf(),
            target.wf(),
            target@ == merged_into(docs, i as nat),
            page_objects@ == merged_pages(docs, i as nat),
        decreases inputs.len() - i,
    {
        let source = &inputs[i];
        assert(source.wf());
        assert(docs[i as int] == source@);
        proof {
            source.lemma_wf();
        }
        let copy = copy_pages(source, source.pages(), &mut target, &mut page_objects);
        match copy {
            Ok(_) => {},
            Err(e) => {
                proof {
                    lemma_merged_monotonic(docs, (i + 1) as nat, docs.len());
                }
                return Err(e);
            },
        }
        i += 1;
    }
    proof {
        lemma_merged_into(docs, docs.len());
        lemma_merged_size(docs, docs.len());
    }
    match create_pages_structure(&mut target, &page_objects) {
        Ok(_) => {
            proof {
                lemma_merged_intact(docs);
            }
            Ok(target)
        },
        Err(e) => Err(e),
    }
}

} // verus!
