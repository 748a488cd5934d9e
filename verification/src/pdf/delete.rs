//! Deleting pages: what is left of a document when some of its pages are
//! taken away.

use crate::pdf::document::{is_page, Document, DocumentView};
use crate::pdf::error::{PdfError, PdfErrorView};
use crate::pdf::integrity::{intact, lemma_extracted_intact};
use crate::pdf::merge::{
    copied_pages, copy_ids, copy_pages, empty_document, lemma_copied_pages, lemma_copied_pages_size,
};
use crate::pdf::object::ObjectId;
use crate::pdf::page_tree::{assembled, create_pages_structure, page_tree_sound};
use vstd::prelude::*;

verus! {

/// The outcome of an operation that makes a document, as mathematical
/// values.
pub open spec fn result_view(r: Result<Document, PdfError>) -> Result<DocumentView, PdfErrorView> {
    match r {
        Ok(d) => Ok(d@),
        Err(e) => Err(e@),
    }
}

/// The document made of the pages `keep` of `source`, in that order: each
/// page copied with what it needs into an empty document, under one new
/// page tree.
pub open spec fn extracted(source: DocumentView, keep: Seq<ObjectId>) -> DocumentView {
    assembled(
        copied_pages(empty_document(), source.objects, keep, keep.len()),
        copy_ids(empty_document(), source.objects, keep, keep.len()),
    )
}

/// The document made of the pages `keep`, or the failure of making it
/// where it would need more object numbers than there are.
pub open spec fn extraction(source: DocumentView, keep: Seq<ObjectId>) -> Result<
    DocumentView,
    PdfErrorView,
> {
    if extracted(source, keep).max_id > u32::MAX {
        Err(PdfErrorView::ObjectIdOverflow)
    } else {
        Ok(extracted(source, keep))
    }
}

/// Makes a document of the pages `keep` of `source`, in that order. Each
/// of them is an object of the source and a dictionary, as the pages of a
/// document are.
pub fn extract_pages(source: &Document, keep: &Vec<ObjectId>) -> (r: Result<Document, PdfError>)
    requires
        source.wf(),
        forall|i: int| 0 <= i < keep@.len() ==> is_page(source@.objects, #[trigger] keep@[i]),
    ensures
        result_view(r) == extraction(source@, keep@),
        r matches Ok(d) ==> d.wf() && intact(d@) && page_tree_sound(d@) && d@.pages.len()
            == keep@.len(),
{
    let mut target = Document::new();
    let mut page_objects: Vec<ObjectId> = Vec::new();
    proof {
        source.lemma_wf();
        target.lemma_wf();
        assert(target@ == empty_document());
        lemma_copied_pages_size(empty_document(), source@.objects, keep@, keep@.len());
    }
    match copy_pages(source, keep, &mut target, &mut page_objects) {
        Ok(_) => {},
        Err(e) => {
            return Err(e);
        },
    }
    proof {
        lemma_copied_pages(empty_document(), source@.objects, keep@, keep@.len());
        assert(page_objects@ == copy_ids(empty_document(), source@.objects, keep@, keep@.len())) by {
            assert(Seq::<ObjectId>::empty() + copy_ids(
                empty_document(),
                source@.objects,
                keep@,
                keep@.len(),
            ) == copy_ids(empty_document(), source@.objects, keep@, keep@.len()));
        }
    }
    match create_pages_structure(&mut target, &page_objects) {
        Ok(_) => {
            proof {
                lemma_extracted_intact(source@, keep@);
            }
            Ok(target)
        },
        Err(e) => Err(e),
    }
}

/// Whether `number` is one of the page numbers listed.
pub open spec fn listed(numbers: Seq<u32>, number: int) -> bool {
    exists|i: int| 0 <= i < numbers.len() && #[trigger] numbers[i] == number
}

/// The first of the first `n` numbers that is no page of a document with
/// `total` pages.
pub open spec fn first_invalid(numbers: Seq<u32>, total: nat, n: nat) -> Option<u32>
    decreases n,
{
    if 0 < n <= numbers.len() {
        match first_invalid(numbers, total, (n - 1) as nat) {
            Some(p) => Some(p),
            None => if numbers[n - 1] == 0 || numbers[n - 1] > total {
                Some(numbers[n - 1])
            } else {
                None
            },
        }
    } else {
        None
    }
}

/// Those of the first `n` pages whose page number is not listed, in their
/// order. The first page has the number 1.
pub open spec fn kept(pages: Seq<ObjectId>, numbers: Seq<u32>, n: nat) -> Seq<ObjectId>
    decreases n,
{
    if 0 < n <= pages.len() {
        let rest = kept(pages, numbers, (n - 1) as nat);
        if listed(numbers, n as int) {
            rest
        } else {
            rest.push(pages[n - 1])
        }
    } else {
        Seq::empty()
    }
}

/// What deleting the pages with the numbers listed makes of a document. It
/// fails on the first number listed that is no page of the document, and
/// where no page would be left; else it is the document made of the other
/// pages in their order.
pub open spec fn deleted(source: DocumentView, numbers: Seq<u32>) -> Result<
    DocumentView,
    PdfErrorView,
> {
    let total = source.pages.len();
    match first_invalid(numbers, total, numbers.len()) {
        Some(p) => Err(PdfErrorView::InvalidPageNumber(p, total as usize)),
        None => {
            let keep = kept(source.pages, numbers, total);
            if keep.len() == 0 {
                Err(PdfErrorView::EmptyResultDocument)
            } else {
                extraction(source, keep)
            }
        },
    }
}

/// A number that is found to be no page stays the first such number.
pub proof fn lemma_first_invalid(numbers: Seq<u32>, total: nat, m: nat, n: nat)
    requires
        m <= n <= numbers.len(),
        first_invalid(numbers, total, m) is Some,
    ensures
        first_invalid(numbers, total, n) == first_invalid(numbers, total, m),
    decreases n,
{
    if m < n {
        lemma_first_invalid(numbers, total, m, (n - 1) as nat);
    }
}

/// Where no number is invalid, each number is a page.
pub proof fn lemma_all_valid(numbers: Seq<u32>, total: nat, n: nat)
    requires
        n <= numbers.len(),
        first_invalid(numbers, total, n) is None,
    ensures
        forall|i: int| 0 <= i < n ==> 1 <= #[trigger] numbers[i] <= total,
    decreases n,
{
    if n > 0 {
        lemma_all_valid(numbers, total, (n - 1) as nat);
    }
}

/// The pages kept are pages of the document.
pub proof fn lemma_kept(pages: Seq<ObjectId>, numbers: Seq<u32>, n: nat)
    requires
        n <= pages.len(),
    ensures
        kept(pages, numbers, n).len() <= n,
        forall|k: int|
            0 <= k < kept(pages, numbers, n).len() ==> pages.contains(
                #[trigger] kept(pages, numbers, n)[k],
            ),
    decreases n,
{
    if n > 0 {
        lemma_kept(pages, numbers, (n - 1) as nat);
        let rest = kept(pages, numbers, (n - 1) as nat);
        let all = kept(pages, numbers, n);
        assert forall|k: int| 0 <= k < all.len() implies pages.contains(#[trigger] all[k]) by {
            if k < rest.len() {
                assert(all[k] == rest[k]);
            } else {
                assert(all[k] == pages[n - 1]);
            }
        }
    }
}

/// Makes a document of `source` without the pages whose numbers are
/// listed; the first page has the number 1.
pub fn delete_pages(source: &Document, pages_to_delete: &Vec<u32>) -> (r: Result<
    Document,
    PdfError,
>)
    requires
        source.wf(),
    ensures
        result_view(r) == deleted(source@, pages_to_delete@),
        r matches Ok(d) ==> d.wf() && intact(d@) && page_tree_sound(d@) && d@.pages.len() >= 1,
{
    let total: usize = source.page_count();
    let ghost numbers = pages_to_delete@;
    let ghost pages = source@.pages;
    let mut i: usize = 0;
    while i < pages_to_delete.len()
        invariant
            i <= numbers.len(),
            numbers == pages_to_delete@,
            total == source@.pages.len(),
            first_invalid(numbers, total as nat, i as nat) is None,
        decreases pages_to_delete.len() - i,
    {
        let p: u32 = pages_to_delete[i];
        if p == 0 || p as u64 > total as u64 {
            proof {
                assert(first_invalid(numbers, total as nat, (i + 1) as nat) == Some(p));
                lemma_first_invalid(numbers, total as nat, (i + 1) as nat, numbers.len());
            }
            return Err(PdfError::InvalidPageNumber(p, total));
        }
        i += 1;
    }
    proof {
        lemma_all_valid(numbers, total as nat, numbers.len());
    }
    let mut marks: Vec<bool> = vec![false; total];
    let mut i: usize = 0;
    while i < pages_to_delete.len()
        invariant
            i <= numbers.len(),
            numbers == pages_to_delete@,
            marks@.len() == total,
            forall|k: int| 0 <= k < numbers.len() ==> 1 <= #[trigger] numbers[k] <= total,
            forall|j: int|
                0 <= j < total ==> (#[trigger] marks@[j] <==> exists|k: int|
                    0 <= k < i && #[trigger] numbers[k] == j + 1),
        decreases pages_to_delete.len() - i,
    {
        let p: u32 = pages_to_delete[i];
        assert(1 <= numbers[i as int] <= total);
        let ghost before = marks@;
        marks.set((p - 1) as usize, true);
        proof {
            assert forall|j: int| 0 <= j < total implies (#[trigger] marks@[j] <==> exists|k: int|
                0 <= k < i + 1 && #[trigger] numbers[k] == j + 1) by {
                if j == p - 1 {
                    assert(numbers[i as int] == j + 1);
                } else {
                    if before[j] {
                        let k = choose|k: int| 0 <= k < i && #[trigger] numbers[k] == j + 1;
                        assert(0 <= k < i + 1 && numbers[k] == j + 1);
                    }
                    if exists|k: int| 0 <= k < i + 1 && #[trigger] numbers[k] == j + 1 {
                        let k = choose|k: int| 0 <= k < i + 1 && #[trigger] numbers[k] == j + 1;
                        assert(k < i);
                    }
                }
            }
        }
        i += 1;
    }
    let mut keep: Vec<ObjectId> = Vec::new();
    let mut at: usize = 0;
    proof {
        source.lemma_wf();
    }
    while at < total
        invariant
            at <= total,
            total == source@.pages.len(),
            source.wf(),
            pages == source@.pages,
            numbers == pages_to_delete@,
            marks@.len() == total,
            forall|j: int|
                0 <= j < total ==> (#[trigger] marks@[j] <==> exists|k: int|
                    0 <= k < numbers.len() && #[trigger] numbers[k] == j + 1),
            keep@ == kept(pages, numbers, at as nat),
        decreases total - at,
    {
        proof {
            if listed(numbers, at + 1) {
                let k = choose|k: int| 0 <= k < numbers.len() && #[trigger] numbers[k] == at + 1;
                assert(marks@[at as int]);
            }
        }
        if !marks[at] {
            keep.push(source.pages()[at]);
        }
        at += 1;
    }
    if keep.len() == 0 {
        return Err(PdfError::EmptyResultDocument);
    }
    proof {
        lemma_kept(pages, numbers, total as nat);
        assert forall|k: int| 0 <= k < keep@.len() implies is_page(
            source@.objects,
            #[trigger] keep@[k],
        ) by {
            let x = choose|x: int| 0 <= x < pages.len() && pages[x] == keep@[k];
            assert(is_page(source@.objects, pages[x]));
        }
    }
    extract_pages(source, &keep)
}

/// The list that holds the one page number `p`.
pub open spec fn only(p: u32) -> Seq<u32> {
    seq![p]
}

/// Where the first page alone is listed, the pages kept are the others.
pub proof fn lemma_kept_without_first(pages: Seq<ObjectId>, n: nat)
    requires
        1 <= n <= pages.len(),
    ensures
        kept(pages, only(1), n) == pages.subrange(1, n as int),
    decreases n,
{
    if n == 1 {
        assert(only(1)[0] == 1);
        assert(listed(only(1), 1));
        assert(kept(pages, only(1), 0) == Seq::<ObjectId>::empty());
        assert(kept(pages, only(1), 1) =~= pages.subrange(1, 1));
    } else {
        lemma_kept_without_first(pages, (n - 1) as nat);
        assert(!listed(only(1), n as int));
        assert(pages.subrange(1, n - 1).push(pages[n - 1]) =~= pages.subrange(1, n as int));
    }
}

/// Deleting the first page of a document that has more pages leaves one
/// page less: the other pages, in the order that they had.
pub proof fn lemma_delete_first(source: DocumentView)
    requires
        source.wf(),
        source.pages.len() >= 2,
    ensures
        deleted(source, only(1)) == extraction(source, source.pages.drop_first()),
        extracted(source, source.pages.drop_first()).pages.len() == source.pages.len() - 1,
{
    let total = source.pages.len();
    assert(only(1)[0] == 1);
    assert(first_invalid(only(1), total, 0) is None);
    assert(first_invalid(only(1), total, 1) is None);
    lemma_kept_without_first(source.pages, total);
    assert(source.pages.subrange(1, total as int) == source.pages.drop_first());
    lemma_copied_pages_size(
        empty_document(),
        source.objects,
        source.pages.drop_first(),
        source.pages.drop_first().len(),
    );
}

/// Where every page is listed, none is kept.
pub proof fn lemma_kept_none(pages: Seq<ObjectId>, numbers: Seq<u32>, n: nat)
    requires
        n <= pages.len(),
        forall|p: int| 1 <= p <= n ==> listed(numbers, p),
    ensures
        kept(pages, numbers, n).len() == 0,
    decreases n,
{
    if n > 0 {
        lemma_kept_none(pages, numbers, (n - 1) as nat);
        assert(listed(numbers, n as int));
    }
}

/// Deleting all pages of a document fails, since no page would be left.
pub proof fn lemma_delete_all(source: DocumentView, numbers: Seq<u32>)
    requires
        first_invalid(numbers, source.pages.len(), numbers.len()) is None,
        forall|p: int| 1 <= p <= source.pages.len() ==> listed(numbers, p),
    ensures
        deleted(source, numbers) == Err::<DocumentView, PdfErrorView>(
            PdfErrorView::EmptyResultDocument,
        ),
{
    lemma_kept_none(source.pages, numbers, source.pages.len());
}

/// Deleting a page beyond the last page of a document fails, naming the
/// page and the number of pages that there are.
pub proof fn lemma_delete_beyond(source: DocumentView, p: u32)
    requires
        p > source.pages.len(),
    ensures
        deleted(source, only(p)) == Err::<DocumentView, PdfErrorView>(
            PdfErrorView::InvalidPageNumber(p, source.pages.len() as usize),
        ),
{
    assert(only(p)[0] == p);
    assert(first_invalid(only(p), source.pages.len(), 0) is None);
    assert(first_invalid(only(p), source.pages.len(), 1) == Some(p));
}

} // verus!
