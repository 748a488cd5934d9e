//! A document: indirect objects under their ids, the root of the object
//! graph, and the pages in order.

use crate::pdf::error::PdfError;
use crate::pdf::object::{Object, ObjectId, ObjectView};
use vstd::prelude::*;

verus! {

/// Whether `a` comes before `b`: by number, then by generation.
pub open spec fn id_before(a: ObjectId, b: ObjectId) -> bool {
    a.number < b.number || (a.number == b.number && a.generation < b.generation)
}

/// One indirect object with its id.
#[derive(Debug, PartialEq, Eq)]
pub struct Slot {
    pub id: ObjectId,
    pub object: Object,
}

/// Whether the slots stand in ascending order of their ids, so that no id
/// occurs twice.
pub open spec fn ascending(slots: Seq<Slot>) -> bool {
    forall|i: int, j: int|
        0 <= i < j < slots.len() ==> id_before((#[trigger] slots[i]).id, (#[trigger] slots[j]).id)
}

/// Whether one of the slots holds `id`.
pub open spec fn holds(slots: Seq<Slot>, id: ObjectId) -> bool {
    exists|i: int| 0 <= i < slots.len() && (#[trigger] slots[i]).id == id
}

/// The place of `id` among the slots that hold it.
pub open spec fn place(slots: Seq<Slot>, id: ObjectId) -> int {
    choose|i: int| 0 <= i < slots.len() && (#[trigger] slots[i]).id == id
}

/// The objects of the slots under their ids.
pub open spec fn objects_of(slots: Seq<Slot>) -> Map<ObjectId, ObjectView> {
    Map::new(|id: ObjectId| holds(slots, id), |id: ObjectId| slots[place(slots, id)].object@)
}

/// In ascending slots an id stands at one place only.
pub proof fn lemma_place(slots: Seq<Slot>, i: int)
    requires
        ascending(slots),
        0 <= i < slots.len(),
    ensures
        holds(slots, slots[i].id),
        place(slots, slots[i].id) == i,
        objects_of(slots).contains_key(slots[i].id),
        objects_of(slots)[slots[i].id] == slots[i].object@,
{
    let id = slots[i].id;
    let p = place(slots, id);
    assert(0 <= p < slots.len() && slots[p].id == id);
    if p < i {
        assert(id_before(slots[p].id, slots[i].id));
    } else if i < p {
        assert(id_before(slots[i].id, slots[p].id));
    }
}

/// What a document is, apart from how it is stored.
pub struct DocumentView {
    /// The indirect objects under their ids.
    pub objects: Map<ObjectId, ObjectView>,
    /// A bound on the object numbers in use; the next new object gets the
    /// number after it.
    pub max_id: nat,
    /// The object that the trailer names as the root of the graph.
    pub root: Option<ObjectId>,
    /// The ids of the pages, first page first.
    pub pages: Seq<ObjectId>,
    /// The references that a copy into this document could not resolve in
    /// their source and replaced by null.
    pub unresolved: Seq<ObjectId>,
}

/// A document held in memory.
#[derive(Debug, PartialEq, Eq)]
pub struct Document {
    pub(crate) slots: Vec<Slot>,
    pub(crate) max_id: u32,
    pub(crate) root: Option<ObjectId>,
    pub(crate) pages: Vec<ObjectId>,
    pub(crate) unresolved: Vec<ObjectId>,
}

impl View for Document {
    type V = DocumentView;

    open(crate) spec fn view(&self) -> DocumentView {
        DocumentView {
            objects: objects_of(self.slots@),
            max_id: self.max_id as nat,
            root: self.root,
            pages: self.pages@,
            unresolved: self.unresolved@,
        }
    }
}

/// Whether `id` can be a page among the objects: an object stands under
/// it, and that object is a dictionary.
pub open spec fn is_page(objects: Map<ObjectId, ObjectView>, id: ObjectId) -> bool {
    objects.contains_key(id) && objects[id] is Dictionary
}

impl DocumentView {
    /// Whether the document is one that this library can have built: no
    /// object number exceeds `max_id`, which is a 32-bit number, there are
    /// finitely many objects, and every page is one of the objects and is
    /// a dictionary.
    pub open spec fn wf(self) -> bool {
        &&& self.max_id <= u32::MAX
        &&& self.objects.dom().finite()
        &&& forall|id: ObjectId| #[trigger]
            self.objects.contains_key(id) ==> id.number <= self.max_id
        &&& forall|i: int| 0 <= i < self.pages.len() ==> is_page(self.objects, #[trigger] self.pages[i])
    }
}

fn id_lt(a: ObjectId, b: ObjectId) -> (r: bool)
    ensures
        r == id_before(a, b),
{
    a.number < b.number || (a.number == b.number && a.generation < b.generation)
}

impl Document {
    /// The invariant of the store: the slots ascend, and the document that
    /// they hold is well formed.
    pub open(crate) spec fn wf(&self) -> bool {
        &&& ascending(self.slots@)
        &&& self@.wf()
    }

    /// What being well formed means for the document held.
    pub proof fn lemma_wf(&self)
        requires
            self.wf(),
        ensures
            self@.wf(),
    {
    }

    /// A document without objects, pages or root.
    pub fn new() -> (d: Self)
        ensures
            d.wf(),
            d@.objects == Map::<ObjectId, ObjectView>::empty(),
            d@.max_id == 0,
            d@.root is None,
            d@.pages == Seq::<ObjectId>::empty(),
            d@.unresolved == Seq::<ObjectId>::empty(),
    {
        let d = Document {
            slots: Vec::new(),
            max_id: 0,
            root: None,
            pages: Vec::new(),
            unresolved: Vec::new(),
        };
        assert(d@.objects =~= Map::<ObjectId, ObjectView>::empty());
        assert(d@.objects.dom() =~= Set::<ObjectId>::empty());
        d
    }

    /// The number of objects.
    pub fn len(&self) -> (n: usize)
        requires
            self.wf(),
        ensures
            n == self@.objects.dom().len(),
    {
        proof {
            lemma_count(self.slots@);
        }
        self.slots.len()
    }

    /// The first place whose id does not come before `id`; the number of
    /// slots if there is none.
    fn lower_bound(&self, id: ObjectId) -> (at: usize)
        requires
            ascending(self.slots@),
        ensures
            at <= self.slots@.len(),
            forall|k: int| 0 <= k < at ==> id_before((#[trigger] self.slots@[k]).id, id),
            forall|k: int|
                at <= k < self.slots@.len() ==> !id_before((#[trigger] self.slots@[k]).id, id),
    {
        let mut lo: usize = 0;
        let mut hi: usize = self.slots.len();
        while lo < hi
            invariant
                ascending(self.slots@),
                lo <= hi <= self.slots@.len(),
                forall|k: int| 0 <= k < lo ==> id_before((#[trigger] self.slots@[k]).id, id),
                forall|k: int|
                    hi <= k < self.slots@.len() ==> !id_before((#[trigger] self.slots@[k]).id, id),
            decreases hi - lo,
        {
            let mid = lo + (hi - lo) / 2;
            if id_lt(self.slots[mid].id, id) {
                assert forall|k: int| 0 <= k < mid + 1 implies id_before(
                    (#[trigger] self.slots@[k]).id,
                    id,
                ) by {
                    if k < mid {
                        assert(id_before(self.slots@[k].id, self.slots@[mid as int].id));
                    }
                }
                lo = mid + 1;
            } else {
                assert forall|k: int| mid <= k < self.slots@.len() implies !id_before(
                    (#[trigger] self.slots@[k]).id,
                    id,
                ) by {
                    if mid < k {
                        assert(id_before(self.slots@[mid as int].id, self.slots@[k].id));
                    }
                }
                hi = mid;
            }
        }
        lo
    }

    /// The place of the slot that holds `id`, if one does.
    pub(crate) fn find(&self, id: ObjectId) -> (r: Option<usize>)
        requires
            ascending(self.slots@),
        ensures
            match r {
                Some(i) => i < self.slots@.len() && self.slots@[i as int].id == id,
                None => !holds(self.slots@, id),
            },
    {
        let at = self.lower_bound(id);
        if at < self.slots.len() && self.slots[at].id == id {
            Some(at)
        } else {
            proof {
                if holds(self.slots@, id) {
                    let k = choose|k: int|
                        0 <= k < self.slots@.len() && (#[trigger] self.slots@[k]).id == id;
                    if k > at {
                        assert(id_before(self.slots@[at as int].id, self.slots@[k].id));
                    }
                }
            }
            None
        }
    }

    /// Whether the document holds an object under `id`.
    pub fn has_object(&self, id: ObjectId) -> (b: bool)
        requires
            self.wf(),
        ensures
            b == self@.objects.contains_key(id),
    {
        self.find(id).is_some()
    }

    /// The object under `id`, if there is one.
    pub fn get_object(&self, id: ObjectId) -> (r: Option<&Object>)
        requires
            self.wf(),
        ensures
            match r {
                Some(o) => self@.objects.contains_key(id) && o@ == self@.objects[id],
                None => !self@.objects.contains_key(id),
            },
    {
        match self.find(id) {
            Some(i) => {
                proof {
                    lemma_place(self.slots@, i as int);
                }
                Some(&self.slots[i].object)
            },
            None => None,
        }
    }

    /// The bound on the object numbers in use.
    pub fn max_id(&self) -> (n: u32)
        ensures
            n == self@.max_id,
    {
        self.max_id
    }

    /// The object that the trailer names as the root of the graph.
    pub fn root(&self) -> (r: Option<ObjectId>)
        ensures
            r == self@.root,
    {
        self.root
    }

    /// Names `root` as the root of the graph.
    pub fn set_root(&mut self, root: Option<ObjectId>)
        ensures
            final(self)@ == (DocumentView { root, ..old(self)@ }),
            old(self).wf() ==> final(self).wf(),
    {
        self.root = root;
    }

    /// The ids of the pages, first page first.
    pub fn pages(&self) -> (p: &Vec<ObjectId>)
        ensures
            p@ == self@.pages,
    {
        &self.pages
    }

    /// The number of pages.
    pub fn page_count(&self) -> (n: usize)
        ensures
            n == self@.pages.len(),
    {
        self.pages.len()
    }

    /// The references that copies into this document could not resolve.
    pub fn unresolved(&self) -> (u: &Vec<ObjectId>)
        ensures
            u@ == self@.unresolved,
    {
        &self.unresolved
    }

    /// Makes `pages` the pages of the document, if each of them is one of its
    /// objects and a dictionary; otherwise the document stays as it is.
    pub fn set_pages(&mut self, pages: Vec<ObjectId>) -> (done: bool)
        requires
            old(self).wf(),
        ensures
            final(self).wf(),
            done == (forall|i: int|
                0 <= i < pages@.len() ==> is_page(old(self)@.objects, #[trigger] pages@[i])),
            done ==> final(self)@ == (DocumentView { pages: pages@, ..old(self)@ }),
            !done ==> final(self)@ == old(self)@,
    {
        let mut i: usize = 0;
        while i < pages.len()
            invariant
                self.wf(),
                *self == *old(self),
                i <= pages.len(),
                forall|k: int| 0 <= k < i ==> is_page(self@.objects, #[trigger] pages@[k]),
            decreases pages.len() - i,
        {
            let page = match self.get_object(pages[i]) {
                Some(object) => object.is_dictionary(),
                None => false,
            };
            if !page {
                assert(!is_page(self@.objects, pages@[i as int]));
                return false;
            }
            i += 1;
        }
        self.pages = pages;
        true
    }

    /// Whether `id` is one of the pages.
    pub fn is_page_id(&self, id: ObjectId) -> (b: bool)
        ensures
            b == self@.pages.contains(id),
    {
        let mut i: usize = 0;
        while i < self.pages.len()
            invariant
                i <= self.pages@.len(),
                forall|k: int| 0 <= k < i ==> self.pages@[k] != id,
            decreases self.pages.len() - i,
        {
            if self.pages[i] == id {
                return true;
            }
            i += 1;
        }
        false
    }

    /// Reserves the next object number and returns the id made of it, or
    /// fails where no number is left.
    pub fn new_object_id(&mut self) -> (r: Result<ObjectId, PdfError>)
        requires
            old(self).wf(),
        ensures
            final(self).wf(),
            match r {
                Ok(id) => {
                    &&& old(self)@.max_id < u32::MAX
                    &&& id == (ObjectId { number: (old(self)@.max_id + 1) as u32, generation: 0 })
                    &&& final(self)@ == (DocumentView {
                        max_id: old(self)@.max_id + 1,
                        ..old(self)@
                    })
                },
                Err(e) => {
                    &&& old(self)@.max_id == u32::MAX
                    &&& e == PdfError::ObjectIdOverflow
                    &&& final(self)@ == old(self)@
                },
            },
    {
        if self.max_id == u32::MAX {
            return Err(PdfError::ObjectIdOverflow);
        }
        self.max_id = self.max_id + 1;
        Ok(ObjectId { number: self.max_id, generation: 0 })
    }

    /// Stores `object` under a new id and returns the id, or fails where no
    /// object number is left.
    pub fn add_object(&mut self, object: Object) -> (r: Result<ObjectId, PdfError>)
        requires
            old(self).wf(),
        ensures
            final(self).wf(),
            match r {
                Ok(id) => {
                    &&& old(self)@.max_id < u32::MAX
                    &&& id == (ObjectId { number: (old(self)@.max_id + 1) as u32, generation: 0 })
                    &&& final(self)@ == (DocumentView {
                        objects: old(self)@.objects.insert(id, object@),
                        max_id: old(self)@.max_id + 1,
                        ..old(self)@
                    })
                },
                Err(e) => {
                    &&& old(self)@.max_id == u32::MAX
                    &&& e == PdfError::ObjectIdOverflow
                    &&& final(self)@ == old(self)@
                },
            },
    {
        if self.max_id == u32::MAX {
            return Err(PdfError::ObjectIdOverflow);
        }
        let id = ObjectId { number: self.max_id + 1, generation: 0 };
        proof {
            assert forall|k: int| 0 <= k < self.slots@.len() implies id_before(
                (#[trigger] self.slots@[k]).id,
                id,
            ) by {
                lemma_place(self.slots@, k);
            }
            lemma_append(self.slots@, Slot { id, object });
            assert(self@.objects.insert(id, object@).dom() =~= self@.objects.dom().insert(id));
            assert forall|i: int| 0 <= i < self@.pages.len() implies is_page(
                self@.objects.insert(id, object@),
                #[trigger] self@.pages[i],
            ) by {
                assert(is_page(self@.objects, self@.pages[i]));
            }
        }
        self.max_id = self.max_id + 1;
        self.slots.push(Slot { id, object });
        Ok(id)
    }

    /// Stores `object` under `id`, in place of what stood there. A page
    /// stays a dictionary: where `id` is a page and `object` is no
    /// dictionary, nothing is stored and the document stays as it is.
    pub fn insert_object(&mut self, id: ObjectId, object: Object) -> (stored: bool)
        requires
            old(self).wf(),
        ensures
            final(self).wf(),
            stored == (object@ is Dictionary || !old(self)@.pages.contains(id)),
            stored ==> final(self)@ == (DocumentView {
                objects: old(self)@.objects.insert(id, object@),
                max_id: if id.number > old(self)@.max_id {
                    id.number as nat
                } else {
                    old(self)@.max_id
                },
                ..old(self)@
            }),
            !stored ==> final(self)@ == old(self)@,
    {
        if !object.is_dictionary() && self.is_page_id(id) {
            return false;
        }
        if id.number > self.max_id {
            self.max_id = id.number;
        }
        let at = self.lower_bound(id);
        let ghost before = self.slots@;
        if at < self.slots.len() && self.slots[at].id == id {
            proof {
                lemma_replace(before, at as int, Slot { id, object });
            }
            self.slots[at] = Slot { id, object };
        } else {
            proof {
                assert forall|k: int| at <= k < before.len() implies id_before(
                    id,
                    (#[trigger] before[k]).id,
                ) by {
                    assert(!id_before(before[k].id, id));
                    if at < k {
                        assert(id_before(before[at as int].id, before[k].id));
                    }
                }
                lemma_insert(before, at as int, Slot { id, object });
            }
            self.slots.insert(at, Slot { id, object });
        }
        proof {
            assert(final(self)@.objects.dom() =~= old(self)@.objects.dom().insert(id));
            assert forall|i: int| 0 <= i < self@.pages.len() implies is_page(
                self@.objects,
                #[trigger] self@.pages[i],
            ) by {
                assert(is_page(old(self)@.objects, old(self)@.pages[i]));
            }
        }
        true
    }

    /// The id of the object at place `i` in ascending order of ids.
    pub fn id_at(&self, i: usize) -> (id: ObjectId)
        requires
            self.wf(),
            i < self@.objects.dom().len(),
        ensures
            self@.objects.contains_key(id),
            id == self.ids()[i as int],
    {
        proof {
            lemma_count(self.slots@);
            lemma_place(self.slots@, i as int);
        }
        self.slots[i].id
    }

    /// The ids of the objects in ascending order.
    pub open(crate) spec fn ids(&self) -> Seq<ObjectId> {
        self.slots@.map_values(|s: Slot| s.id)
    }

    /// The ids of the objects in ascending order: each id of the document
    /// once.
    pub proof fn lemma_ids(&self)
        requires
            self.wf(),
        ensures
            self.ids().len() == self@.objects.dom().len(),
            self.ids().no_duplicates(),
            forall|i: int, j: int|
                0 <= i < j < self.ids().len() ==> id_before(
                    #[trigger] self.ids()[i],
                    #[trigger] self.ids()[j],
                ),
            forall|id: ObjectId| self.ids().contains(id) <==> self@.objects.contains_key(id),
    {
        lemma_count(self.slots@);
        let ids = self.ids();
        assert forall|i: int, j: int| 0 <= i < j < ids.len() implies id_before(
            #[trigger] ids[i],
            #[trigger] ids[j],
        ) by {
            assert(id_before(self.slots@[i].id, self.slots@[j].id));
        }
        assert forall|i: int, j: int| 0 <= i < ids.len() && 0 <= j < ids.len() && i != j implies ids[i]
            != ids[j] by {
            if i < j {
                assert(id_before(self.slots@[i].id, self.slots@[j].id));
            } else {
                assert(id_before(self.slots@[j].id, self.slots@[i].id));
            }
        }
        assert forall|id: ObjectId| ids.contains(id) <==> self@.objects.contains_key(id) by {
            if ids.contains(id) {
                let i = choose|i: int| 0 <= i < ids.len() && ids[i] == id;
                assert(self.slots@[i].id == id);
            }
            if self@.objects.contains_key(id) {
                let i = place(self.slots@, id);
                assert(ids[i] == id);
            }
        }
    }
}

/// The ids of ascending slots are as many as the slots.
pub proof fn lemma_count(slots: Seq<Slot>)
    requires
        ascending(slots),
    ensures
        objects_of(slots).dom().finite(),
        objects_of(slots).dom().len() == slots.len(),
    decreases slots.len(),
{
    if slots.len() == 0 {
        assert(objects_of(slots).dom() =~= Set::<ObjectId>::empty());
    } else {
        let rest = slots.drop_last();
        let last = slots.last();
        assert(ascending(rest)) by {
            assert forall|i: int, j: int| 0 <= i < j < rest.len() implies id_before(
                (#[trigger] rest[i]).id,
                (#[trigger] rest[j]).id,
            ) by {
                assert(rest[i] == slots[i] && rest[j] == slots[j]);
            }
        }
        lemma_count(rest);
        assert(!holds(rest, last.id)) by {
            if holds(rest, last.id) {
                let i = choose|i: int| 0 <= i < rest.len() && (#[trigger] rest[i]).id == last.id;
                assert(rest[i] == slots[i]);
                assert(id_before(slots[i].id, slots[slots.len() - 1].id));
            }
        }
        assert(objects_of(slots).dom() =~= objects_of(rest).dom().insert(last.id)) by {
            assert forall|id: ObjectId| holds(slots, id) <==> (holds(rest, id) || id
                == last.id) by {
                if holds(slots, id) {
                    let i = choose|i: int| 0 <= i < slots.len() && (#[trigger] slots[i]).id == id;
                    if i < rest.len() {
                        assert(rest[i] == slots[i]);
                    }
                }
                if holds(rest, id) {
                    let i = choose|i: int| 0 <= i < rest.len() && (#[trigger] rest[i]).id == id;
                    assert(rest[i] == slots[i]);
                }
                if id == last.id {
                    assert(slots[slots.len() - 1].id == id);
                }
            }
        }
    }
}

/// A slot whose id comes after all others goes to the end.
pub proof fn lemma_append(slots: Seq<Slot>, slot: Slot)
    requires
        ascending(slots),
        forall|k: int| 0 <= k < slots.len() ==> id_before((#[trigger] slots[k]).id, slot.id),
    ensures
        ascending(slots.push(slot)),
        objects_of(slots.push(slot)) == objects_of(slots).insert(slot.id, slot.object@),
{
    lemma_insert(slots, slots.len() as int, slot);
    assert(slots.insert(slots.len() as int, slot) =~= slots.push(slot));
}

/// A slot whose id is new goes between those before it and those after it.
pub proof fn lemma_insert(slots: Seq<Slot>, at: int, slot: Slot)
    requires
        ascending(slots),
        0 <= at <= slots.len(),
        forall|k: int| 0 <= k < at ==> id_before((#[trigger] slots[k]).id, slot.id),
        forall|k: int| at <= k < slots.len() ==> id_before(slot.id, (#[trigger] slots[k]).id),
    ensures
        ascending(slots.insert(at, slot)),
        objects_of(slots.insert(at, slot)) == objects_of(slots).insert(slot.id, slot.object@),
{
    let after = slots.insert(at, slot);
    assert forall|i: int, j: int| 0 <= i < j < after.len() implies id_before(
        (#[trigger] after[i]).id,
        (#[trigger] after[j]).id,
    ) by {
        let a = if i < at {
            i
        } else {
            i - 1
        };
        let b = if j < at {
            j
        } else {
            j - 1
        };
        if i != at && j != at {
            assert(after[i] == slots[a] && after[j] == slots[b]);
            assert(id_before(slots[a].id, slots[b].id));
        } else if i == at {
            assert(after[j] == slots[b]);
        } else {
            assert(after[i] == slots[a]);
        }
    }
    assert forall|id: ObjectId| holds(after, id) <==> (holds(slots, id) || id == slot.id) by {
        if holds(after, id) {
            let i = choose|i: int| 0 <= i < after.len() && (#[trigger] after[i]).id == id;
            if i < at {
                assert(slots[i] == after[i]);
            } else if i > at {
                assert(slots[i - 1] == after[i]);
            }
        }
        if holds(slots, id) {
            let i = choose|i: int| 0 <= i < slots.len() && (#[trigger] slots[i]).id == id;
            if i < at {
                assert(after[i] == slots[i]);
            } else {
                assert(after[i + 1] == slots[i]);
            }
        }
        if id == slot.id {
            assert(after[at] == slot);
        }
    }
    assert forall|id: ObjectId| holds(after, id) implies #[trigger] objects_of(after)[id]
        == objects_of(slots).insert(slot.id, slot.object@)[id] by {
        let i = place(after, id);
        lemma_place(after, i);
        if i < at {
            assert(slots[i] == after[i]);
            lemma_place(slots, i);
        } else if i > at {
            assert(slots[i - 1] == after[i]);
            lemma_place(slots, i - 1);
        }
    }
    assert(objects_of(after) =~= objects_of(slots).insert(slot.id, slot.object@));
}

/// A slot that takes the place of one with the same id changes that object
/// only.
pub proof fn lemma_replace(slots: Seq<Slot>, at: int, slot: Slot)
    requires
        ascending(slots),
        0 <= at < slots.len(),
        slots[at].id == slot.id,
    ensures
        ascending(slots.update(at, slot)),
        objects_of(slots.update(at, slot)) == objects_of(slots).insert(slot.id, slot.object@),
{
    let after = slots.update(at, slot);
    assert forall|i: int, j: int| 0 <= i < j < after.len() implies id_before(
        (#[trigger] after[i]).id,
        (#[trigger] after[j]).id,
    ) by {
        assert(after[i].id == slots[i].id && after[j].id == slots[j].id);
        assert(id_before(slots[i].id, slots[j].id));
    }
    assert forall|id: ObjectId| holds(after, id) <==> (holds(slots, id) || id == slot.id) by {
        if holds(after, id) {
            let i = choose|i: int| 0 <= i < after.len() && (#[trigger] after[i]).id == id;
            assert(slots[i].id == after[i].id);
        }
        if holds(slots, id) {
            let i = choose|i: int| 0 <= i < slots.len() && (#[trigger] slots[i]).id == id;
            assert(after[i].id == slots[i].id);
        }
        if id == slot.id {
            assert(after[at] == slot);
        }
    }
    assert forall|id: ObjectId| holds(after, id) implies #[trigger] objects_of(after)[id]
        == objects_of(slots).insert(slot.id, slot.object@)[id] by {
        let i = place(after, id);
        lemma_place(after, i);
        if i != at {
            assert(slots[i] == after[i]);
            lemma_place(slots, i);
        }
    }
    assert(objects_of(after) =~= objects_of(slots).insert(slot.id, slot.object@));
}

} // verus!
