//! The values that make up a document, and the references among them.

use vstd::prelude::*;

verus! {

/// The key of an indirect object within one document: its number and its
/// generation. It means nothing in another document.
#[derive(Debug, Clone, Copy, PartialEq, Eq, Structural, Hash)]
pub struct ObjectId {
    pub number: u32,
    pub generation: u16,
}

/// How a string object is written.
#[derive(Debug, Clone, Copy, PartialEq, Eq, Structural)]
pub enum StringFormat {
    Literal,
    Hexadecimal,
}

/// One key of a dictionary with its value.
#[derive(Debug, PartialEq, Eq)]
pub struct Entry {
    pub key: Vec<u8>,
    pub value: Object,
}

/// A dictionary: keys with their values, in the order in which they were
/// first set.
#[derive(Debug, PartialEq, Eq)]
pub struct Dictionary {
    pub entries: Vec<Entry>,
}

/// A stream: a dictionary and a payload that is never looked into.
#[derive(Debug, PartialEq, Eq)]
pub struct Stream {
    pub dict: Dictionary,
    pub content: Vec<u8>,
    pub allows_compression: bool,
    pub start_position: Option<usize>,
}

/// A value of a document. A real number is held by the bits of its
/// single-precision form.
#[derive(Debug, PartialEq, Eq)]
pub enum Object {
    Null,
    Boolean(bool),
    Integer(i64),
    Real(u32),
    Name(Vec<u8>),
    String(Vec<u8>, StringFormat),
    Array(Vec<Object>),
    Dictionary(Dictionary),
    Stream(Stream),
    Reference(ObjectId),
}

/// An `Entry` as a mathematical value.
pub struct EntryView {
    pub key: Seq<u8>,
    pub value: ObjectView,
}

/// A `Stream` as a mathematical value.
pub struct StreamView {
    pub dict: Seq<EntryView>,
    pub content: Seq<u8>,
    pub allows_compression: bool,
    pub start_position: Option<usize>,
}

/// An `Object` as a mathematical value.
pub enum ObjectView {
    Null,
    Boolean(bool),
    Integer(i64),
    Real(u32),
    Name(Seq<u8>),
    String(Seq<u8>, StringFormat),
    Array(Seq<ObjectView>),
    Dictionary(Seq<EntryView>),
    Stream(StreamView),
    Reference(ObjectId),
}

/// The values of the first `n` of `items`.
pub open spec fn items_view(items: Seq<Object>, n: nat) -> Seq<ObjectView>
    decreases items, n,
{
    if 0 < n <= items.len() {
        items_view(items, (n - 1) as nat).push(items[n - 1].view())
    } else {
        Seq::empty()
    }
}

/// The values of the first `n` of `entries`.
pub open spec fn entries_view(entries: Seq<Entry>, n: nat) -> Seq<EntryView>
    decreases entries, n,
{
    if 0 < n <= entries.len() {
        entries_view(entries, (n - 1) as nat).push(
            EntryView { key: entries[n - 1].key@, value: entries[n - 1].value.view() },
        )
    } else {
        Seq::empty()
    }
}

impl View for Object {
    type V = ObjectView;

    open spec fn view(&self) -> ObjectView
        decreases self, 0nat,
    {
        match self {
            Object::Null => ObjectView::Null,
            Object::Boolean(b) => ObjectView::Boolean(*b),
            Object::Integer(i) => ObjectView::Integer(*i),
            Object::Real(r) => ObjectView::Real(*r),
            Object::Name(n) => ObjectView::Name(n@),
            Object::String(s, f) => ObjectView::String(s@, *f),
            Object::Array(items) => ObjectView::Array(items_view(items@, items@.len())),
            Object::Dictionary(d) => ObjectView::Dictionary(
                entries_view(d.entries@, d.entries@.len()),
            ),
            Object::Stream(s) => ObjectView::Stream(
                StreamView {
                    dict: entries_view(s.dict.entries@, s.dict.entries@.len()),
                    content: s.content@,
                    allows_compression: s.allows_compression,
                    start_position: s.start_position,
                },
            ),
            Object::Reference(id) => ObjectView::Reference(*id),
        }
    }
}

impl View for Entry {
    type V = EntryView;

    open spec fn view(&self) -> EntryView {
        EntryView { key: self.key@, value: self.value@ }
    }
}

impl View for Dictionary {
    type V = Seq<EntryView>;

    open spec fn view(&self) -> Seq<EntryView> {
        entries_view(self.entries@, self.entries@.len())
    }
}

impl View for Stream {
    type V = StreamView;

    open spec fn view(&self) -> StreamView {
        StreamView {
            dict: self.dict@,
            content: self.content@,
            allows_compression: self.allows_compression,
            start_position: self.start_position,
        }
    }
}

/// The values of items are the values of each, in order.
pub proof fn lemma_items_view(items: Seq<Object>, n: nat)
    requires
        n <= items.len(),
    ensures
        items_view(items, n).len() == n,
        forall|k: int| 0 <= k < n ==> #[trigger] items_view(items, n)[k] == items[k]@,
    decreases n,
{
    if n > 0 {
        lemma_items_view(items, (n - 1) as nat);
        assert(items_view(items, n) == items_view(items, (n - 1) as nat).push(items[n - 1]@));
    } else {
        assert(items_view(items, 0).len() == 0);
    }
}

/// The values of entries are the values of each, in order.
pub proof fn lemma_entries_view(entries: Seq<Entry>, n: nat)
    requires
        n <= entries.len(),
    ensures
        entries_view(entries, n).len() == n,
        forall|k: int| 0 <= k < n ==> #[trigger] entries_view(entries, n)[k] == entries[k]@,
    decreases n,
{
    if n > 0 {
        lemma_entries_view(entries, (n - 1) as nat);
        assert(entries_view(entries, n) == entries_view(entries, (n - 1) as nat).push(
            entries[n - 1]@,
        ));
    } else {
        assert(entries_view(entries, 0).len() == 0);
    }
}

impl Object {
    /// Whether the object is a dictionary.
    pub fn is_dictionary(&self) -> (b: bool)
        ensures
            b == (self@ is Dictionary),
    {
        match self {
            Object::Dictionary(d) => {
                assert(self@ == ObjectView::Dictionary(entries_view(d.entries@, d.entries@.len())));
                true
            },
            Object::Null => {
                assert(self@ == ObjectView::Null);
                false
            },
            Object::Boolean(b) => {
                assert(self@ == ObjectView::Boolean(*b));
                false
            },
            Object::Integer(i) => {
                assert(self@ == ObjectView::Integer(*i));
                false
            },
            Object::Real(r) => {
                assert(self@ == ObjectView::Real(*r));
                false
            },
            Object::Name(n) => {
                assert(self@ == ObjectView::Name(n@));
                false
            },
            Object::String(t, f) => {
                assert(self@ == ObjectView::String(t@, *f));
                false
            },
            Object::Array(items) => {
                assert(self@ == ObjectView::Array(items_view(items@, items@.len())));
                false
            },
            Object::Stream(st) => {
                assert(self@ is Stream);
                false
            },
            Object::Reference(id) => {
                assert(self@ == ObjectView::Reference(*id));
                false
            },
        }
    }
}

/// The ids that `obj` refers to, in the order in which they stand in it.
pub open spec fn references(obj: ObjectView) -> Seq<ObjectId>
    decreases obj, 0nat,
{
    match obj {
        ObjectView::Reference(id) => seq![id],
        ObjectView::Array(items) => array_references(items, items.len()),
        ObjectView::Dictionary(entries) => dict_references(entries, entries.len()),
        ObjectView::Stream(s) => dict_references(s.dict, s.dict.len()),
        _ => Seq::empty(),
    }
}

/// The ids that the first `n` of `items` refer to.
pub open spec fn array_references(items: Seq<ObjectView>, n: nat) -> Seq<ObjectId>
    decreases items, n,
{
    if 0 < n <= items.len() {
        array_references(items, (n - 1) as nat) + references(items[n - 1])
    } else {
        Seq::empty()
    }
}

/// The ids that the values of the first `n` of `entries` refer to.
pub open spec fn dict_references(entries: Seq<EntryView>, n: nat) -> Seq<ObjectId>
    decreases entries, n,
{
    if 0 < n <= entries.len() {
        dict_references(entries, (n - 1) as nat) + references(entries[n - 1].value)
    } else {
        Seq::empty()
    }
}

/// Appends to `out` the ids that `obj` refers to, in the order in which
/// they stand in it.
pub fn collect_references(obj: &Object, out: &mut Vec<ObjectId>)
    ensures
        final(out)@ == old(out)@ + references(obj@),
    decreases obj, 1nat,
{
    match obj {
        Object::Reference(id) => {
            out.push(*id);
            assert(obj@ == ObjectView::Reference(*id));
            assert(references(obj@) == seq![*id]);
            assert(old(out)@.push(*id) == old(out)@ + seq![*id]);
        },
        Object::Array(items) => {
            assert(obj@ == ObjectView::Array(items_view(items@, items@.len())));
            proof {
                lemma_items_view(items@, items@.len());
            }
            collect_from_items(items, out);
        },
        Object::Dictionary(d) => {
            assert(obj@ == ObjectView::Dictionary(entries_view(d.entries@, d.entries@.len())));
            proof {
                lemma_entries_view(d.entries@, d.entries@.len());
            }
            collect_from_entries(&d.entries, out);
        },
        Object::Stream(s) => {
            assert(obj@ matches ObjectView::Stream(sv) && sv.dict == entries_view(
                s.dict.entries@,
                s.dict.entries@.len(),
            ));
            proof {
                lemma_entries_view(s.dict.entries@, s.dict.entries@.len());
            }
            collect_from_entries(&s.dict.entries, out);
        },
        _ => {
            assert(references(obj@) == Seq::<ObjectId>::empty());
            assert(old(out)@ + Seq::<ObjectId>::empty() == old(out)@);
        },
    }
}

fn collect_from_items(items: &Vec<Object>, out: &mut Vec<ObjectId>)
    ensures
        final(out)@ == old(out)@ + array_references(
            items_view(items@, items@.len()),
            items@.len(),
        ),
    decreases items, 0nat,
{
    let ghost views = items_view(items@, items@.len());
    proof {
        lemma_items_view(items@, items@.len());
        assert(array_references(views, 0) == Seq::<ObjectId>::empty());
        assert(old(out)@ + Seq::<ObjectId>::empty() == old(out)@);
    }
    let mut i: usize = 0;
    while i < items.len()
        invariant
            i <= items.len(),
            views == items_view(items@, items@.len()),
            views.len() == items@.len(),
            forall|k: int| 0 <= k < items@.len() ==> #[trigger] views[k] == items@[k]@,
            out@ == old(out)@ + array_references(views, i as nat),
        decreases items.len() - i,
    {
        let ghost before = out@;
        collect_references(&items[i], out);
        proof {
            assert(views[i as int] == items@[i as int]@);
            assert(array_references(views, (i + 1) as nat) == array_references(views, i as nat)
                + references(views[i as int]));
            assert(before + references(views[i as int]) == old(out)@ + (array_references(
                views,
                i as nat,
            ) + references(views[i as int])));
        }
        i += 1;
    }
}

fn collect_from_entries(entries: &Vec<Entry>, out: &mut Vec<ObjectId>)
    ensures
        final(out)@ == old(out)@ + dict_references(
            entries_view(entries@, entries@.len()),
            entries@.len(),
        ),
    decreases entries, 0nat,
{
    let ghost views = entries_view(entries@, entries@.len());
    proof {
        lemma_entries_view(entries@, entries@.len());
        assert(dict_references(views, 0) == Seq::<ObjectId>::empty());
        assert(old(out)@ + Seq::<ObjectId>::empty() == old(out)@);
    }
    let mut i: usize = 0;
    while i < entries.len()
        invariant
            i <= entries.len(),
            views == entries_view(entries@, entries@.len()),
            views.len() == entries@.len(),
            forall|k: int| 0 <= k < entries@.len() ==> #[trigger] views[k] == entries@[k]@,
            out@ == old(out)@ + dict_references(views, i as nat),
        decreases entries.len() - i,
    {
        let ghost before = out@;
        collect_references(&entries[i].value, out);
        proof {
            assert(views[i as int] == entries@[i as int]@);
            assert(dict_references(views, (i + 1) as nat) == dict_references(views, i as nat)
                + references(views[i as int].value));
            assert(before + references(views[i as int].value) == old(out)@ + (dict_references(
                views,
                i as nat,
            ) + references(views[i as int].value)));
        }
        i += 1;
    }
}

} // verus!
