//! Dictionaries: looking a key up and setting it, and the byte strings that
//! serve as keys and names.

use crate::pdf::object::{
    entries_view, lemma_entries_view, Dictionary, Entry, EntryView, Object, ObjectView,
};
use crate::text::chars_of;
use vstd::prelude::*;

verus! {

/// The byte that stands for a character of ASCII or Latin-1: its code. Any
/// other character gives a question mark.
pub open spec fn byte_of(c: char) -> u8 {
    if (c as u32) < 256 {
        (c as u32) as u8
    } else {
        63
    }
}

/// The bytes of a text of ASCII characters.
pub open spec fn ascii(s: Seq<char>) -> Seq<u8> {
    s.map_values(|c: char| byte_of(c))
}

/// The bytes of `s`, one for each character.
pub fn name_bytes(s: &str) -> (v: Vec<u8>)
    ensures
        v@ == ascii(s@),
{
    let chars = chars_of(s);
    let mut v: Vec<u8> = Vec::new();
    let mut i: usize = 0;
    while i < chars.len()
        invariant
            i <= chars.len(),
            chars@ == s@,
            v@ == ascii(s@).take(i as int),
        decreases chars.len() - i,
    {
        let c: char = chars[i];
        let n: u32 = c as u32;
        let b: u8 = if n < 256 {
            n as u8
        } else {
            63
        };
        v.push(b);
        i += 1;
    }
    assert(ascii(s@).take(s@.len() as int) == ascii(s@));
    v
}

/// A copy of `v`.
pub fn copy_bytes(v: &Vec<u8>) -> (r: Vec<u8>)
    ensures
        r@ == v@,
{
    let mut r: Vec<u8> = Vec::new();
    let mut i: usize = 0;
    while i < v.len()
        invariant
            i <= v.len(),
            r@ == v@.take(i as int),
        decreases v.len() - i,
    {
        r.push(v[i]);
        i += 1;
    }
    assert(v@.take(v@.len() as int) == v@);
    r
}

/// Whether two byte strings are equal.
pub fn bytes_equal(a: &Vec<u8>, b: &Vec<u8>) -> (r: bool)
    ensures
        r == (a@ == b@),
{
    if a.len() != b.len() {
        return false;
    }
    let mut i: usize = 0;
    while i < a.len()
        invariant
            a.len() == b.len(),
            i <= a.len(),
            a@.take(i as int) == b@.take(i as int),
        decreases a.len() - i,
    {
        if a[i] != b[i] {
            return false;
        }
        i += 1;
        assert(a@.take(i as int) == a@.take(i - 1).push(a@[i - 1]));
        assert(b@.take(i as int) == b@.take(i - 1).push(b@[i - 1]));
    }
    assert(a@.take(a@.len() as int) == a@);
    assert(b@.take(b@.len() as int) == b@);
    true
}

/// The first place at or after `from` whose key is `key`; the number of
/// entries if there is none.
pub open spec fn key_position(entries: Seq<EntryView>, key: Seq<u8>, from: int) -> int
    decreases entries.len() - from,
{
    if 0 <= from < entries.len() && entries[from].key != key {
        key_position(entries, key, from + 1)
    } else {
        from
    }
}

/// The value of the first entry whose key is `key`.
pub open spec fn dict_get(entries: Seq<EntryView>, key: Seq<u8>) -> Option<ObjectView> {
    let i = key_position(entries, key, 0);
    if 0 <= i < entries.len() {
        Some(entries[i].value)
    } else {
        None
    }
}

/// The entries with `value` under `key`: in the place of the first entry
/// with that key, or at the end where there is none.
pub open spec fn dict_set(entries: Seq<EntryView>, key: Seq<u8>, value: ObjectView) -> Seq<
    EntryView,
> {
    let i = key_position(entries, key, 0);
    if 0 <= i < entries.len() {
        entries.update(i, EntryView { key, value })
    } else {
        entries.push(EntryView { key, value })
    }
}

/// Where the search for a key ends.
pub proof fn lemma_key_position(entries: Seq<EntryView>, key: Seq<u8>, from: int)
    requires
        0 <= from <= entries.len(),
    ensures
        from <= key_position(entries, key, from) <= entries.len(),
        key_position(entries, key, from) < entries.len() ==> entries[key_position(
            entries,
            key,
            from,
        )].key == key,
        forall|k: int| from <= k < key_position(entries, key, from) ==> entries[k].key != key,
    decreases entries.len() - from,
{
    if from < entries.len() && entries[from].key != key {
        lemma_key_position(entries, key, from + 1);
    }
}

/// A key that was set is found with its value.
pub proof fn lemma_get_after_set(entries: Seq<EntryView>, key: Seq<u8>, value: ObjectView)
    ensures
        dict_get(dict_set(entries, key, value), key) == Some(value),
        dict_set(entries, key, value).len() >= entries.len(),
{
    lemma_key_position(entries, key, 0);
    let i = key_position(entries, key, 0);
    let after = dict_set(entries, key, value);
    lemma_key_position(after, key, 0);
    let j = key_position(after, key, 0);
    if j < i {
        assert(after[j].key == entries[j].key);
    }
    if i < j {
        assert(after[i].key == key);
    }
}

/// Setting a key a second time to the same value changes nothing.
pub proof fn lemma_set_twice(entries: Seq<EntryView>, key: Seq<u8>, value: ObjectView)
    ensures
        dict_set(dict_set(entries, key, value), key, value) == dict_set(entries, key, value),
{
    lemma_key_position(entries, key, 0);
    let i = key_position(entries, key, 0);
    let after = dict_set(entries, key, value);
    lemma_key_position(after, key, 0);
    let j = key_position(after, key, 0);
    if j < i {
        assert(after[j].key == entries[j].key);
    }
    if i < j {
        assert(after[i].key == key);
    }
    assert(dict_set(after, key, value) =~= after);
}

impl Dictionary {
    /// A dictionary without entries.
    pub fn new() -> (d: Self)
        ensures
            d@ == Seq::<EntryView>::empty(),
    {
        let d = Dictionary { entries: Vec::new() };
        assert(entries_view(d.entries@, 0) == Seq::<EntryView>::empty());
        d
    }

    /// The number of entries.
    pub fn len(&self) -> (n: usize)
        ensures
            n == self@.len(),
    {
        proof {
            lemma_entries_view(self.entries@, self.entries@.len());
        }
        self.entries.len()
    }

    fn position(&self, key: &Vec<u8>) -> (i: usize)
        ensures
            i == key_position(self@, key@, 0),
            i <= self.entries@.len(),
            self@.len() == self.entries@.len(),
    {
        proof {
            lemma_entries_view(self.entries@, self.entries@.len());
        }
        let mut i: usize = 0;
        while i < self.entries.len() && !bytes_equal(&self.entries[i].key, key)
            invariant
                i <= self.entries@.len(),
                self@.len() == self.entries@.len(),
                forall|k: int| 0 <= k < self.entries@.len() ==> #[trigger] self@[k] == self.entries@[k]@,
                key_position(self@, key@, 0) == key_position(self@, key@, i as int),
            decreases self.entries@.len() - i,
        {
            assert(self@[i as int] == self.entries@[i as int]@);
            i += 1;
        }
        proof {
            if i < self.entries@.len() {
                assert(self@[i as int] == self.entries@[i as int]@);
            }
        }
        i
    }

    /// The value of the first entry whose key is `key`.
    pub fn get(&self, key: &Vec<u8>) -> (r: Option<&Object>)
        ensures
            match r {
                Some(o) => dict_get(self@, key@) == Some(o@),
                None => dict_get(self@, key@) is None,
            },
    {
        let i = self.position(key);
        if i < self.entries.len() {
            proof {
                lemma_entries_view(self.entries@, self.entries@.len());
                assert(self@[i as int] == self.entries@[i as int]@);
            }
            Some(&self.entries[i].value)
        } else {
            None
        }
    }

    /// Puts `value` under `key`: in the place of the first entry with that
    /// key, or at the end where there is none.
    pub fn set(&mut self, key: Vec<u8>, value: Object)
        ensures
            final(self)@ == dict_set(old(self)@, key@, value@),
    {
        let i = self.position(&key);
        let ghost before = self.entries@;
        let ghost entry = EntryView { key: key@, value: value@ };
        proof {
            lemma_entries_view(before, before.len());
        }
        if i < self.entries.len() {
            self.entries[i] = Entry { key, value };
        } else {
            self.entries.push(Entry { key, value });
        }
        proof {
            let after = self.entries@;
            lemma_entries_view(after, after.len());
            let want = dict_set(old(self)@, entry.key, entry.value);
            assert(self@.len() == want.len());
            assert forall|k: int| 0 <= k < want.len() implies self@[k] == want[k] by {
                assert(self@[k] == after[k]@);
                if k < before.len() {
                    assert(old(self)@[k] == before[k]@);
                }
            }
            assert(self@ =~= want);
        }
    }
}

} // verus!
