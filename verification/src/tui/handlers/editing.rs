//! What is common to the screens on which a text is edited.

use crate::text::{chars_of, ends_with, has_suffix};
use crate::tui::keys::Key;
use vstd::prelude::*;

verus! {

/// `text` without its last character; an empty text stays empty.
pub open spec fn without_last(text: Seq<char>) -> Seq<char> {
    if text.len() > 0 {
        text.drop_last()
    } else {
        text
    }
}

/// The name of an output file once the user has finished it: the default
/// for an empty name, else the name, with `.pdf` added unless it ends so.
pub open spec fn finished_filename(name: Seq<char>, default: Seq<char>) -> Seq<char> {
    if name.len() == 0 {
        default
    } else if has_suffix(name, ".pdf"@) {
        name
    } else {
        name + ".pdf"@
    }
}

/// Finishes the name of an output file.
pub fn finish_filename(name: &mut String, default: &str)
    ensures
        final(name)@ == finished_filename(old(name)@, default@),
{
    let chars = chars_of(name.as_str());
    if chars.len() == 0 {
        *name = String::from_str(default);
    } else {
        let suffix = chars_of(".pdf");
        if !ends_with(&chars, &suffix) {
            name.append(".pdf");
        }
    }
}

/// Whether the key is Esc.
pub fn is_esc(key: Key) -> (b: bool)
    ensures
        b == (key == Key::Esc),
{
    match key {
        Key::Esc => true,
        _ => false,
    }
}

/// The texts with `separator` between each two of the first `n`.
pub open spec fn joined(texts: Seq<Seq<char>>, separator: Seq<char>, n: nat) -> Seq<char>
    decreases n,
{
    if n == 0 || n > texts.len() {
        Seq::empty()
    } else if n == 1 {
        texts[0]
    } else {
        joined(texts, separator, (n - 1) as nat) + separator + texts[n - 1]
    }
}

/// Appends the strings to `out` with `separator` between each two.
pub fn push_joined(out: &mut String, strings: &Vec<String>, separator: &str)
    ensures
        final(out)@ == old(out)@ + joined(
            strings@.map_values(|s: String| s@),
            separator@,
            strings@.len(),
        ),
{
    let ghost texts = strings@.map_values(|s: String| s@);
    let mut i: usize = 0;
    assert(old(out)@ + Seq::<char>::empty() == old(out)@);
    while i < strings.len()
        invariant
            i <= strings@.len(),
            texts == strings@.map_values(|s: String| s@),
            out@ == old(out)@ + joined(texts, separator@, i as nat),
        decreases strings.len() - i,
    {
        let ghost before = out@;
        if i > 0 {
            out.append(separator);
        }
        out.append(strings[i].as_str());
        proof {
            assert(texts[i as int] == strings@[i as int]@);
            if i == 0 {
                assert(joined(texts, separator@, 1) == texts[0]);
                assert(joined(texts, separator@, 0) == Seq::<char>::empty());
            } else {
                assert(joined(texts, separator@, (i + 1) as nat) == joined(
                    texts,
                    separator@,
                    i as nat,
                ) + separator@ + texts[i as int]);
                assert(before + separator@ + texts[i as int] == old(out)@ + (joined(
                    texts,
                    separator@,
                    i as nat,
                ) + separator@ + texts[i as int]));
            }
        }
        i += 1;
    }
}

} // verus!
