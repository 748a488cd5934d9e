//! The files that the user has selected, and where the two cursors stand
//! among them.

use vstd::prelude::*;

verus! {

/// `<[T]>::swap` exchanges the elements at two places of a slice, and
/// leaves the others where they are.
pub assume_specification<Elem>[ <[Elem]>::swap ](slice: &mut [Elem], a: usize, b: usize)
    requires
        a < old(slice)@.len(),
        b < old(slice)@.len(),
    ensures
        final(slice)@ == old(slice)@.update(a as int, old(slice)@[b as int]).update(
            b as int,
            old(slice)@[a as int],
        ),
;

/// The selected files and the cursors.
#[derive(Debug, Clone)]
pub struct FileState {
    pub selected_files: Vec<String>,
    pub selected_file_index: usize,
    pub merge_file_index: usize,
}

/// The texts of the strings, in order.
pub open spec fn texts(files: Seq<String>) -> Seq<Seq<char>> {
    files.map_values(|f: String| f@)
}

/// A `FileState` with its file names as character sequences.
pub struct FileStateView {
    pub selected_files: Seq<Seq<char>>,
    pub selected_file_index: usize,
    pub merge_file_index: usize,
}

impl View for FileState {
    type V = FileStateView;

    open spec fn view(&self) -> FileStateView {
        FileStateView {
            selected_files: texts(self.selected_files@),
            selected_file_index: self.selected_file_index,
            merge_file_index: self.merge_file_index,
        }
    }
}

/// Where a cursor stands after a file was taken away and `left` files are
/// left: on the last file if it stood behind it, unless no file is left.
pub open spec fn cursor_after_removal(cursor: usize, left: nat) -> usize {
    if cursor >= left && left > 0 {
        (left - 1) as usize
    } else {
        cursor
    }
}

impl FileStateView {
    /// No file selected, both cursors on the first place.
    pub open spec fn initial() -> FileStateView {
        FileStateView { selected_files: Seq::empty(), selected_file_index: 0, merge_file_index: 0 }
    }

    /// The state with one more file at the end.
    pub open spec fn with_file(self, file: Seq<char>) -> FileStateView {
        FileStateView { selected_files: self.selected_files.push(file), ..self }
    }

    /// The state without the file at `index`; the cursors move back onto
    /// the last file where they would stand behind it. An index at which
    /// there is no file changes nothing.
    pub open spec fn without_file(self, index: usize) -> FileStateView {
        if index < self.selected_files.len() {
            let files = self.selected_files.remove(index as int);
            FileStateView {
                selected_files: files,
                selected_file_index: cursor_after_removal(self.selected_file_index, files.len()),
                merge_file_index: cursor_after_removal(self.merge_file_index, files.len()),
            }
        } else {
            self
        }
    }

    /// The state with the files at the two places exchanged. A place at
    /// which there is no file changes nothing.
    pub open spec fn swapped(self, index1: usize, index2: usize) -> FileStateView {
        if index1 < self.selected_files.len() && index2 < self.selected_files.len() {
            FileStateView {
                selected_files: self.selected_files.update(
                    index1 as int,
                    self.selected_files[index2 as int],
                ).update(index2 as int, self.selected_files[index1 as int]),
                ..self
            }
        } else {
            self
        }
    }
}

impl FileState {
    /// No file selected, both cursors on the first place.
    pub fn new() -> (s: Self)
        ensures
            s@ == FileStateView::initial(),
    {
        let s = FileState {
            selected_files: Vec::new(),
            selected_file_index: 0,
            merge_file_index: 0,
        };
        assert(texts(s.selected_files@) =~= Seq::<Seq<char>>::empty());
        s
    }

    /// Forgets the files and puts both cursors on the first place.
    pub fn reset(&mut self)
        ensures
            final(self)@ == FileStateView::initial(),
    {
        self.selected_files.clear();
        self.selected_file_index = 0;
        self.merge_file_index = 0;
        assert(texts(self.selected_files@) =~= Seq::<Seq<char>>::empty());
    }

    /// Adds a file at the end.
    pub fn add_file(&mut self, file_path: String)
        ensures
            final(self)@ == old(self)@.with_file(file_path@),
    {
        self.selected_files.push(file_path);
        assert(texts(self.selected_files@) =~= texts(old(self).selected_files@).push(file_path@));
    }

    /// Takes the file at `index` away, if there is one, and keeps the cursors
    /// on the files.
    pub fn remove_file(&mut self, index: usize)
        ensures
            final(self)@ == old(self)@.without_file(index),
    {
        if index < self.selected_files.len() {
            self.selected_files.remove(index);
            assert(texts(self.selected_files@) =~= texts(old(self).selected_files@).remove(
                index as int,
            ));
            if self.selected_file_index >= self.selected_files.len()
                && !self.selected_files.is_empty() {
                self.selected_file_index = self.selected_files.len() - 1;
            }
            if self.merge_file_index >= self.selected_files.len()
                && !self.selected_files.is_empty() {
                self.merge_file_index = self.selected_files.len() - 1;
            }
        }
    }

    /// Exchanges the files at the two places, if there are files at both.
    pub fn swap_files(&mut self, index1: usize, index2: usize)
        ensures
            final(self)@ == old(self)@.swapped(index1, index2),
    {
        if index1 < self.selected_files.len() && index2 < self.selected_files.len() {
            self.selected_files.swap(index1, index2);
            assert(texts(self.selected_files@) =~= texts(old(self).selected_files@).update(
                index1 as int,
                texts(old(self).selected_files@)[index2 as int],
            ).update(index2 as int, texts(old(self).selected_files@)[index1 as int]));
        }
    }

    /// Whether no file is selected.
    pub fn is_empty(&self) -> (b: bool)
        ensures
            b == (self@.selected_files.len() == 0),
    {
        self.selected_files.is_empty()
    }

    /// The number of files selected.
    pub fn len(&self) -> (n: usize)
        ensures
            n == self@.selected_files.len(),
    {
        self.selected_files.len()
    }
}

} // verus!
