//! The list of imported files that the screens share.

use vstd::prelude::*;

use crate::text::{contains_string, views};

verus! {

/// The files the user has imported, in the order they were added.
#[derive(Clone, Debug)]
pub struct FileConfiguration {
    pub lazy_files: Vec<String>,
}

/// The list after importing `file`: unchanged when it is already there,
/// otherwise with `file` appended.
pub open spec fn files_after_add(files: Seq<Seq<char>>, file: Seq<char>) -> Seq<Seq<char>> {
    if files.contains(file) {
        files
    } else {
        files.push(file)
    }
}

impl View for FileConfiguration {
    type V = Seq<Seq<char>>;

    open spec fn view(&self) -> Seq<Seq<char>> {
        views(self.lazy_files@)
    }
}

impl FileConfiguration {
    /// A configuration with no imported file.
    pub fn new() -> (r: Self)
        ensures
            r@ == Seq::<Seq<char>>::empty(),
    {
        FileConfiguration { lazy_files: Vec::new() }
    }

    /// Imports `file` unless it is already in the list; says whether it was
    /// added.
    pub fn add_file(&mut self, file: String) -> (added: bool)
        ensures
            added == !old(self)@.contains(file@),
            final(self)@ == files_after_add(old(self)@, file@),
    {
        if contains_string(&self.lazy_files, &file) {
            false
        } else {
            let ghost before = self.lazy_files@;
            let ghost f = file@;
            self.lazy_files.push(file);
            assert(views(self.lazy_files@) =~= views(before).push(f));
            true
        }
    }

    /// Removes the file at position `index`.
    pub fn remove_file(&mut self, index: usize)
        requires
            index < old(self).lazy_files.len(),
        ensures
            final(self)@ == old(self)@.remove(index as int),
    {
        let ghost before = self.lazy_files@;
        self.lazy_files.remove(index);
        assert(views(self.lazy_files@) =~= views(before).remove(index as int));
    }
}

/// Importing a file never puts a second copy of a name into a list that
/// had none.
pub proof fn law_add_keeps_files_distinct(files: Seq<Seq<char>>, file: Seq<char>)
    requires
        files.no_duplicates(),
    ensures
        files_after_add(files, file).no_duplicates(),
{
    if !files.contains(file) {
        let r = files.push(file);
        assert forall|i: int, j: int| 0 <= i < r.len() && 0 <= j < r.len() && i != j implies r[i]
            != r[j] by {
            if i == files.len() {
                assert(files[j] == r[j]);
            } else if j == files.len() {
                assert(files[i] == r[i]);
            }
        }
    }
}

/// Removing a file keeps a list without duplicates free of them.
pub proof fn law_remove_keeps_files_distinct(files: Seq<Seq<char>>, index: int)
    requires
        files.no_duplicates(),
        0 <= index < files.len(),
    ensures
        files.remove(index).no_duplicates(),
{
    let r = files.remove(index);
    assert forall|i: int, j: int| 0 <= i < r.len() && 0 <= j < r.len() && i != j implies r[i]
        != r[j] by {
        let ii: int = if i < index { i } else { i + 1 };
        let jj: int = if j < index { j } else { j + 1 };
        assert(r[i] == files[ii]);
        assert(r[j] == files[jj]);
    }
}

/// After importing a file it is in the list, and importing it again
/// changes nothing.
pub proof fn law_add_is_idempotent(files: Seq<Seq<char>>, file: Seq<char>)
    ensures
        files_after_add(files, file).contains(file),
        files_after_add(files_after_add(files, file), file) == files_after_add(files, file),
{
    if !files.contains(file) {
        assert(files.push(file)[files.len() as int] == file);
    }
}

/// Removing a newly imported file, which stands last, gives back the list
/// as it was.
pub proof fn law_remove_undoes_add(files: Seq<Seq<char>>, file: Seq<char>)
    requires
        !files.contains(file),
    ensures
        files_after_add(files, file).remove(files.len() as int) == files,
{
    assert(files.push(file).remove(files.len() as int) =~= files);
}

} // verus!
