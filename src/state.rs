//! The shell's navigation state: the current directory, the names indexed
//! in it, and the selected file (the "state").

use vstd::prelude::*;
use crate::text::views;

verus! {

#[derive(Debug)]
pub struct FileSystemState {
    state: Option<String>,
    index: Vec<String>,
    current_path: String,
}

/// The names kept by `index_current_directory`: each representable name, in
/// listing order.
pub open spec fn kept_names(listing: Seq<Option<String>>) -> Seq<Seq<char>>
    decreases listing.len(),
{
    if listing.len() == 0 {
        Seq::empty()
    } else {
        let rest = kept_names(listing.drop_last());
        match listing.last() {
            Some(n) => rest.push(n@),
            None => rest,
        }
    }
}

impl FileSystemState {
    /// The selected file, if any.
    pub closed spec fn state_spec(&self) -> Option<Seq<char>> {
        match self.state {
            Some(s) => Some(s@),
            None => None,
        }
    }

    /// The current directory.
    pub closed spec fn path_spec(&self) -> Seq<char> {
        self.current_path@
    }

    /// The names indexed in the current directory.
    pub closed spec fn index_spec(&self) -> Seq<Seq<char>> {
        views(self.index@)
    }

    /// A state rooted at `current_path`, with nothing selected or indexed.
    pub fn with_path(current_path: String) -> (r: Self)
        ensures
            r.path_spec() == current_path@,
            r.state_spec() is None,
            r.index_spec().len() == 0,
    {
        let r = FileSystemState { state: None, index: Vec::new(), current_path };
        assert(views(r.index@) =~= Seq::<Seq<char>>::empty());
        r
    }

    pub fn get_current_state(&self) -> (r: &Option<String>)
        ensures
            r is Some <==> self.state_spec() is Some,
            r is Some ==> self.state_spec() == Some(r->0@),
    {
        &self.state
    }

    pub fn get_current_path(&self) -> (r: &String)
        ensures
            r@ == self.path_spec(),
    {
        &self.current_path
    }

    pub fn get_all_indexed(&self) -> (r: &Vec<String>)
        ensures
            views(r@) == self.index_spec(),
    {
        &self.index
    }

    pub fn set_index(&mut self, index: Vec<String>)
        ensures
            final(self).index_spec() == views(index@),
            final(self).state_spec() == old(self).state_spec(),
            final(self).path_spec() == old(self).path_spec(),
    {
        self.index = index;
    }

    pub fn clear_index(&mut self)
        ensures
            final(self).index_spec().len() == 0,
            final(self).state_spec() == old(self).state_spec(),
            final(self).path_spec() == old(self).path_spec(),
    {
        self.index.clear();
        assert(views(self.index@) =~= Seq::<Seq<char>>::empty());
    }

    pub fn set_current_state(&mut self, new_path: String)
        ensures
            final(self).state_spec() == Some(new_path@),
            final(self).index_spec() == old(self).index_spec(),
            final(self).path_spec() == old(self).path_spec(),
    {
        self.state = Some(new_path);
    }

    /// Records a directory change that has already taken place; the index
    /// of the old directory is dropped.
    pub fn set_current_path(&mut self, new_path: String)
        ensures
            final(self).path_spec() == new_path@,
            final(self).index_spec().len() == 0,
            final(self).state_spec() == old(self).state_spec(),
    {
        self.current_path = new_path;
        self.clear_index();
    }

    pub fn clear_state(&mut self)
        ensures
            final(self).state_spec() is None,
            final(self).index_spec() == old(self).index_spec(),
            final(self).path_spec() == old(self).path_spec(),
    {
        self.state = None;
    }
}

/// Replaces the index with the names of a directory listing; names that are
/// not valid Unicode (`None`) are left out.
pub fn index_current_directory(file_system_state: &mut FileSystemState, listing: Vec<Option<String>>)
    ensures
        final(file_system_state).index_spec() == kept_names(listing@),
        final(file_system_state).state_spec() == old(file_system_state).state_spec(),
        final(file_system_state).path_spec() == old(file_system_state).path_spec(),
{
    let mut index: Vec<String> = Vec::new();
    let mut i: usize = 0;
    while i < listing.len()
        invariant
            i <= listing@.len(),
            views(index@) == kept_names(listing@.subrange(0, i as int)),
        decreases listing@.len() - i,
    {
        let ghost before = index@;
        match &listing[i] {
            Some(name) => {
                index.push(name.clone());
                assert(views(index@) =~= views(before).push(name@));
            },
            None => {},
        }
        assert(listing@.subrange(0, i + 1).drop_last() =~= listing@.subrange(0, i as int));
        i += 1;
    }
    assert(listing@.subrange(0, i as int) =~= listing@);
    file_system_state.set_index(index);
}

} // verus!
