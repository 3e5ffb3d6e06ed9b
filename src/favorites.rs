//! Favourite files: a short list of paths, each under a unique alias.
//! Persisting the list is left to the caller.

use vstd::prelude::*;
use crate::text::digits_of;

verus! {

/// How many favourites the list holds at most.
pub const MAX_FAVORITES: usize = 10;

#[derive(Debug)]
pub struct Favorite {
    alias_name: String,
    path: String,
}

pub struct FavoriteView {
    pub alias_name: Seq<char>,
    pub path: Seq<char>,
}

impl View for Favorite {
    type V = FavoriteView;

    closed spec fn view(&self) -> FavoriteView {
        FavoriteView { alias_name: self.alias_name@, path: self.path@ }
    }
}

pub open spec fn favorite_views(s: Seq<Favorite>) -> Seq<FavoriteView> {
    s.map_values(|f: Favorite| f@)
}

/// Relies on `Path::file_name` and `OsStr::to_str`: the last component of a
/// path, when there is one and it is valid Unicode.
#[verifier::external_body]
fn file_name_of(path: &str) -> (r: Option<String>) {
    std::path::Path::new(path).file_name().and_then(|n| n.to_str()).map(|n| n.to_string())
}

impl Favorite {
    pub fn new(alias_name: String, path: String) -> (r: Favorite)
        ensures
            r@ == (FavoriteView { alias_name: alias_name@, path: path@ }),
    {
        Favorite { alias_name, path }
    }

    pub fn get_alias_name(&self) -> (r: &str)
        ensures
            r@ == self@.alias_name,
    {
        self.alias_name.as_str()
    }

    pub fn get_path(&self) -> (r: &String)
        ensures
            r@ == self@.path,
    {
        &self.path
    }

    /// A favourite for `path` whose alias is the path's file name, or
    /// `unknown` when it has none.
    pub fn with_file_name(path: String, file_name: Option<String>) -> (r: Favorite)
        ensures
            r@.path == path@,
            file_name matches Some(n) ==> r@.alias_name == n@,
            file_name is None ==> r@.alias_name == "unknown"@,
    {
        let alias_name = match file_name {
            Some(n) => n,
            None => String::from_str("unknown"),
        };
        Favorite { alias_name, path }
    }

    /// A favourite for `path`, aliased by its file name.
    pub fn from(path: String) -> (r: Favorite)
        ensures
            r@.path == path@,
    {
        let name = file_name_of(path.as_str());
        Self::with_file_name(path, name)
    }
}

#[derive(Debug)]
pub struct FavoritesManager {
    favorites: Vec<Favorite>,
    file_path: String,
}

/// The list holds a favourite with this alias.
pub open spec fn has_alias(favs: Seq<FavoriteView>, alias: Seq<char>) -> bool {
    exists|i: int| 0 <= i < favs.len() && (#[trigger] favs[i]).alias_name == alias
}

impl FavoritesManager {
    pub closed spec fn favorites_spec(&self) -> Seq<FavoriteView> {
        favorite_views(self.favorites@)
    }

    pub closed spec fn file_path_spec(&self) -> Seq<char> {
        self.file_path@
    }

    /// A manager for the list stored at `file_path`, holding `favorites`.
    pub fn with_favorites(file_path: String, favorites: Vec<Favorite>) -> (r: Self)
        ensures
            r.favorites_spec() == favorite_views(favorites@),
            r.file_path_spec() == file_path@,
    {
        FavoritesManager { favorites, file_path }
    }

    pub fn file_path(&self) -> (r: &String)
        ensures
            r@ == self.file_path_spec(),
    {
        &self.file_path
    }

    /// Appends `favorite` unless its alias is taken.
    pub fn add(&mut self, favorite: Favorite) -> (r: Result<(), String>)
        ensures
            final(self).file_path_spec() == old(self).file_path_spec(),
            has_alias(old(self).favorites_spec(), favorite@.alias_name) ==> r is Err
                && final(self).favorites_spec() == old(self).favorites_spec()
                && r->Err_0@ == "Favorite with alias '"@ + favorite@.alias_name + "' already exists"@,
            !has_alias(old(self).favorites_spec(), favorite@.alias_name) ==> r is Ok
                && final(self).favorites_spec() == old(self).favorites_spec().push(favorite@),
    {
        let ghost fv = favorite_views(self.favorites@);
        let mut i: usize = 0;
        while i < self.favorites.len()
            invariant
                i <= self.favorites@.len(),
                fv == favorite_views(self.favorites@),
                forall|k: int| 0 <= k < i ==> (#[trigger] fv[k]).alias_name != favorite@.alias_name,
            decreases self.favorites@.len() - i,
        {
            if self.favorites[i].alias_name == favorite.alias_name {
                assert(fv[i as int].alias_name == favorite@.alias_name);
                let mut msg = String::from_str("Favorite with alias '");
                msg.append(favorite.alias_name.as_str());
                msg.append("' already exists");
                return Err(msg);
            }
            i += 1;
        }
        self.favorites.push(favorite);
        assert(favorite_views(self.favorites@) =~= fv.push(favorite@));
        Ok(())
    }

    /// Removes the favourite at `index`; an index past the end or past the
    /// list's capacity is refused.
    pub fn remove(&mut self, index: usize) -> (r: Result<(), String>)
        ensures
            final(self).file_path_spec() == old(self).file_path_spec(),
            (index >= old(self).favorites_spec().len() || index > MAX_FAVORITES) ==> r is Err
                && final(self).favorites_spec() == old(self).favorites_spec()
                && r->Err_0@ == "Index out of range: "@ + digits_of(index as nat),
            !(index >= old(self).favorites_spec().len() || index > MAX_FAVORITES) ==> r is Ok
                && final(self).favorites_spec() == old(self).favorites_spec().remove(index as int),
    {
        if index >= self.favorites.len() || index > MAX_FAVORITES {
            let mut msg = String::from_str("Index out of range: ");
            let digits = crate::text::decimal(index);
            msg.append(digits.as_str());
            return Err(msg);
        }
        let ghost fv = favorite_views(self.favorites@);
        self.favorites.remove(index);
        assert(favorite_views(self.favorites@) =~= fv.remove(index as int));
        Ok(())
    }

    pub fn get_all(&self) -> (r: &Vec<Favorite>)
        ensures
            favorite_views(r@) == self.favorites_spec(),
    {
        &self.favorites
    }

    pub fn get_by_index(&self, index: usize) -> (r: Option<&Favorite>)
        ensures
            index < self.favorites_spec().len() ==> (r matches Some(f) && f@ == self.favorites_spec()[index as int]),
            index >= self.favorites_spec().len() ==> r is None,
    {
        if index < self.favorites.len() {
            Some(&self.favorites[index])
        } else {
            None
        }
    }

    pub fn len(&self) -> (r: usize)
        ensures
            r == self.favorites_spec().len(),
    {
        self.favorites.len()
    }

    pub fn is_empty(&self) -> (r: bool)
        ensures
            r == (self.favorites_spec().len() == 0),
    {
        self.favorites.len() == 0
    }

    /// Whether the list has reached its capacity.
    pub fn is_full(&self) -> (r: bool)
        ensures
            r == (self.favorites_spec().len() >= MAX_FAVORITES),
    {
        self.favorites.len() >= MAX_FAVORITES
    }
}

} // verus!
