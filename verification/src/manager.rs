use crate::error::{ErrorModel, StoreError};
use crate::languages::{insert_sorted, strictly_sorted_by, texts};
use crate::model::text_view;
use crate::ordered_map::OrderedMap;
use crate::text::to_chars;
use crate::value::copy_text;
use vstd::prelude::*;

verus! {

/// The path that a request for a store names.
#[derive(Debug, Clone)]
pub enum PathRequest {
    /// A path given by the caller: taken as it is when it is absolute, else
    /// relative to the search root.
    Given(String),
    /// The default path of the registry.
    Default(String),
}

/// The mathematical value of a [`PathRequest`].
pub enum PathRequestModel {
    Given(Seq<char>),
    Default(Seq<char>),
}

impl View for PathRequest {
    type V = PathRequestModel;

    open spec fn view(&self) -> PathRequestModel {
        match *self {
            PathRequest::Given(p) => PathRequestModel::Given(p@),
            PathRequest::Default(p) => PathRequestModel::Default(p@),
        }
    }
}

/// The registry of the stores of a process: at most one store for each file,
/// found by the canonical path of the file, and the list of the catalog files
/// that were discovered below the search root.
///
/// `S` is what the owner of the registry keeps for a store.
#[derive(Debug)]
pub struct XcStringsStoreManager<S> {
    default_path: Option<String>,
    search_root: String,
    stores: OrderedMap<S>,
    discovered_paths: Vec<String>,
}

/// A letter of the alphabet in lower case where it is an upper-case ASCII
/// letter; any other character unchanged.
pub open spec fn ascii_lower(c: char) -> char {
    if 'A' <= c && c <= 'Z' {
        ((c as u8) + 32) as char
    } else {
        c
    }
}

/// Whether two texts are equal once their ASCII letters are in lower case.
pub open spec fn equal_ignoring_ascii_case(a: Seq<char>, b: Seq<char>) -> bool {
    &&& a.len() == b.len()
    &&& forall|i: int| 0 <= i < a.len() ==> ascii_lower(#[trigger] a[i]) == ascii_lower(b[i])
}

/// The directories that a search for catalogs does not enter: build output,
/// version control and installed packages.
pub open spec fn is_skipped_name(name: Seq<char>) -> bool {
    ||| equal_ignoring_ascii_case(name, "target"@)
    ||| equal_ignoring_ascii_case(name, ".git"@)
    ||| equal_ignoring_ascii_case(name, "node_modules"@)
}

fn lower(c: char) -> (r: char)
    ensures
        r == ascii_lower(c),
{
    if 'A' <= c && c <= 'Z' {
        ((c as u8) + 32) as char
    } else {
        c
    }
}

/// Whether two strings are equal without regard to the case of ASCII letters.
pub fn eq_ignore_ascii_case(a: &str, b: &str) -> (r: bool)
    ensures
        r == equal_ignoring_ascii_case(a@, b@),
{
    let x = to_chars(a);
    let y = to_chars(b);
    if x.len() != y.len() {
        return false;
    }
    let mut i: usize = 0;
    while i < x.len()
        invariant
            x@ == a@,
            y@ == b@,
            x@.len() == y@.len(),
            i <= x@.len(),
            forall|j: int| 0 <= j < i ==> ascii_lower(#[trigger] x@[j]) == ascii_lower(y@[j]),
        decreases x@.len() - i,
    {
        if lower(x[i]) != lower(y[i]) {
            return false;
        }
        i += 1;
    }
    true
}

/// Whether a search for catalogs skips a directory of this name.
pub fn is_skipped_directory(name: &str) -> (r: bool)
    ensures
        r == is_skipped_name(name@),
{
    eq_ignore_ascii_case(name, "target") || eq_ignore_ascii_case(name, ".git")
        || eq_ignore_ascii_case(name, "node_modules")
}

/// Whether a file with this extension is a catalog: the extension is
/// `xcstrings`, in any case.
pub fn is_catalog_extension(extension: &str) -> (r: bool)
    ensures
        r == equal_ignoring_ascii_case(extension@, "xcstrings"@),
{
    eq_ignore_ascii_case(extension, "xcstrings")
}

/// The list of the paths that were found, and of the default path where
/// there is one: each once, in the order of paths (see
/// [`crate::text::path_less`]).
pub open spec fn is_path_list(
    list: Seq<Seq<char>>,
    found: Seq<Seq<char>>,
    default_path: Option<Seq<char>>,
) -> bool {
    &&& strictly_sorted_by(list, true)
    &&& forall|p: Seq<char>| list.contains(p) <==> (found.contains(p) || default_path == Some(p))
}

/// A copy of a list of strings.
pub fn copy_list(list: &Vec<String>) -> (r: Vec<String>)
    ensures
        texts(r@) == texts(list@),
{
    let mut r: Vec<String> = Vec::new();
    let mut i: usize = 0;
    while i < list.len()
        invariant
            i <= list@.len(),
            texts(r@) == texts(list@).take(i as int),
        decreases list@.len() - i,
    {
        let ghost before = texts(r@);
        let s = list[i].clone();
        r.push(s);
        assert(texts(r@) =~= before.push(texts(list@)[i as int]));
        i += 1;
        assert(texts(r@) =~= texts(list@).take(i as int));
    }
    assert(texts(list@).take(list@.len() as int) =~= texts(list@));
    r
}

impl<S> XcStringsStoreManager<S> {
    /// The default path, where the registry has one.
    pub closed spec fn default_path_text(&self) -> Option<Seq<char>> {
        text_view(self.default_path)
    }

    /// The directory below which catalogs are searched and relative paths resolved.
    pub closed spec fn search_root_text(&self) -> Seq<char> {
        self.search_root@
    }

    /// The canonical paths of the files that have a store, in the order in
    /// which the stores were made.
    pub closed spec fn store_paths(&self) -> Seq<Seq<char>> {
        self.stores.keys()
    }

    /// The stores, each at the place of its path.
    pub closed spec fn store_values(&self) -> Seq<S> {
        self.stores.values()
    }

    /// The catalog files that were discovered last.
    pub closed spec fn discovered(&self) -> Seq<Seq<char>> {
        texts(self.discovered_paths@)
    }

    /// A registry without stores. `default_path` is the absolute path of the
    /// default file, `search_root` the directory that holds it, or the
    /// working directory where there is no default file.
    pub fn new(default_path: Option<String>, search_root: String) -> (manager: Self)
        ensures
            manager.default_path_text() == text_view(default_path),
            manager.search_root_text() == search_root@,
            manager.store_paths().len() == 0,
            manager.discovered().len() == 0,
    {
        let manager = XcStringsStoreManager {
            default_path,
            search_root,
            stores: OrderedMap::new(),
            discovered_paths: Vec::new(),
        };
        assert(texts(manager.discovered_paths@) =~= Seq::empty());
        manager
    }

    pub fn default_path(&self) -> (r: Option<String>)
        ensures
            text_view(r) == self.default_path_text(),
    {
        copy_text(&self.default_path)
    }

    pub fn search_root(&self) -> (r: &str)
        ensures
            r@ == self.search_root_text(),
    {
        self.search_root.as_str()
    }

    /// The catalog files that were discovered last.
    pub fn available_paths(&self) -> (r: Vec<String>)
        ensures
            texts(r@) == self.discovered(),
    {
        copy_list(&self.discovered_paths)
    }

    /// Replaces the list of discovered files: `found` holds the canonical
    /// paths of the catalog files below the search root, `default_path` the
    /// canonical default path. The new list holds each of them once, in the
    /// order of paths, and is returned.
    pub fn refresh_discovered_paths(&mut self, found: Vec<String>, default_path: Option<String>) -> (r:
        Vec<String>)
        ensures
            is_path_list(texts(r@), texts(found@), text_view(default_path)),
            final(self).discovered() == texts(r@),
            final(self).default_path_text() == old(self).default_path_text(),
            final(self).search_root_text() == old(self).search_root_text(),
            final(self).store_paths() == old(self).store_paths(),
            final(self).store_values() == old(self).store_values(),
    {
        let mut list: Vec<String> = Vec::new();
        let mut i: usize = 0;
        assert forall|p: Seq<char>| texts(list@).contains(p) <==> texts(found@).take(0).contains(
            p,
        ) by {
            assert(texts(list@).len() == 0);
            assert(texts(found@).take(0).len() == 0);
        }
        while i < found.len()
            invariant
                i <= found@.len(),
                strictly_sorted_by(texts(list@), true),
                forall|p: Seq<char>|
                    texts(list@).contains(p) <==> texts(found@).take(i as int).contains(p),
            decreases found@.len() - i,
        {
            insert_sorted(&mut list, found[i].as_str(), true);
            i += 1;
            proof {
                let now = texts(found@).take(i as int);
                let was = texts(found@).take(i - 1);
                assert forall|p: Seq<char>| texts(list@).contains(p) <==> now.contains(p) by {
                    if now.contains(p) {
                        let k = choose|k: int| 0 <= k < now.len() && now[k] == p;
                        if k < i - 1 {
                            assert(was[k] == p);
                        }
                    }
                    if was.contains(p) {
                        let k = choose|k: int| 0 <= k < was.len() && was[k] == p;
                        assert(now[k] == p);
                    }
                    if p == found@[i - 1]@ {
                        assert(now[i - 1] == p);
                    }
                }
            }
        }
        assert(texts(found@).take(found@.len() as int) =~= texts(found@));
        match &default_path {
            Some(p) => {
                insert_sorted(&mut list, p.as_str(), true);
            },
            None => {},
        }
        self.discovered_paths = copy_list(&list);
        list
    }

    /// The path that a request for a store names: the given path, or the
    /// default path where none is given. Fails with `PathRequired` exactly
    /// where no path is given and the registry has no default path.
    pub fn resolve_path(&self, path: Option<&str>) -> (r: Result<PathRequest, StoreError>)
        ensures
            match r {
                Ok(request) => request@ == (match path {
                    Some(p) => PathRequestModel::Given(p@),
                    None => PathRequestModel::Default(self.default_path_text()->0),
                }) && (path is Some || self.default_path_text() is Some),
                Err(e) => path is None && self.default_path_text() is None && e@
                    == ErrorModel::PathRequired,
            },
    {
        match path {
            Some(p) => Ok(PathRequest::Given(p.to_owned())),
            None => match &self.default_path {
                Some(d) => Ok(PathRequest::Default(d.clone())),
                None => Err(StoreError::PathRequired),
            },
        }
    }

    /// The request for the default store: see [`Self::resolve_path`].
    pub fn default_store(&self) -> (r: Result<PathRequest, StoreError>)
        ensures
            match r {
                Ok(request) => self.default_path_text() is Some && request@
                    == PathRequestModel::Default(self.default_path_text()->0),
                Err(e) => self.default_path_text() is None && e@ == ErrorModel::PathRequired,
            },
    {
        self.resolve_path(None)
    }

    /// The store of the file with this canonical path, where the registry has one.
    pub fn store_for(&self, canonical_path: &str) -> (r: Option<&S>)
        ensures
            match r {
                Some(s) => self.store_paths().contains(canonical_path@) && *s
                    == self.store_values()[self.store_paths().index_of(canonical_path@)],
                None => !self.store_paths().contains(canonical_path@),
            },
            self.store_paths().no_duplicates(),
            self.store_paths().len() == self.store_values().len(),
    {
        self.stores.get(canonical_path)
    }

    /// Keeps a store for the file with this canonical path, unless the
    /// registry has one: then that one stays and `store` is dropped. Returns
    /// the position of the store that the registry now has for the path.
    pub fn insert_store(&mut self, canonical_path: String, store: S) -> (i: usize)
        ensures
            final(self).store_paths().no_duplicates(),
            final(self).store_paths().len() == final(self).store_values().len(),
            i < final(self).store_paths().len(),
            final(self).store_paths()[i as int] == canonical_path@,
            old(self).store_paths().contains(canonical_path@) ==> final(self).store_paths() == old(
                self,
            ).store_paths() && final(self).store_values() == old(self).store_values(),
            !old(self).store_paths().contains(canonical_path@) ==> final(self).store_paths()
                == old(self).store_paths().push(canonical_path@) && final(self).store_values()
                == old(self).store_values().push(store),
            final(self).default_path_text() == old(self).default_path_text(),
            final(self).search_root_text() == old(self).search_root_text(),
            final(self).discovered() == old(self).discovered(),
    {
        match self.stores.index_of(canonical_path.as_str()) {
            Some(i) => i,
            None => {
                let n = self.stores.len();
                self.stores.insert(canonical_path, store);
                n
            },
        }
    }

    /// The store at a position.
    pub fn store_at(&self, i: usize) -> (s: &S)
        requires
            i < self.store_values().len(),
        ensures
            *s == self.store_values()[i as int],
    {
        self.stores.value_at(i)
    }

    /// The number of stores.
    pub fn store_count(&self) -> (n: usize)
        ensures
            n == self.store_values().len(),
    {
        self.stores.len()
    }
}

} // verus!
