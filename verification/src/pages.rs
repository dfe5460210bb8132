use vstd::prelude::*;
use crate::errors::StorageError;
use crate::records::{page_json_views, PageJson, PageJsonV, PageRow, PageV};
use crate::store::{
    has_page, lemma_filter_empty, lemma_filter_take_step, lemma_page_index_unique, page_at,
    page_ids_unique, page_index, Database,
};

verus! {

use crate::blocks::record_id;

/// The stored row a create operation derives from a page wire record.
pub open spec fn stored_page(p: PageJsonV, id: Seq<char>) -> PageV {
    PageV {
        id: id,
        path: p.path,
        title: p.title,
        cache: p.cache,
        created_at: p.created_at,
        updated_at: p.updated_at,
    }
}

/// A full page update: path, title, cache and updated-at replaced;
/// identity and created-at kept.
pub open spec fn page_full_update(p: PageV, j: PageJsonV) -> PageV {
    PageV { path: j.path, title: j.title, cache: j.cache, updated_at: j.updated_at, ..p }
}

/// A path move: only the path changes.
pub open spec fn page_with_path(p: PageV, path: Seq<char>) -> PageV {
    PageV { path: path, ..p }
}

/// A retitle: only the title changes.
pub open spec fn page_with_title(p: PageV, title: Seq<char>) -> PageV {
    PageV { title: title, ..p }
}

/// A cache rewrite: only the cache blob changes.
pub open spec fn page_with_cache(p: PageV, cache: Seq<char>) -> PageV {
    PageV { cache: cache, ..p }
}

/// A timestamp touch: only updated-at changes.
pub open spec fn page_with_updated_at(p: PageV, updated_at: i64) -> PageV {
    PageV { updated_at: updated_at, ..p }
}

/// The rows sharing one path: the selection a path read returns.
pub open spec fn at_path(path: Seq<char>) -> spec_fn(PageV) -> bool {
    |p: PageV| p.path == path
}

/// The wire record a path listing shows for a stored page: the cache blob
/// is deliberately suppressed, so list reads never ship large opaque
/// blobs; only the targeted cache read returns the real one.
pub open spec fn page_row_as_listing(p: PageV) -> PageJsonV {
    PageJsonV {
        id: Some(p.id),
        path: p.path,
        title: p.title,
        cache: Seq::empty(),
        created_at: p.created_at,
        updated_at: p.updated_at,
    }
}

/// The listing records of a sequence of stored page rows.
pub open spec fn page_rows_as_listing(s: Seq<PageV>) -> Seq<PageJsonV> {
    s.map_values(|p: PageV| page_row_as_listing(p))
}

/// Replacing a row by one with the same identifier preserves uniqueness.
proof fn lemma_page_update_unique(pages: Seq<PageV>, i: int, p: PageV)
    requires
        page_ids_unique(pages),
        0 <= i < pages.len(),
        p.id == pages[i].id,
    ensures
        page_ids_unique(pages.update(i, p)),
{
}

/// Removing a row preserves uniqueness.
proof fn lemma_page_remove_unique(pages: Seq<PageV>, i: int)
    requires
        page_ids_unique(pages),
        0 <= i < pages.len(),
    ensures
        page_ids_unique(pages.remove(i)),
{
    pages.remove_ensures(i);
    assert forall|a: int, c: int|
        0 <= a < c < pages.remove(i).len() implies (#[trigger] pages.remove(i)[a]).id != (
    #[trigger] pages.remove(i)[c]).id by {
        let a0 = if a < i { a } else { a + 1 };
        let c0 = if c < i { c } else { c + 1 };
        assert(pages.remove(i)[a] == pages[a0]);
        assert(pages.remove(i)[c] == pages[c0]);
    }
}

impl Database {
    /// Create a page: append the row and return the assigned identifier.
    /// Refused with `WriteError` exactly when the record carries no
    /// identifier or the identifier is already taken — page identifiers
    /// are externally supplied and unique.
    pub fn new_page(&mut self, page: &PageJson) -> (r: Result<String, StorageError>)
        requires
            old(self).wf(),
        ensures
            final(self).wf(),
            final(self)@.blocs == old(self)@.blocs,
            final(self)@.props == old(self)@.props,
            match r {
                Ok(id) => {
                    &&& page@.id == Some(id@)
                    &&& !has_page(old(self)@, id@)
                    &&& final(self)@.pages == old(self)@.pages.push(stored_page(page@, id@))
                },
                Err(e) => {
                    &&& e == StorageError::WriteError
                    &&& (page@.id is None || has_page(old(self)@, record_id(page@.id)))
                    &&& final(self)@ == old(self)@
                },
            },
    {
        match &page.id {
            None => Err(StorageError::WriteError),
            Some(id) => {
                match self.find_page(id) {
                    Some(_) => {
                        proof {
                            assert(has_page(self@, id@));
                        }
                        Err(StorageError::WriteError)
                    },
                    None => {
                        let row = PageRow {
                            id: id.clone(),
                            path: page.path.clone(),
                            title: page.title.clone(),
                            cache: page.cache.clone(),
                            created_at: page.created_at,
                            updated_at: page.updated_at,
                        };
                        proof {
                            assert(row@ == stored_page(page@, id@));
                        }
                        self.push_page(row);
                        proof {
                            let pages = self@.pages;
                            let prev = old(self)@.pages;
                            assert forall|a: int, c: int|
                                0 <= a < c < pages.len() implies (#[trigger] pages[a]).id != (
                            #[trigger] pages[c]).id by {
                                if c < prev.len() {
                                } else {
                                    assert(pages[c].id == id@);
                                    assert(prev[a].id != id@);
                                }
                            }
                        }
                        Ok(id.clone())
                    },
                }
            },
        }
    }

    /// Full page update: replace path, title, cache and updated-at.
    /// Returns whether a row was affected; a record without an identifier,
    /// or with an unknown one, affects nothing and is not an error.
    pub fn update_page(&mut self, page: &PageJson) -> (r: Result<bool, StorageError>)
        requires
            old(self).wf(),
        ensures
            final(self).wf(),
            final(self)@.blocs == old(self)@.blocs,
            final(self)@.props == old(self)@.props,
            match r {
                Ok(b) => {
                    &&& b == (page@.id is Some && has_page(old(self)@, record_id(page@.id)))
                    &&& (b ==> final(self)@.pages == old(self)@.pages.update(
                        page_index(old(self)@, record_id(page@.id)),
                        page_full_update(page_at(old(self)@, record_id(page@.id)), page@),
                    ))
                    &&& (!b ==> final(self)@ == old(self)@)
                },
                Err(_) => false,
            },
    {
        match &page.id {
            None => Ok(false),
            Some(id) => {
                match self.find_page(id) {
                    None => Ok(false),
                    Some(i) => {
                        proof {
                            lemma_page_index_unique(self@, id@, i as int);
                        }
                        let mut row = self.remove_page_at(i);
                        row.path = page.path.clone();
                        row.title = page.title.clone();
                        row.cache = page.cache.clone();
                        row.updated_at = page.updated_at;
                        self.insert_page_at(i, row);
                        proof {
                            assert(self@.pages =~= old(self)@.pages.update(i as int, row@));
                            lemma_page_update_unique(old(self)@.pages, i as int, row@);
                        }
                        Ok(true)
                    },
                }
            },
        }
    }

    /// Move a page: rewrite only its path. Returns whether a row was
    /// affected.
    pub fn update_page_path(&mut self, id: String, path: String) -> (r: Result<bool, StorageError>)
        requires
            old(self).wf(),
        ensures
            final(self).wf(),
            final(self)@.blocs == old(self)@.blocs,
            final(self)@.props == old(self)@.props,
            match r {
                Ok(b) => {
                    &&& b == has_page(old(self)@, id@)
                    &&& (b ==> final(self)@.pages == old(self)@.pages.update(
                        page_index(old(self)@, id@),
                        page_with_path(page_at(old(self)@, id@), path@),
                    ))
                    &&& (!b ==> final(self)@ == old(self)@)
                },
                Err(_) => false,
            },
    {
        match self.find_page(&id) {
            None => Ok(false),
            Some(i) => {
                proof {
                    lemma_page_index_unique(self@, id@, i as int);
                }
                let mut row = self.remove_page_at(i);
                row.path = path;
                self.insert_page_at(i, row);
                proof {
                    assert(self@.pages =~= old(self)@.pages.update(i as int, row@));
                    lemma_page_update_unique(old(self)@.pages, i as int, row@);
                }
                Ok(true)
            },
        }
    }

    /// Retitle a page. Returns whether a row was affected.
    pub fn update_page_title(&mut self, id: String, title: String) -> (r: Result<
        bool,
        StorageError,
    >)
        requires
            old(self).wf(),
        ensures
            final(self).wf(),
            final(self)@.blocs == old(self)@.blocs,
            final(self)@.props == old(self)@.props,
            match r {
                Ok(b) => {
                    &&& b == has_page(old(self)@, id@)
                    &&& (b ==> final(self)@.pages == old(self)@.pages.update(
                        page_index(old(self)@, id@),
                        page_with_title(page_at(old(self)@, id@), title@),
                    ))
                    &&& (!b ==> final(self)@ == old(self)@)
                },
                Err(_) => false,
            },
    {
        match self.find_page(&id) {
            None => Ok(false),
            Some(i) => {
                proof {
                    lemma_page_index_unique(self@, id@, i as int);
                }
                let mut row = self.remove_page_at(i);
                row.title = title;
                self.insert_page_at(i, row);
                proof {
                    assert(self@.pages =~= old(self)@.pages.update(i as int, row@));
                    lemma_page_update_unique(old(self)@.pages, i as int, row@);
                }
                Ok(true)
            },
        }
    }

    /// Rewrite a page's cache blob. The blob is write-only from the
    /// engine's perspective: it is stored, never inspected. Returns
    /// whether a row was affected.
    pub fn update_page_cache(&mut self, id: String, cache: String) -> (r: Result<
        bool,
        StorageError,
    >)
        requires
            old(self).wf(),
        ensures
            final(self).wf(),
            final(self)@.blocs == old(self)@.blocs,
            final(self)@.props == old(self)@.props,
            match r {
                Ok(b) => {
                    &&& b == has_page(old(self)@, id@)
                    &&& (b ==> final(self)@.pages == old(self)@.pages.update(
                        page_index(old(self)@, id@),
                        page_with_cache(page_at(old(self)@, id@), cache@),
                    ))
                    &&& (!b ==> final(self)@ == old(self)@)
                },
                Err(_) => false,
            },
    {
        match self.find_page(&id) {
            None => Ok(false),
            Some(i) => {
                proof {
                    lemma_page_index_unique(self@, id@, i as int);
                }
                let mut row = self.remove_page_at(i);
                row.cache = cache;
                self.insert_page_at(i, row);
                proof {
                    assert(self@.pages =~= old(self)@.pages.update(i as int, row@));
                    lemma_page_update_unique(old(self)@.pages, i as int, row@);
                }
                Ok(true)
            },
        }
    }

    /// Read a page's real cache blob. An unknown identifier is a failure.
    pub fn get_page_cache(&self, id: String) -> (r: Result<String, StorageError>)
        requires
            self.wf(),
        ensures
            match r {
                Ok(cache) => has_page(self@, id@) && cache@ == page_at(self@, id@).cache,
                Err(e) => e == StorageError::NotFound && !has_page(self@, id@),
            },
    {
        match self.find_page(&id) {
            None => Err(StorageError::NotFound),
            Some(i) => {
                proof {
                    lemma_page_index_unique(self@, id@, i as int);
                }
                Ok(self.page_ref(i).cache.clone())
            },
        }
    }

    /// Touch a page's updated-at timestamp, used before leaving a page
    /// that saw a modification. Returns whether a row was affected.
    pub fn update_page_updated_at(&mut self, id: String, updated_at: i64) -> (r: Result<
        bool,
        StorageError,
    >)
        requires
            old(self).wf(),
        ensures
            final(self).wf(),
            final(self)@.blocs == old(self)@.blocs,
            final(self)@.props == old(self)@.props,
            match r {
                Ok(b) => {
                    &&& b == has_page(old(self)@, id@)
                    &&& (b ==> final(self)@.pages == old(self)@.pages.update(
                        page_index(old(self)@, id@),
                        page_with_updated_at(page_at(old(self)@, id@), updated_at),
                    ))
                    &&& (!b ==> final(self)@ == old(self)@)
                },
                Err(_) => false,
            },
    {
        match self.find_page(&id) {
            None => Ok(false),
            Some(i) => {
                proof {
                    lemma_page_index_unique(self@, id@, i as int);
                }
                let mut row = self.remove_page_at(i);
                row.updated_at = updated_at;
                self.insert_page_at(i, row);
                proof {
                    assert(self@.pages =~= old(self)@.pages.update(i as int, row@));
                    lemma_page_update_unique(old(self)@.pages, i as int, row@);
                }
                Ok(true)
            },
        }
    }

    /// Delete one page row. Returns whether a row was affected. The
    /// page's blocks are not touched: removing them is the caller's
    /// explicit follow-up bulk delete.
    pub fn delete_page(&mut self, id: String) -> (r: Result<bool, StorageError>)
        requires
            old(self).wf(),
        ensures
            final(self).wf(),
            final(self)@.blocs == old(self)@.blocs,
            final(self)@.props == old(self)@.props,
            match r {
                Ok(b) => {
                    &&& b == has_page(old(self)@, id@)
                    &&& (b ==> final(self)@.pages == old(self)@.pages.remove(
                        page_index(old(self)@, id@),
                    ))
                    &&& (!b ==> final(self)@ == old(self)@)
                },
                Err(_) => false,
            },
    {
        match self.find_page(&id) {
            None => Ok(false),
            Some(i) => {
                proof {
                    lemma_page_index_unique(self@, id@, i as int);
                }
                let _row = self.remove_page_at(i);
                proof {
                    lemma_page_remove_unique(old(self)@.pages, i as int);
                }
                Ok(true)
            },
        }
    }

    /// Read all pages at a path, in table order. Paths are not unique, so
    /// this is a collection read: no match yields an empty sequence, not
    /// an error. Each record shows an empty cache placeholder.
    pub fn get_pages_by_path(&self, path: String) -> (r: Result<Vec<PageJson>, StorageError>)
        ensures
            match r {
                Ok(v) => page_json_views(v@) == page_rows_as_listing(
                    self@.pages.filter(at_path(path@)),
                ),
                Err(_) => false,
            },
    {
        let n = self.pages_len();
        let mut out: Vec<PageJson> = Vec::new();
        let mut i: usize = 0;
        proof {
            lemma_filter_empty(at_path(path@));
            assert(self@.pages.subrange(0, 0) =~= Seq::<PageV>::empty());
            assert(page_json_views(out@) =~= page_rows_as_listing(Seq::<PageV>::empty()));
        }
        while i < n
            invariant
                i <= n,
                n == self@.pages.len(),
                page_json_views(out@) == page_rows_as_listing(
                    self@.pages.subrange(0, i as int).filter(at_path(path@)),
                ),
            decreases n - i,
        {
            let ghost pre = self@.pages.subrange(0, i as int).filter(at_path(path@));
            let ghost out0 = out@;
            let row = self.page_ref(i);
            if row.path == path {
                let pj = PageJson {
                    id: Some(row.id.clone()),
                    path: row.path.clone(),
                    title: row.title.clone(),
                    cache: String::new(),
                    created_at: row.created_at,
                    updated_at: row.updated_at,
                };
                proof {
                    assert(pj@ == page_row_as_listing(self@.pages[i as int]));
                }
                out.push(pj);
                proof {
                    lemma_filter_take_step(self@.pages, at_path(path@), i as int);
                    assert(page_json_views(out@) =~= page_json_views(out0).push(
                        page_row_as_listing(self@.pages[i as int]),
                    ));
                    assert(page_rows_as_listing(pre.push(self@.pages[i as int]))
                        =~= page_rows_as_listing(pre).push(
                        page_row_as_listing(self@.pages[i as int]),
                    ));
                    assert(page_json_views(out@) =~= page_rows_as_listing(
                        self@.pages.subrange(0, i as int + 1).filter(at_path(path@)),
                    ));
                }
            } else {
                proof {
                    lemma_filter_take_step(self@.pages, at_path(path@), i as int);
                    assert(page_json_views(out@) =~= page_rows_as_listing(
                        self@.pages.subrange(0, i as int + 1).filter(at_path(path@)),
                    ));
                }
            }
            i = i + 1;
        }
        proof {
            assert(self@.pages.subrange(0, n as int) =~= self@.pages);
        }
        Ok(out)
    }
}

} // verus!
