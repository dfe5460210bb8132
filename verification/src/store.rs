use vstd::prelude::*;
use crate::checksum::content_fingerprint;
use crate::records::{BlocRow, BlocV, PageRow, PageV, PropRow, PropV};

verus! {

/// Abstract state of the store: the three tables, each a sequence of rows
/// in insertion order.
pub struct StoreV {
    pub pages: Seq<PageV>,
    pub blocs: Seq<BlocV>,
    pub props: Seq<PropV>,
}

/// Some page row carries this identifier.
pub open spec fn has_page(s: StoreV, id: Seq<char>) -> bool {
    exists|i: int| 0 <= i < s.pages.len() && (#[trigger] s.pages[i]).id == id
}

/// The index of the page row carrying this identifier. Meaningful only
/// when `has_page` holds; unique under `store_wf`.
pub open spec fn page_index(s: StoreV, id: Seq<char>) -> int {
    choose|i: int| 0 <= i < s.pages.len() && (#[trigger] s.pages[i]).id == id
}

/// The page row carrying this identifier.
pub open spec fn page_at(s: StoreV, id: Seq<char>) -> PageV {
    s.pages[page_index(s, id)]
}

/// Some block row carries this identifier.
pub open spec fn has_bloc(s: StoreV, id: Seq<char>) -> bool {
    exists|i: int| 0 <= i < s.blocs.len() && (#[trigger] s.blocs[i]).id == id
}

/// The index of the block row carrying this identifier. Meaningful only
/// when `has_bloc` holds; unique under `store_wf`.
pub open spec fn bloc_index(s: StoreV, id: Seq<char>) -> int {
    choose|i: int| 0 <= i < s.blocs.len() && (#[trigger] s.blocs[i]).id == id
}

/// The block row carrying this identifier.
pub open spec fn bloc_at(s: StoreV, id: Seq<char>) -> BlocV {
    s.blocs[bloc_index(s, id)]
}

/// No two page rows share an identifier.
pub open spec fn page_ids_unique(pages: Seq<PageV>) -> bool {
    forall|i: int, j: int|
        0 <= i < j < pages.len() ==> (#[trigger] pages[i]).id != (#[trigger] pages[j]).id
}

/// No two block rows share an identifier.
pub open spec fn bloc_ids_unique(blocs: Seq<BlocV>) -> bool {
    forall|i: int, j: int|
        0 <= i < j < blocs.len() ==> (#[trigger] blocs[i]).id != (#[trigger] blocs[j]).id
}

/// Every block row's checksum is the fingerprint of its current content:
/// the invariant that makes content change detection sound. Callers never
/// supply a checksum, so they can never desynchronize the two.
pub open spec fn blocs_checksummed(blocs: Seq<BlocV>) -> bool {
    forall|i: int|
        0 <= i < blocs.len() ==> (#[trigger] blocs[i]).checksum == content_fingerprint(
            blocs[i].content,
        )
}

/// Well-formedness of the store: consistent identity for pages and blocks,
/// and checksums in step with content.
pub open spec fn store_wf(s: StoreV) -> bool {
    &&& page_ids_unique(s.pages)
    &&& bloc_ids_unique(s.blocs)
    &&& blocs_checksummed(s.blocs)
}

/// The storage engine: three tables over which the create/read/update/
/// delete, ordering and lifecycle operations are defined. Rows live in
/// insertion order; ordered reads sort on the way out.
pub struct Database {
    pages: Vec<PageRow>,
    blocs: Vec<BlocRow>,
    props: Vec<PropRow>,
}

impl View for Database {
    type V = StoreV;

    closed spec fn view(&self) -> StoreV {
        StoreV {
            pages: crate::records::page_row_views(self.pages@),
            blocs: crate::records::bloc_row_views(self.blocs@),
            props: crate::records::prop_row_views(self.props@),
        }
    }
}

impl Database {
    /// Well-formedness of this store's current state.
    pub open spec fn wf(&self) -> bool {
        store_wf(self@)
    }

    /// An empty store: the schema with no rows yet. The analogue of
    /// creating the tables when the backing location holds none.
    pub fn new() -> (db: Database)
        ensures
            db@.pages == Seq::<PageV>::empty(),
            db@.blocs == Seq::<BlocV>::empty(),
            db@.props == Seq::<PropV>::empty(),
            db.wf(),
    {
        let db = Database { pages: Vec::new(), blocs: Vec::new(), props: Vec::new() };
        proof {
            assert(db@.pages =~= Seq::<PageV>::empty());
            assert(db@.blocs =~= Seq::<BlocV>::empty());
            assert(db@.props =~= Seq::<PropV>::empty());
        }
        db
    }

    // -- table primitives: the only code that touches the vectors --

    pub(crate) fn pages_len(&self) -> (n: usize)
        ensures
            n == self@.pages.len(),
    {
        self.pages.len()
    }

    pub(crate) fn blocs_len(&self) -> (n: usize)
        ensures
            n == self@.blocs.len(),
    {
        self.blocs.len()
    }

    pub(crate) fn props_len(&self) -> (n: usize)
        ensures
            n == self@.props.len(),
    {
        self.props.len()
    }

    pub(crate) fn page_ref(&self, i: usize) -> (r: &PageRow)
        requires
            i < self@.pages.len(),
        ensures
            r@ == self@.pages[i as int],
    {
        &self.pages[i]
    }

    pub(crate) fn bloc_ref(&self, i: usize) -> (r: &BlocRow)
        requires
            i < self@.blocs.len(),
        ensures
            r@ == self@.blocs[i as int],
    {
        &self.blocs[i]
    }

    pub(crate) fn prop_ref(&self, i: usize) -> (r: &PropRow)
        requires
            i < self@.props.len(),
        ensures
            r@ == self@.props[i as int],
    {
        &self.props[i]
    }

    pub(crate) fn push_page(&mut self, row: PageRow)
        ensures
            final(self)@.pages == old(self)@.pages.push(row@),
            final(self)@.blocs == old(self)@.blocs,
            final(self)@.props == old(self)@.props,
    {
        self.pages.push(row);
        proof {
            assert(self@.pages =~= old(self)@.pages.push(self.pages@.last()@));
        }
    }

    pub(crate) fn push_bloc(&mut self, row: BlocRow)
        ensures
            final(self)@.blocs == old(self)@.blocs.push(row@),
            final(self)@.pages == old(self)@.pages,
            final(self)@.props == old(self)@.props,
    {
        self.blocs.push(row);
        proof {
            assert(self@.blocs =~= old(self)@.blocs.push(self.blocs@.last()@));
        }
    }

    pub(crate) fn push_prop(&mut self, row: PropRow)
        ensures
            final(self)@.props == old(self)@.props.push(row@),
            final(self)@.pages == old(self)@.pages,
            final(self)@.blocs == old(self)@.blocs,
    {
        self.props.push(row);
        proof {
            assert(self@.props =~= old(self)@.props.push(self.props@.last()@));
        }
    }

    pub(crate) fn remove_page_at(&mut self, i: usize) -> (row: PageRow)
        requires
            i < old(self)@.pages.len(),
        ensures
            row@ == old(self)@.pages[i as int],
            final(self)@.pages == old(self)@.pages.remove(i as int),
            final(self)@.blocs == old(self)@.blocs,
            final(self)@.props == old(self)@.props,
    {
        let row = self.pages.remove(i);
        proof {
            assert(self@.pages =~= old(self)@.pages.remove(i as int));
        }
        row
    }

    pub(crate) fn remove_bloc_at(&mut self, i: usize) -> (row: BlocRow)
        requires
            i < old(self)@.blocs.len(),
        ensures
            row@ == old(self)@.blocs[i as int],
            final(self)@.blocs == old(self)@.blocs.remove(i as int),
            final(self)@.pages == old(self)@.pages,
            final(self)@.props == old(self)@.props,
    {
        let row = self.blocs.remove(i);
        proof {
            assert(self@.blocs =~= old(self)@.blocs.remove(i as int));
        }
        row
    }

    pub(crate) fn remove_prop_at(&mut self, i: usize) -> (row: PropRow)
        requires
            i < old(self)@.props.len(),
        ensures
            row@ == old(self)@.props[i as int],
            final(self)@.props == old(self)@.props.remove(i as int),
            final(self)@.pages == old(self)@.pages,
            final(self)@.blocs == old(self)@.blocs,
    {
        let row = self.props.remove(i);
        proof {
            assert(self@.props =~= old(self)@.props.remove(i as int));
        }
        row
    }

    pub(crate) fn insert_page_at(&mut self, i: usize, row: PageRow)
        requires
            i <= old(self)@.pages.len(),
        ensures
            final(self)@.pages == old(self)@.pages.insert(i as int, row@),
            final(self)@.blocs == old(self)@.blocs,
            final(self)@.props == old(self)@.props,
    {
        self.pages.insert(i, row);
        proof {
            assert(self@.pages =~= old(self)@.pages.insert(i as int, self.pages@[i as int]@));
        }
    }

    pub(crate) fn insert_bloc_at(&mut self, i: usize, row: BlocRow)
        requires
            i <= old(self)@.blocs.len(),
        ensures
            final(self)@.blocs == old(self)@.blocs.insert(i as int, row@),
            final(self)@.pages == old(self)@.pages,
            final(self)@.props == old(self)@.props,
    {
        self.blocs.insert(i, row);
        proof {
            assert(self@.blocs =~= old(self)@.blocs.insert(i as int, self.blocs@[i as int]@));
        }
    }

    pub(crate) fn insert_prop_at(&mut self, i: usize, row: PropRow)
        requires
            i <= old(self)@.props.len(),
        ensures
            final(self)@.props == old(self)@.props.insert(i as int, row@),
            final(self)@.pages == old(self)@.pages,
            final(self)@.blocs == old(self)@.blocs,
    {
        self.props.insert(i, row);
        proof {
            assert(self@.props =~= old(self)@.props.insert(i as int, self.props@[i as int]@));
        }
    }

    pub(crate) fn set_blocs(&mut self, rows: Vec<BlocRow>)
        ensures
            final(self)@.blocs == crate::records::bloc_row_views(rows@),
            final(self)@.pages == old(self)@.pages,
            final(self)@.props == old(self)@.props,
    {
        self.blocs = rows;
    }

    pub(crate) fn set_props(&mut self, rows: Vec<PropRow>)
        ensures
            final(self)@.props == crate::records::prop_row_views(rows@),
            final(self)@.pages == old(self)@.pages,
            final(self)@.blocs == old(self)@.blocs,
    {
        self.props = rows;
    }

    /// Index of the page row carrying `id`, if any.
    pub(crate) fn find_page(&self, id: &String) -> (r: Option<usize>)
        ensures
            match r {
                Some(i) => i < self@.pages.len() && self@.pages[i as int].id == id@,
                None => !has_page(self@, id@),
            },
    {
        let n = self.pages.len();
        let mut i: usize = 0;
        while i < n
            invariant
                i <= n,
                n == self@.pages.len(),
                forall|j: int| 0 <= j < i ==> (#[trigger] self@.pages[j]).id != id@,
            decreases n - i,
        {
            if self.pages[i].id == *id {
                return Some(i);
            }
            i = i + 1;
        }
        None
    }

    /// Index of the block row carrying `id`, if any.
    pub(crate) fn find_bloc(&self, id: &String) -> (r: Option<usize>)
        ensures
            match r {
                Some(i) => i < self@.blocs.len() && self@.blocs[i as int].id == id@,
                None => !has_bloc(self@, id@),
            },
    {
        let n = self.blocs.len();
        let mut i: usize = 0;
        while i < n
            invariant
                i <= n,
                n == self@.blocs.len(),
                forall|j: int| 0 <= j < i ==> (#[trigger] self@.blocs[j]).id != id@,
            decreases n - i,
        {
            if self.blocs[i].id == *id {
                return Some(i);
            }
            i = i + 1;
        }
        None
    }
}

/// Filtering an empty sequence yields an empty sequence.
pub proof fn lemma_filter_empty<A>(p: spec_fn(A) -> bool)
    ensures
        Seq::<A>::empty().filter(p) == Seq::<A>::empty(),
{
    reveal(Seq::filter);
}

/// One step of filtering a prefix: taking one more element either appends
/// it to the filtered prefix or leaves the filtered prefix as it was.
pub proof fn lemma_filter_take_step<A>(s: Seq<A>, p: spec_fn(A) -> bool, i: int)
    requires
        0 <= i < s.len(),
    ensures
        p(s[i]) ==> s.subrange(0, i + 1).filter(p) == s.subrange(0, i).filter(p).push(s[i]),
        !p(s[i]) ==> s.subrange(0, i + 1).filter(p) == s.subrange(0, i).filter(p),
{
    reveal(Seq::filter);
    let t = s.subrange(0, i + 1);
    assert(t.drop_last() =~= s.subrange(0, i));
    assert(t.last() == s[i]);
}

/// Under unique block identifiers, any index whose row carries `id` is the
/// one `bloc_index` picks.
pub proof fn lemma_bloc_index_unique(s: StoreV, id: Seq<char>, i: int)
    requires
        bloc_ids_unique(s.blocs),
        0 <= i < s.blocs.len(),
        s.blocs[i].id == id,
    ensures
        has_bloc(s, id),
        bloc_index(s, id) == i,
        bloc_at(s, id) == s.blocs[i],
{
    assert(has_bloc(s, id));
    let k = bloc_index(s, id);
    if k != i {
        assert(s.blocs[k].id == s.blocs[i].id);
    }
}

/// Under unique page identifiers, any index whose row carries `id` is the
/// one `page_index` picks.
pub proof fn lemma_page_index_unique(s: StoreV, id: Seq<char>, i: int)
    requires
        page_ids_unique(s.pages),
        0 <= i < s.pages.len(),
        s.pages[i].id == id,
    ensures
        has_page(s, id),
        page_index(s, id) == i,
        page_at(s, id) == s.pages[i],
{
    assert(has_page(s, id));
    let k = page_index(s, id);
    if k != i {
        assert(s.pages[k].id == s.pages[i].id);
    }
}

} // verus!
