use vstd::prelude::*;
use crate::checksum::{content_fingerprint, fingerprint};
use crate::errors::{StorageError, UpdateStatus};
use crate::order::{lemma_lex_le_total, lemma_lex_le_trans, lex_le, str_le};
use crate::records::{
    bloc_json_views, bloc_row_as_json, bloc_row_views, bloc_rows_as_json, BlocJson, BlocJsonV,
    BlocRow, BlocV,
};
use crate::store::{
    bloc_at, bloc_ids_unique, bloc_index, blocs_checksummed, has_bloc, lemma_bloc_index_unique,
    lemma_filter_empty, lemma_filter_take_step, Database,
};

verus! {

broadcast use vstd::seq_lib::group_to_multiset_ensures, vstd::multiset::group_multiset_axioms;

/// The rows of one page: the selection an ordered read returns.
pub open spec fn in_page(pid: Seq<char>) -> spec_fn(BlocV) -> bool {
    |b: BlocV| b.page_id == pid
}

/// The rows that survive deleting a page's blocks.
pub open spec fn not_in_page(pid: Seq<char>) -> spec_fn(BlocV) -> bool {
    |b: BlocV| b.page_id != pid
}

/// The records stand in ascending position order.
pub open spec fn position_sorted(s: Seq<BlocJsonV>) -> bool {
    forall|i: int, j: int|
        0 <= i < j < s.len() ==> lex_le((#[trigger] s[i]).position, (#[trigger] s[j]).position)
}

/// The identifier a wire record carries, where it carries one.
pub open spec fn record_id(id: Option<Seq<char>>) -> Seq<char> {
    match id {
        Some(s) => s,
        None => Seq::empty(),
    }
}

/// The stored row a create operation derives from a wire record: the
/// caller's fields plus the checksum the store computes from the content.
pub open spec fn stored_bloc(b: BlocJsonV, id: Seq<char>) -> BlocV {
    BlocV {
        id: id,
        position: b.position,
        content: b.content,
        checksum: content_fingerprint(b.content),
        page_id: b.page_id,
        bloc_type: b.bloc_type,
        created_at: b.created_at,
        updated_at: b.updated_at,
    }
}

/// A full block update: position, content, type and updated-at replaced,
/// checksum recomputed unconditionally; identity, ownership and created-at
/// kept.
pub open spec fn full_update(b: BlocV, j: BlocJsonV) -> BlocV {
    BlocV {
        position: j.position,
        content: j.content,
        checksum: content_fingerprint(j.content),
        bloc_type: j.bloc_type,
        updated_at: j.updated_at,
        ..b
    }
}

/// A content update: new content, its recomputed checksum, and the new
/// timestamp; everything else kept.
pub open spec fn content_update(b: BlocV, content: Seq<char>, updated_at: i64) -> BlocV {
    BlocV {
        content: content,
        checksum: content_fingerprint(content),
        updated_at: updated_at,
        ..b
    }
}

/// A position update: new position and timestamp; no checksum recompute.
pub open spec fn position_update(b: BlocV, position: Seq<char>, updated_at: i64) -> BlocV {
    BlocV { position: position, updated_at: updated_at, ..b }
}

/// A reparent: only the owning page reference changes; position, content,
/// checksum, type and both timestamps are untouched.
pub open spec fn reparented(b: BlocV, page_id: Seq<char>) -> BlocV {
    BlocV { page_id: page_id, ..b }
}

/// Replacing a row by one with the same identifier and a checksum in step
/// with its content preserves the block table's well-formedness.
proof fn lemma_bloc_update_wf(blocs: Seq<BlocV>, i: int, b: BlocV)
    requires
        bloc_ids_unique(blocs),
        blocs_checksummed(blocs),
        0 <= i < blocs.len(),
        b.id == blocs[i].id,
        b.checksum == content_fingerprint(b.content),
    ensures
        bloc_ids_unique(blocs.update(i, b)),
        blocs_checksummed(blocs.update(i, b)),
{
}

/// Removing a row preserves the block table's well-formedness.
proof fn lemma_bloc_remove_wf(blocs: Seq<BlocV>, i: int)
    requires
        bloc_ids_unique(blocs),
        blocs_checksummed(blocs),
        0 <= i < blocs.len(),
    ensures
        bloc_ids_unique(blocs.remove(i)),
        blocs_checksummed(blocs.remove(i)),
{
    blocs.remove_ensures(i);
    assert forall|a: int, c: int|
        0 <= a < c < blocs.remove(i).len() implies (#[trigger] blocs.remove(i)[a]).id != (
    #[trigger] blocs.remove(i)[c]).id by {
        let a0 = if a < i { a } else { a + 1 };
        let c0 = if c < i { c } else { c + 1 };
        assert(blocs.remove(i)[a] == blocs[a0]);
        assert(blocs.remove(i)[c] == blocs[c0]);
    }
    assert forall|a: int| 0 <= a < blocs.remove(i).len() implies (#[trigger] blocs.remove(
        i,
    )[a]).checksum == content_fingerprint(blocs.remove(i)[a].content) by {
        let a0 = if a < i { a } else { a + 1 };
        assert(blocs.remove(i)[a] == blocs[a0]);
    }
}

impl Database {
    /// Create a block: derive the checksum from the content, append the
    /// row, and return the assigned identifier. Refused with `WriteError`
    /// exactly when the record carries no identifier or the identifier is
    /// already taken.
    pub fn new_bloc(&mut self, bloc_json: &BlocJson) -> (r: Result<String, StorageError>)
        requires
            old(self).wf(),
        ensures
            final(self).wf(),
            final(self)@.pages == old(self)@.pages,
            final(self)@.props == old(self)@.props,
            match r {
                Ok(id) => {
                    &&& bloc_json@.id == Some(id@)
                    &&& !has_bloc(old(self)@, id@)
                    &&& final(self)@.blocs == old(self)@.blocs.push(
                        stored_bloc(bloc_json@, id@),
                    )
                },
                Err(e) => {
                    &&& e == StorageError::WriteError
                    &&& (bloc_json@.id is None || has_bloc(
                        old(self)@,
                        record_id(bloc_json@.id),
                    ))
                    &&& final(self)@ == old(self)@
                },
            },
    {
        match &bloc_json.id {
            None => Err(StorageError::WriteError),
            Some(id) => {
                match self.find_bloc(id) {
                    Some(_) => {
                        proof {
                            assert(has_bloc(self@, id@));
                        }
                        Err(StorageError::WriteError)
                    },
                    None => {
                        let row = BlocRow {
                            id: id.clone(),
                            position: bloc_json.position.clone(),
                            content: bloc_json.content.clone(),
                            checksum: fingerprint(bloc_json.content.as_str()),
                            page_id: bloc_json.page_id.clone(),
                            bloc_type: bloc_json.bloc_type.clone(),
                            created_at: bloc_json.created_at,
                            updated_at: bloc_json.updated_at,
                        };
                        proof {
                            assert(row@ == stored_bloc(bloc_json@, id@));
                        }
                        self.push_bloc(row);
                        proof {
                            let blocs = self@.blocs;
                            let prev = old(self)@.blocs;
                            assert forall|a: int, c: int|
                                0 <= a < c < blocs.len() implies (#[trigger] blocs[a]).id != (
                            #[trigger] blocs[c]).id by {
                                if c < prev.len() {
                                } else {
                                    assert(blocs[c].id == id@);
                                    assert(prev[a].id != id@);
                                }
                            }
                        }
                        Ok(id.clone())
                    },
                }
            },
        }
    }

    /// Full block update: replace position, content, type and updated-at,
    /// recomputing the checksum unconditionally. Returns whether a row was
    /// affected; a record without an identifier, or with an unknown one,
    /// affects nothing and is not an error.
    pub fn update_bloc(&mut self, bloc_json: &BlocJson) -> (r: Result<bool, StorageError>)
        requires
            old(self).wf(),
        ensures
            final(self).wf(),
            final(self)@.pages == old(self)@.pages,
            final(self)@.props == old(self)@.props,
            match r {
                Ok(b) => {
                    &&& b == (bloc_json@.id is Some && has_bloc(
                        old(self)@,
                        record_id(bloc_json@.id),
                    ))
                    &&& (b ==> final(self)@.blocs == old(self)@.blocs.update(
                        bloc_index(old(self)@, record_id(bloc_json@.id)),
                        full_update(bloc_at(old(self)@, record_id(bloc_json@.id)), bloc_json@),
                    ))
                    &&& (!b ==> final(self)@ == old(self)@)
                },
                Err(_) => false,
            },
    {
        match &bloc_json.id {
            None => Ok(false),
            Some(id) => {
                match self.find_bloc(id) {
                    None => Ok(false),
                    Some(i) => {
                        proof {
                            lemma_bloc_index_unique(self@, id@, i as int);
                        }
                        let mut row = self.remove_bloc_at(i);
                        row.position = bloc_json.position.clone();
                        row.content = bloc_json.content.clone();
                        row.checksum = fingerprint(bloc_json.content.as_str());
                        row.bloc_type = bloc_json.bloc_type.clone();
                        row.updated_at = bloc_json.updated_at;
                        proof {
                            assert(row@ == full_update(
                                bloc_at(old(self)@, id@),
                                bloc_json@,
                            ));
                        }
                        self.insert_bloc_at(i, row);
                        proof {
                            assert(self@.blocs =~= old(self)@.blocs.update(i as int, row@));
                            lemma_bloc_update_wf(old(self)@.blocs, i as int, row@);
                        }
                        Ok(true)
                    },
                }
            },
        }
    }

    /// The central change-detection operation. Compares the stored
    /// checksum against the fingerprint of the candidate content: equal
    /// fingerprints mean no write at all and `NoChange`; a differing
    /// fingerprint writes content, checksum and timestamp and returns
    /// `Success`. Reading an unknown identifier fails with `NotFound`.
    pub fn update_bloc_content(
        &mut self,
        id: String,
        new_content: String,
        updated_at: i64,
    ) -> (r: Result<UpdateStatus, StorageError>)
        requires
            old(self).wf(),
        ensures
            final(self).wf(),
            final(self)@.pages == old(self)@.pages,
            final(self)@.props == old(self)@.props,
            match r {
                Ok(st) => {
                    &&& has_bloc(old(self)@, id@)
                    &&& (st == UpdateStatus::NoChange <==> bloc_at(old(self)@, id@).checksum
                        == content_fingerprint(new_content@))
                    &&& (st == UpdateStatus::NoChange ==> final(self)@ == old(self)@)
                    &&& (st == UpdateStatus::Success ==> final(self)@.blocs == old(
                        self,
                    )@.blocs.update(
                        bloc_index(old(self)@, id@),
                        content_update(bloc_at(old(self)@, id@), new_content@, updated_at),
                    ))
                },
                Err(e) => {
                    &&& e == StorageError::NotFound
                    &&& !has_bloc(old(self)@, id@)
                    &&& final(self)@ == old(self)@
                },
            },
    {
        match self.find_bloc(&id) {
            None => Err(StorageError::NotFound),
            Some(i) => {
                proof {
                    lemma_bloc_index_unique(self@, id@, i as int);
                }
                let new_checksum = fingerprint(new_content.as_str());
                if self.bloc_ref(i).checksum == new_checksum {
                    Ok(UpdateStatus::NoChange)
                } else {
                    let mut row = self.remove_bloc_at(i);
                    row.content = new_content;
                    row.checksum = new_checksum;
                    row.updated_at = updated_at;
                    self.insert_bloc_at(i, row);
                    proof {
                        assert(self@.blocs =~= old(self)@.blocs.update(i as int, row@));
                        lemma_bloc_update_wf(old(self)@.blocs, i as int, row@);
                    }
                    Ok(UpdateStatus::Success)
                }
            },
        }
    }

    /// Conditional position update: a write and a fresh timestamp only
    /// when the position actually changes; `NoChange` when the stored
    /// position already equals the candidate. Position changes never touch
    /// content or checksum.
    pub fn update_bloc_position(
        &mut self,
        id: String,
        new_position: String,
        updated_at: i64,
    ) -> (r: Result<UpdateStatus, StorageError>)
        requires
            old(self).wf(),
        ensures
            final(self).wf(),
            final(self)@.pages == old(self)@.pages,
            final(self)@.props == old(self)@.props,
            match r {
                Ok(st) => {
                    &&& has_bloc(old(self)@, id@)
                    &&& (st == UpdateStatus::NoChange <==> bloc_at(old(self)@, id@).position
                        == new_position@)
                    &&& (st == UpdateStatus::NoChange ==> final(self)@ == old(self)@)
                    &&& (st == UpdateStatus::Success ==> final(self)@.blocs == old(
                        self,
                    )@.blocs.update(
                        bloc_index(old(self)@, id@),
                        position_update(bloc_at(old(self)@, id@), new_position@, updated_at),
                    ))
                },
                Err(e) => {
                    &&& e == StorageError::NotFound
                    &&& !has_bloc(old(self)@, id@)
                    &&& final(self)@ == old(self)@
                },
            },
    {
        match self.find_bloc(&id) {
            None => Err(StorageError::NotFound),
            Some(i) => {
                proof {
                    lemma_bloc_index_unique(self@, id@, i as int);
                }
                if self.bloc_ref(i).position == new_position {
                    Ok(UpdateStatus::NoChange)
                } else {
                    let mut row = self.remove_bloc_at(i);
                    row.position = new_position;
                    row.updated_at = updated_at;
                    self.insert_bloc_at(i, row);
                    proof {
                        assert(self@.blocs =~= old(self)@.blocs.update(i as int, row@));
                        lemma_bloc_update_wf(old(self)@.blocs, i as int, row@);
                    }
                    Ok(UpdateStatus::Success)
                }
            },
        }
    }

    /// Reparent a block: rewrite only the owning page reference. Returns
    /// whether a row was affected.
    pub fn update_bloc_page_id(&mut self, id: String, new_page_id: String) -> (r: Result<
        bool,
        StorageError,
    >)
        requires
            old(self).wf(),
        ensures
            final(self).wf(),
            final(self)@.pages == old(self)@.pages,
            final(self)@.props == old(self)@.props,
            match r {
                Ok(b) => {
                    &&& b == has_bloc(old(self)@, id@)
                    &&& (b ==> final(self)@.blocs == old(self)@.blocs.update(
                        bloc_index(old(self)@, id@),
                        reparented(bloc_at(old(self)@, id@), new_page_id@),
                    ))
                    &&& (!b ==> final(self)@ == old(self)@)
                },
                Err(_) => false,
            },
    {
        match self.find_bloc(&id) {
            None => Ok(false),
            Some(i) => {
                proof {
                    lemma_bloc_index_unique(self@, id@, i as int);
                }
                let mut row = self.remove_bloc_at(i);
                row.page_id = new_page_id;
                self.insert_bloc_at(i, row);
                proof {
                    assert(self@.blocs =~= old(self)@.blocs.update(i as int, row@));
                    lemma_bloc_update_wf(old(self)@.blocs, i as int, row@);
                }
                Ok(true)
            },
        }
    }

    /// Delete one block row. Returns whether a row was affected. The
    /// block's properties are not touched: cleaning them up is the
    /// caller's explicit follow-up call.
    pub fn delete_bloc(&mut self, id: String) -> (r: Result<bool, StorageError>)
        requires
            old(self).wf(),
        ensures
            final(self).wf(),
            final(self)@.pages == old(self)@.pages,
            final(self)@.props == old(self)@.props,
            match r {
                Ok(b) => {
                    &&& b == has_bloc(old(self)@, id@)
                    &&& (b ==> final(self)@.blocs == old(self)@.blocs.remove(
                        bloc_index(old(self)@, id@),
                    ))
                    &&& (!b ==> final(self)@ == old(self)@)
                },
                Err(_) => false,
            },
    {
        match self.find_bloc(&id) {
            None => Ok(false),
            Some(i) => {
                proof {
                    lemma_bloc_index_unique(self@, id@, i as int);
                }
                let _row = self.remove_bloc_at(i);
                proof {
                    lemma_bloc_remove_wf(old(self)@.blocs, i as int);
                }
                Ok(true)
            },
        }
    }
}

/// A filtered block table holds no identifier that the whole table lacks.
proof fn lemma_bloc_filter_no_id(blocs: Seq<BlocV>, p: spec_fn(BlocV) -> bool, id: Seq<char>)
    requires
        forall|k: int| 0 <= k < blocs.len() ==> (#[trigger] blocs[k]).id != id,
    ensures
        forall|k: int|
            0 <= k < blocs.filter(p).len() ==> (#[trigger] blocs.filter(p)[k]).id != id,
    decreases blocs.len(),
{
    reveal(Seq::filter);
    if blocs.len() > 0 {
        let pre = blocs.drop_last();
        assert forall|k: int| 0 <= k < pre.len() implies (#[trigger] pre[k]).id != id by {
            assert(pre[k] == blocs[k]);
        }
        lemma_bloc_filter_no_id(pre, p, id);
        let f = blocs.filter(p);
        assert forall|k: int| 0 <= k < f.len() implies (#[trigger] f[k]).id != id by {
            if p(blocs.last()) {
                assert(f == pre.filter(p).push(blocs.last()));
                if k < f.len() - 1 {
                    assert(f[k] == pre.filter(p)[k]);
                } else {
                    assert(f[k] == blocs.last());
                    assert(blocs.last() == blocs[blocs.len() - 1]);
                }
            } else {
                assert(f == pre.filter(p));
            }
        }
    }
}

/// Filtering the block table preserves its well-formedness.
proof fn lemma_bloc_filter_wf(blocs: Seq<BlocV>, p: spec_fn(BlocV) -> bool)
    requires
        bloc_ids_unique(blocs),
        blocs_checksummed(blocs),
    ensures
        bloc_ids_unique(blocs.filter(p)),
        blocs_checksummed(blocs.filter(p)),
    decreases blocs.len(),
{
    reveal(Seq::filter);
    if blocs.len() > 0 {
        let pre = blocs.drop_last();
        assert forall|a: int, c: int|
            0 <= a < c < pre.len() implies (#[trigger] pre[a]).id != (#[trigger] pre[c]).id by {
            assert(pre[a] == blocs[a]);
            assert(pre[c] == blocs[c]);
        }
        assert forall|a: int| 0 <= a < pre.len() implies (#[trigger] pre[a]).checksum
            == content_fingerprint(pre[a].content) by {
            assert(pre[a] == blocs[a]);
        }
        lemma_bloc_filter_wf(pre, p);
        if p(blocs.last()) {
            assert forall|k: int| 0 <= k < pre.len() implies (#[trigger] pre[k]).id
                != blocs.last().id by {
                assert(pre[k] == blocs[k]);
                assert(blocs.last() == blocs[blocs.len() - 1]);
            }
            lemma_bloc_filter_no_id(pre, p, blocs.last().id);
            let f = blocs.filter(p);
            assert(f == pre.filter(p).push(blocs.last()));
            assert forall|a: int, c: int|
                0 <= a < c < f.len() implies (#[trigger] f[a]).id != (#[trigger] f[c]).id by {
                if c < f.len() - 1 {
                    assert(f[a] == pre.filter(p)[a]);
                    assert(f[c] == pre.filter(p)[c]);
                } else {
                    assert(f[a] == pre.filter(p)[a]);
                    assert(f[c] == blocs.last());
                }
            }
        }
    }
}

impl Database {
    /// Bulk delete: remove every block belonging to a page, used when the
    /// page itself is deleted. Returns whether any row was affected.
    pub fn delete_bloc_by_page_id(&mut self, page_id: String) -> (r: Result<bool, StorageError>)
        requires
            old(self).wf(),
        ensures
            final(self).wf(),
            final(self)@.pages == old(self)@.pages,
            final(self)@.props == old(self)@.props,
            match r {
                Ok(b) => {
                    &&& final(self)@.blocs == old(self)@.blocs.filter(not_in_page(page_id@))
                    &&& b == exists|k: int|
                        0 <= k < old(self)@.blocs.len() && (#[trigger] old(
                            self,
                        )@.blocs[k]).page_id == page_id@
                },
                Err(_) => false,
            },
    {
        let n = self.blocs_len();
        let mut kept: Vec<BlocRow> = Vec::new();
        let mut removed = false;
        let mut i: usize = 0;
        proof {
            lemma_filter_empty(not_in_page(page_id@));
            assert(self@.blocs.subrange(0, 0) =~= Seq::<BlocV>::empty());
            assert(bloc_row_views(kept@) =~= Seq::<BlocV>::empty());
        }
        while i < n
            invariant
                i <= n,
                n == self@.blocs.len(),
                bloc_row_views(kept@) == self@.blocs.subrange(
                    0,
                    i as int,
                ).filter(not_in_page(page_id@)),
                removed == exists|k: int|
                    0 <= k < i && (#[trigger] self@.blocs[k]).page_id == page_id@,
            decreases n - i,
        {
            let row = self.bloc_ref(i);
            if row.page_id == page_id {
                removed = true;
                proof {
                    assert(self@.blocs[i as int].page_id == page_id@);
                }
            } else {
                kept.push(row.clone());
            }
            proof {
                lemma_filter_take_step(self@.blocs, not_in_page(page_id@), i as int);
                assert(bloc_row_views(kept@) =~= self@.blocs.subrange(
                    0,
                    i as int + 1,
                ).filter(not_in_page(page_id@)));
            }
            i = i + 1;
        }
        proof {
            assert(self@.blocs.subrange(0, n as int) =~= self@.blocs);
            lemma_bloc_filter_wf(self@.blocs, not_in_page(page_id@));
        }
        self.set_blocs(kept);
        Ok(removed)
    }

    /// Read a block's position. An unknown identifier is a failure, not an
    /// empty result.
    pub fn get_position(&self, id: String) -> (r: Result<String, StorageError>)
        requires
            self.wf(),
        ensures
            match r {
                Ok(pos) => has_bloc(self@, id@) && pos@ == bloc_at(self@, id@).position,
                Err(e) => e == StorageError::NotFound && !has_bloc(self@, id@),
            },
    {
        match self.find_bloc(&id) {
            None => Err(StorageError::NotFound),
            Some(i) => {
                proof {
                    lemma_bloc_index_unique(self@, id@, i as int);
                }
                Ok(self.bloc_ref(i).position.clone())
            },
        }
    }

    /// Read a block's stored checksum: the fingerprint of its current
    /// content. An unknown identifier is a failure.
    pub fn get_checksum(&self, id: String) -> (r: Result<u64, StorageError>)
        requires
            self.wf(),
        ensures
            match r {
                Ok(token) => has_bloc(self@, id@) && token == bloc_at(self@, id@).checksum,
                Err(e) => e == StorageError::NotFound && !has_bloc(self@, id@),
            },
    {
        match self.find_bloc(&id) {
            None => Err(StorageError::NotFound),
            Some(i) => {
                proof {
                    lemma_bloc_index_unique(self@, id@, i as int);
                }
                Ok(self.bloc_ref(i).checksum)
            },
        }
    }

    /// Read one block as a wire record. An unknown identifier is a
    /// failure: the semantics are "this exact identifier must exist".
    pub fn get_bloc_by_id(&self, id: String) -> (r: Result<BlocJson, StorageError>)
        requires
            self.wf(),
        ensures
            match r {
                Ok(bj) => has_bloc(self@, id@) && bj@ == bloc_row_as_json(bloc_at(self@, id@)),
                Err(e) => e == StorageError::NotFound && !has_bloc(self@, id@),
            },
    {
        match self.find_bloc(&id) {
            None => Err(StorageError::NotFound),
            Some(i) => {
                proof {
                    lemma_bloc_index_unique(self@, id@, i as int);
                }
                let row = self.bloc_ref(i);
                Ok(
                    BlocJson {
                        id: Some(row.id.clone()),
                        position: row.position.clone(),
                        content: row.content.clone(),
                        page_id: row.page_id.clone(),
                        bloc_type: row.bloc_type.clone(),
                        created_at: row.created_at,
                        updated_at: row.updated_at,
                    },
                )
            },
        }
    }

    /// Read all blocks of a page, sorted ascending by position whatever
    /// the insertion order was. A page with no blocks yields an empty
    /// sequence, not an error.
    pub fn get_blocs_by_page_id(&self, page_id: String) -> (r: Result<Vec<BlocJson>, StorageError>)
        ensures
            match r {
                Ok(v) => {
                    &&& bloc_json_views(v@).to_multiset() == bloc_rows_as_json(
                        self@.blocs.filter(in_page(page_id@)),
                    ).to_multiset()
                    &&& position_sorted(bloc_json_views(v@))
                },
                Err(_) => false,
            },
    {
        let n = self.blocs_len();
        let mut rest: Vec<BlocJson> = Vec::new();
        let mut i: usize = 0;
        proof {
            lemma_filter_empty(in_page(page_id@));
            assert(self@.blocs.subrange(0, 0) =~= Seq::<BlocV>::empty());
            assert(bloc_json_views(rest@) =~= bloc_rows_as_json(Seq::<BlocV>::empty()));
        }
        while i < n
            invariant
                i <= n,
                n == self@.blocs.len(),
                bloc_json_views(rest@) == bloc_rows_as_json(
                    self@.blocs.subrange(0, i as int).filter(in_page(page_id@)),
                ),
            decreases n - i,
        {
            let ghost pre = self@.blocs.subrange(0, i as int).filter(in_page(page_id@));
            let ghost rest0 = rest@;
            let row = self.bloc_ref(i);
            if row.page_id == page_id {
                let bj = BlocJson {
                    id: Some(row.id.clone()),
                    position: row.position.clone(),
                    content: row.content.clone(),
                    page_id: row.page_id.clone(),
                    bloc_type: row.bloc_type.clone(),
                    created_at: row.created_at,
                    updated_at: row.updated_at,
                };
                proof {
                    assert(bj@ == bloc_row_as_json(self@.blocs[i as int]));
                }
                rest.push(bj);
                proof {
                    lemma_filter_take_step(self@.blocs, in_page(page_id@), i as int);
                    assert(bloc_json_views(rest@) =~= bloc_json_views(rest0).push(
                        bloc_row_as_json(self@.blocs[i as int]),
                    ));
                    assert(bloc_rows_as_json(pre.push(self@.blocs[i as int])) =~= bloc_rows_as_json(
                        pre,
                    ).push(bloc_row_as_json(self@.blocs[i as int])));
                    assert(bloc_json_views(rest@) =~= bloc_rows_as_json(
                        self@.blocs.subrange(0, i as int + 1).filter(in_page(page_id@)),
                    ));
                }
            } else {
                proof {
                    lemma_filter_take_step(self@.blocs, in_page(page_id@), i as int);
                    assert(bloc_json_views(rest@) =~= bloc_rows_as_json(
                        self@.blocs.subrange(0, i as int + 1).filter(in_page(page_id@)),
                    ));
                }
            }
            i = i + 1;
        }
        proof {
            assert(self@.blocs.subrange(0, n as int) =~= self@.blocs);
        }
        let ghost total = bloc_rows_as_json(
            self@.blocs.filter(in_page(page_id@)),
        ).to_multiset();
        let mut out: Vec<BlocJson> = Vec::new();
        proof {
            assert(bloc_json_views(out@) =~= Seq::<BlocJsonV>::empty());
            assert(bloc_json_views(out@).to_multiset().add(
                bloc_json_views(rest@).to_multiset(),
            ) =~= total);
        }
        loop
            invariant
                bloc_json_views(out@).to_multiset().add(bloc_json_views(rest@).to_multiset())
                    == total,
                position_sorted(bloc_json_views(out@)),
            ensures
                rest@.len() == 0,
                bloc_json_views(out@).to_multiset().add(bloc_json_views(rest@).to_multiset())
                    == total,
                position_sorted(bloc_json_views(out@)),
            decreases rest.len(),
        {
            if rest.len() == 0 {
                break ;
            }
            let ghost rest0 = rest@;
            let x = match rest.pop() {
                Some(x) => x,
                None => {
                    return Err(StorageError::NotFound);
                },
            };
            proof {
                assert(bloc_json_views(rest0) =~= bloc_json_views(rest@).push(x@));
                assert(bloc_json_views(rest0).to_multiset() == bloc_json_views(
                    rest@,
                ).to_multiset().insert(x@));
            }
            let ghost out0 = out@;
            let j = insertion_point(&out, &x);
            out.insert(j, x);
            proof {
                assert(bloc_json_views(out@) =~= bloc_json_views(out0).insert(
                    j as int,
                    bloc_json_views(out@)[j as int],
                ));
                assert(bloc_json_views(out@).to_multiset() == bloc_json_views(
                    out0,
                ).to_multiset().insert(bloc_json_views(out@)[j as int]));
                assert(bloc_json_views(out@).to_multiset().add(
                    bloc_json_views(rest@).to_multiset(),
                ) =~= total);
                let s = bloc_json_views(out@);
                let s0 = bloc_json_views(out0);
                let xv = s[j as int];
                assert forall|a: int, b: int|
                    0 <= a < b < s.len() implies lex_le(
                    (#[trigger] s[a]).position,
                    (#[trigger] s[b]).position,
                ) by {
                    if b < j as int {
                        assert(s[a] == s0[a]);
                        assert(s[b] == s0[b]);
                    } else if b == j as int {
                        assert(s[a] == s0[a]);
                    } else if a == j as int {
                        assert(s[b] == s0[b - 1]);
                        assert(!lex_le(s0[j as int].position, xv.position));
                        lemma_lex_le_total(xv.position, s0[j as int].position);
                        if b - 1 > j as int {
                            lemma_lex_le_trans(
                                xv.position,
                                s0[j as int].position,
                                s0[b - 1].position,
                            );
                        }
                    } else if a < j as int {
                        assert(s[a] == s0[a]);
                        assert(s[b] == s0[b - 1]);
                    } else {
                        assert(s[a] == s0[a - 1]);
                        assert(s[b] == s0[b - 1]);
                    }
                }
            }
        }
        proof {
            assert(bloc_json_views(rest@) =~= Seq::<BlocJsonV>::empty());
            assert(bloc_json_views(out@).to_multiset().add(
                Seq::<BlocJsonV>::empty().to_multiset(),
            ) =~= bloc_json_views(out@).to_multiset());
        }
        Ok(out)
    }
}

/// First index of the sorted run whose position does not sort at or below
/// the candidate's: where an insertion keeps the run sorted.
fn insertion_point(out: &Vec<BlocJson>, x: &BlocJson) -> (j: usize)
    ensures
        j <= out@.len(),
        forall|k: int| 0 <= k < j ==> lex_le((#[trigger] out@[k])@.position, x@.position),
        j < out@.len() ==> !lex_le(out@[j as int]@.position, x@.position),
{
    let mut j: usize = 0;
    while j < out.len()
        invariant
            j <= out@.len(),
            forall|k: int| 0 <= k < j ==> lex_le((#[trigger] out@[k])@.position, x@.position),
        decreases out@.len() - j,
    {
        if !str_le(out[j].position.as_str(), x.position.as_str()) {
            return j;
        }
        j = j + 1;
    }
    j
}

} // verus!
