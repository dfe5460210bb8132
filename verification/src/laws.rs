use vstd::prelude::*;
use crate::blocks::{content_update, position_update, reparented};
use crate::checksum::content_fingerprint;
use crate::records::BlocV;
use crate::store::{
    bloc_at, bloc_index, has_bloc, lemma_bloc_index_unique, store_wf, StoreV,
};

verus! {

broadcast use vstd::seq_lib::group_to_multiset_ensures;

/// Change-detection idempotence, no-op half: handing a block the very
/// content it already holds makes the conditional update's test succeed.
/// Under the store invariant the stored checksum is the fingerprint of the
/// stored content, so the candidate's fingerprint equals it, the operation
/// reports no change, and the store — its timestamp included — stays as it
/// was.
pub proof fn lemma_content_update_idempotent(s: StoreV, id: Seq<char>, new_content: Seq<char>)
    requires
        store_wf(s),
        has_bloc(s, id),
        new_content == bloc_at(s, id).content,
    ensures
        bloc_at(s, id).checksum == content_fingerprint(new_content),
{
}

/// Change-detection idempotence, write half: content whose fingerprint
/// differs from the stored one is written, and the written row carries the
/// new fingerprint as its checksum and the new timestamp. The premise is
/// on fingerprints, not on the bytes: two distinct contents that collide
/// on their fingerprint are indistinguishable to a dirty-check.
pub proof fn lemma_content_update_writes(
    s: StoreV,
    id: Seq<char>,
    new_content: Seq<char>,
    updated_at: i64,
)
    requires
        store_wf(s),
        has_bloc(s, id),
        content_fingerprint(new_content) != content_fingerprint(bloc_at(s, id).content),
    ensures
        bloc_at(s, id).checksum != content_fingerprint(new_content),
        content_update(bloc_at(s, id), new_content, updated_at).checksum == content_fingerprint(
            new_content,
        ),
        content_update(bloc_at(s, id), new_content, updated_at).updated_at == updated_at,
        content_update(bloc_at(s, id), new_content, updated_at).content == new_content,
{
}

/// Position no-op, observable half: after a position write goes through,
/// the block read back under the same identifier shows exactly the new
/// position. (That a write happens precisely when the stored position
/// differs is the conditional update's own contract.)
pub proof fn lemma_position_update_observable(
    s: StoreV,
    id: Seq<char>,
    new_position: Seq<char>,
    updated_at: i64,
)
    requires
        store_wf(s),
        has_bloc(s, id),
    ensures
        ({
            let s2 = StoreV {
                blocs: s.blocs.update(
                    bloc_index(s, id),
                    position_update(bloc_at(s, id), new_position, updated_at),
                ),
                ..s
            };
            &&& has_bloc(s2, id)
            &&& bloc_at(s2, id).position == new_position
            &&& bloc_at(s2, id).content == bloc_at(s, id).content
            &&& bloc_at(s2, id).checksum == bloc_at(s, id).checksum
        }),
{
    let i = bloc_index(s, id);
    let s2 = StoreV {
        blocs: s.blocs.update(i, position_update(bloc_at(s, id), new_position, updated_at)),
        ..s
    };
    assert(s2.blocs[i].id == id);
    lemma_bloc_index_unique(s2, id, i);
}

/// Reparent isolation, field half: rewriting the owning page reference
/// leaves every other attribute of the row — identity, position, content,
/// checksum, type, both timestamps — exactly as it was.
pub proof fn lemma_reparent_isolation(b: BlocV, new_page_id: Seq<char>)
    ensures
        reparented(b, new_page_id).page_id == new_page_id,
        reparented(b, new_page_id).id == b.id,
        reparented(b, new_page_id).position == b.position,
        reparented(b, new_page_id).content == b.content,
        reparented(b, new_page_id).checksum == b.checksum,
        reparented(b, new_page_id).bloc_type == b.bloc_type,
        reparented(b, new_page_id).created_at == b.created_at,
        reparented(b, new_page_id).updated_at == b.updated_at,
{
}

/// Reparent isolation, observable half: after the reparent is applied to
/// the store, the block read back under the same identifier shows the new
/// page and its old position, content, checksum and timestamps; every
/// other row is untouched by construction of the single-row update.
pub proof fn lemma_reparent_observable(s: StoreV, id: Seq<char>, new_page_id: Seq<char>)
    requires
        store_wf(s),
        has_bloc(s, id),
    ensures
        ({
            let s2 = StoreV {
                blocs: s.blocs.update(bloc_index(s, id), reparented(bloc_at(s, id), new_page_id)),
                ..s
            };
            &&& has_bloc(s2, id)
            &&& bloc_at(s2, id).page_id == new_page_id
            &&& bloc_at(s2, id).position == bloc_at(s, id).position
            &&& bloc_at(s2, id).content == bloc_at(s, id).content
            &&& bloc_at(s2, id).checksum == bloc_at(s, id).checksum
            &&& bloc_at(s2, id).created_at == bloc_at(s, id).created_at
            &&& bloc_at(s2, id).updated_at == bloc_at(s, id).updated_at
            &&& forall|k: int|
                0 <= k < s.blocs.len() && k != bloc_index(s, id) ==> #[trigger] s2.blocs[k]
                    == s.blocs[k]
        }),
{
    let i = bloc_index(s, id);
    let s2 = StoreV { blocs: s.blocs.update(i, reparented(bloc_at(s, id), new_page_id)), ..s };
    assert(s2.blocs[i].id == id);
    lemma_bloc_index_unique(s2, id, i);
}

/// Ordering completeness: a read whose records form the same multiset as
/// a selection holds exactly as many records as the selection — no block
/// dropped, none duplicated, whatever order either side is in.
pub proof fn lemma_same_multiset_same_count<A>(v: Seq<A>, sel: Seq<A>)
    requires
        v.to_multiset() == sel.to_multiset(),
    ensures
        v.len() == sel.len(),
{
    assert(v.len() == v.to_multiset().len());
    assert(sel.len() == sel.to_multiset().len());
}

} // verus!
