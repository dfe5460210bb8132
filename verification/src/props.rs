use vstd::prelude::*;
use crate::errors::StorageError;
use crate::records::{
    prop_row_as_json, prop_row_views, prop_rows_as_json, props_json_views, PropRow, PropsJson,
    PropsJsonV, PropV,
};
use crate::store::{lemma_filter_empty, lemma_filter_take_step, Database};

verus! {

/// The stored row a create operation derives from a property wire record.
pub open spec fn stored_prop(p: PropsJsonV, id: Seq<char>) -> PropV {
    PropV { id: id, key: p.key, value: p.value, bloc_id: p.bloc_id }
}

/// A property is addressed by the owning block and the key; several rows
/// may match, since the one-property-per-key rule is a convention, not a
/// structural constraint.
pub open spec fn prop_keyed(p: PropV, bloc_id: Seq<char>, key: Seq<char>) -> bool {
    p.bloc_id == bloc_id && p.key == key
}

/// The rows that survive deleting a property by (block, key).
pub open spec fn not_prop_keyed(bloc_id: Seq<char>, key: Seq<char>) -> spec_fn(PropV) -> bool {
    |p: PropV| !prop_keyed(p, bloc_id, key)
}

/// The rows of one block: the selection a block read returns.
pub open spec fn of_bloc(bloc_id: Seq<char>) -> spec_fn(PropV) -> bool {
    |p: PropV| p.bloc_id == bloc_id
}

/// The rows that survive deleting a block's properties.
pub open spec fn not_of_bloc(bloc_id: Seq<char>) -> spec_fn(PropV) -> bool {
    |p: PropV| p.bloc_id != bloc_id
}

/// The rows sharing one key, across every block.
pub open spec fn with_key(key: Seq<char>) -> spec_fn(PropV) -> bool {
    |p: PropV| p.key == key
}

/// A value update in place.
pub open spec fn prop_valued(p: PropV, value: Seq<char>) -> PropV {
    PropV { value: value, ..p }
}

/// A key rename in place.
pub open spec fn prop_rekeyed(p: PropV, new_key: Seq<char>) -> PropV {
    PropV { key: new_key, ..p }
}

/// The property table after a value update keyed on (block, key): every
/// matching row takes the new value, every other row stays.
pub open spec fn props_value_updated(
    props: Seq<PropV>,
    bloc_id: Seq<char>,
    key: Seq<char>,
    value: Seq<char>,
) -> Seq<PropV> {
    props.map_values(
        |p: PropV|
            if prop_keyed(p, bloc_id, key) {
                prop_valued(p, value)
            } else {
                p
            },
    )
}

/// The property table after a global key rename: every row holding the
/// old key takes the new one, whatever block owns it.
pub open spec fn props_rekeyed(props: Seq<PropV>, key: Seq<char>, new_key: Seq<char>) -> Seq<
    PropV,
> {
    props.map_values(
        |p: PropV|
            if p.key == key {
                prop_rekeyed(p, new_key)
            } else {
                p
            },
    )
}

impl Database {
    /// Create a property with an explicit key and value. Refused with
    /// `WriteError` exactly when the record carries no identifier. No
    /// (block, key) uniqueness is enforced: that a block holds at most one
    /// property per key is the callers' convention.
    pub fn new_prop(&mut self, prop: &PropsJson) -> (r: Result<String, StorageError>)
        requires
            old(self).wf(),
        ensures
            final(self).wf(),
            final(self)@.pages == old(self)@.pages,
            final(self)@.blocs == old(self)@.blocs,
            match r {
                Ok(id) => {
                    &&& prop@.id == Some(id@)
                    &&& final(self)@.props == old(self)@.props.push(stored_prop(prop@, id@))
                },
                Err(e) => {
                    &&& e == StorageError::WriteError
                    &&& prop@.id is None
                    &&& final(self)@ == old(self)@
                },
            },
    {
        match &prop.id {
            None => Err(StorageError::WriteError),
            Some(id) => {
                let row = PropRow {
                    id: id.clone(),
                    key: prop.key.clone(),
                    value: prop.value.clone(),
                    bloc_id: prop.bloc_id.clone(),
                };
                proof {
                    assert(row@ == stored_prop(prop@, id@));
                }
                self.push_prop(row);
                Ok(id.clone())
            },
        }
    }

    /// Update a property's value in place, keyed by (block, key). Every
    /// matching row is rewritten. Returns whether any row was affected.
    pub fn update_prop_value(&mut self, bloc_id: String, key: String, value: String) -> (r: Result<
        bool,
        StorageError,
    >)
        requires
            old(self).wf(),
        ensures
            final(self).wf(),
            final(self)@.pages == old(self)@.pages,
            final(self)@.blocs == old(self)@.blocs,
            match r {
                Ok(b) => {
                    &&& final(self)@.props == props_value_updated(
                        old(self)@.props,
                        bloc_id@,
                        key@,
                        value@,
                    )
                    &&& b == exists|k: int|
                        0 <= k < old(self)@.props.len() && prop_keyed(
                            #[trigger] old(self)@.props[k],
                            bloc_id@,
                            key@,
                        )
                },
                Err(_) => false,
            },
    {
        let n = self.props_len();
        let mut changed = false;
        let mut i: usize = 0;
        while i < n
            invariant
                i <= n,
                n == old(self)@.props.len(),
                self@.props.len() == old(self)@.props.len(),
                self@.pages == old(self)@.pages,
                self@.blocs == old(self)@.blocs,
                self.wf(),
                forall|k: int|
                    0 <= k < i ==> #[trigger] self@.props[k] == (if prop_keyed(
                        old(self)@.props[k],
                        bloc_id@,
                        key@,
                    ) {
                        prop_valued(old(self)@.props[k], value@)
                    } else {
                        old(self)@.props[k]
                    }),
                forall|k: int| i <= k < n ==> #[trigger] self@.props[k] == old(self)@.props[k],
                changed == exists|k: int|
                    0 <= k < i && prop_keyed(#[trigger] old(self)@.props[k], bloc_id@, key@),
            decreases n - i,
        {
            let ghost props0 = self@.props;
            let hit = {
                let row = self.prop_ref(i);
                row.bloc_id == bloc_id && row.key == key
            };
            if hit {
                let mut row = self.remove_prop_at(i);
                row.value = value.clone();
                self.insert_prop_at(i, row);
                changed = true;
                proof {
                    assert(self@.props =~= props0.update(i as int, row@));
                    assert(prop_keyed(old(self)@.props[i as int], bloc_id@, key@));
                }
            }
            i = i + 1;
        }
        proof {
            assert(self@.props =~= props_value_updated(old(self)@.props, bloc_id@, key@, value@));
        }
        Ok(changed)
    }

    /// Delete a property, keyed by (block, key). Every matching row goes.
    /// Returns whether any row was affected.
    pub fn delete_prop(&mut self, bloc_id: String, key: String) -> (r: Result<bool, StorageError>)
        requires
            old(self).wf(),
        ensures
            final(self).wf(),
            final(self)@.pages == old(self)@.pages,
            final(self)@.blocs == old(self)@.blocs,
            match r {
                Ok(b) => {
                    &&& final(self)@.props == old(self)@.props.filter(
                        not_prop_keyed(bloc_id@, key@),
                    )
                    &&& b == exists|k: int|
                        0 <= k < old(self)@.props.len() && prop_keyed(
                            #[trigger] old(self)@.props[k],
                            bloc_id@,
                            key@,
                        )
                },
                Err(_) => false,
            },
    {
        let n = self.props_len();
        let mut kept: Vec<PropRow> = Vec::new();
        let mut removed = false;
        let mut i: usize = 0;
        proof {
            lemma_filter_empty(not_prop_keyed(bloc_id@, key@));
            assert(self@.props.subrange(0, 0) =~= Seq::<PropV>::empty());
            assert(prop_row_views(kept@) =~= Seq::<PropV>::empty());
        }
        while i < n
            invariant
                i <= n,
                n == self@.props.len(),
                prop_row_views(kept@) == self@.props.subrange(0, i as int).filter(
                    not_prop_keyed(bloc_id@, key@),
                ),
                removed == exists|k: int|
                    0 <= k < i && prop_keyed(#[trigger] self@.props[k], bloc_id@, key@),
            decreases n - i,
        {
            let row = self.prop_ref(i);
            if row.bloc_id == bloc_id && row.key == key {
                removed = true;
                proof {
                    assert(prop_keyed(self@.props[i as int], bloc_id@, key@));
                }
            } else {
                kept.push(row.clone());
            }
            proof {
                lemma_filter_take_step(self@.props, not_prop_keyed(bloc_id@, key@), i as int);
                assert(prop_row_views(kept@) =~= self@.props.subrange(
                    0,
                    i as int + 1,
                ).filter(not_prop_keyed(bloc_id@, key@)));
            }
            i = i + 1;
        }
        proof {
            assert(self@.props.subrange(0, n as int) =~= self@.props);
        }
        self.set_props(kept);
        Ok(removed)
    }

    /// Bulk delete: remove every property of a block, used when the block
    /// itself is deleted. Returns whether any row was affected.
    pub fn delete_prop_by_bloc_id(&mut self, bloc_id: String) -> (r: Result<bool, StorageError>)
        requires
            old(self).wf(),
        ensures
            final(self).wf(),
            final(self)@.pages == old(self)@.pages,
            final(self)@.blocs == old(self)@.blocs,
            match r {
                Ok(b) => {
                    &&& final(self)@.props == old(self)@.props.filter(not_of_bloc(bloc_id@))
                    &&& b == exists|k: int|
                        0 <= k < old(self)@.props.len() && (#[trigger] old(
                            self,
                        )@.props[k]).bloc_id == bloc_id@
                },
                Err(_) => false,
            },
    {
        let n = self.props_len();
        let mut kept: Vec<PropRow> = Vec::new();
        let mut removed = false;
        let mut i: usize = 0;
        proof {
            lemma_filter_empty(not_of_bloc(bloc_id@));
            assert(self@.props.subrange(0, 0) =~= Seq::<PropV>::empty());
            assert(prop_row_views(kept@) =~= Seq::<PropV>::empty());
        }
        while i < n
            invariant
                i <= n,
                n == self@.props.len(),
                prop_row_views(kept@) == self@.props.subrange(0, i as int).filter(
                    not_of_bloc(bloc_id@),
                ),
                removed == exists|k: int|
                    0 <= k < i && (#[trigger] self@.props[k]).bloc_id == bloc_id@,
            decreases n - i,
        {
            let row = self.prop_ref(i);
            if row.bloc_id == bloc_id {
                removed = true;
                proof {
                    assert(self@.props[i as int].bloc_id == bloc_id@);
                }
            } else {
                kept.push(row.clone());
            }
            proof {
                lemma_filter_take_step(self@.props, not_of_bloc(bloc_id@), i as int);
                assert(prop_row_views(kept@) =~= self@.props.subrange(
                    0,
                    i as int + 1,
                ).filter(not_of_bloc(bloc_id@)));
            }
            i = i + 1;
        }
        proof {
            assert(self@.props.subrange(0, n as int) =~= self@.props);
        }
        self.set_props(kept);
        Ok(removed)
    }

    /// Read all properties of a block, in table order. No match yields an
    /// empty sequence, not an error.
    pub fn get_props_by_bloc_id(&self, bloc_id: String) -> (r: Result<Vec<PropsJson>, StorageError>)
        ensures
            match r {
                Ok(v) => props_json_views(v@) == prop_rows_as_json(
                    self@.props.filter(of_bloc(bloc_id@)),
                ),
                Err(_) => false,
            },
    {
        let n = self.props_len();
        let mut out: Vec<PropsJson> = Vec::new();
        let mut i: usize = 0;
        proof {
            lemma_filter_empty(of_bloc(bloc_id@));
            assert(self@.props.subrange(0, 0) =~= Seq::<PropV>::empty());
            assert(props_json_views(out@) =~= prop_rows_as_json(Seq::<PropV>::empty()));
        }
        while i < n
            invariant
                i <= n,
                n == self@.props.len(),
                props_json_views(out@) == prop_rows_as_json(
                    self@.props.subrange(0, i as int).filter(of_bloc(bloc_id@)),
                ),
            decreases n - i,
        {
            let ghost pre = self@.props.subrange(0, i as int).filter(of_bloc(bloc_id@));
            let ghost out0 = out@;
            let row = self.prop_ref(i);
            if row.bloc_id == bloc_id {
                let pj = PropsJson {
                    id: Some(row.id.clone()),
                    key: row.key.clone(),
                    value: row.value.clone(),
                    bloc_id: row.bloc_id.clone(),
                };
                proof {
                    assert(pj@ == prop_row_as_json(self@.props[i as int]));
                }
                out.push(pj);
                proof {
                    lemma_filter_take_step(self@.props, of_bloc(bloc_id@), i as int);
                    assert(props_json_views(out@) =~= props_json_views(out0).push(
                        prop_row_as_json(self@.props[i as int]),
                    ));
                    assert(prop_rows_as_json(pre.push(self@.props[i as int]))
                        =~= prop_rows_as_json(pre).push(prop_row_as_json(self@.props[i as int])));
                    assert(props_json_views(out@) =~= prop_rows_as_json(
                        self@.props.subrange(0, i as int + 1).filter(of_bloc(bloc_id@)),
                    ));
                }
            } else {
                proof {
                    lemma_filter_take_step(self@.props, of_bloc(bloc_id@), i as int);
                    assert(props_json_views(out@) =~= prop_rows_as_json(
                        self@.props.subrange(0, i as int + 1).filter(of_bloc(bloc_id@)),
                    ));
                }
            }
            i = i + 1;
        }
        proof {
            assert(self@.props.subrange(0, n as int) =~= self@.props);
        }
        Ok(out)
    }

    /// Read all properties sharing a key, across every block, in table
    /// order. No match yields an empty sequence, not an error.
    pub fn get_props_by_key(&self, key: String) -> (r: Result<Vec<PropsJson>, StorageError>)
        ensures
            match r {
                Ok(v) => props_json_views(v@) == prop_rows_as_json(
                    self@.props.filter(with_key(key@)),
                ),
                Err(_) => false,
            },
    {
        let n = self.props_len();
        let mut out: Vec<PropsJson> = Vec::new();
        let mut i: usize = 0;
        proof {
            lemma_filter_empty(with_key(key@));
            assert(self@.props.subrange(0, 0) =~= Seq::<PropV>::empty());
            assert(props_json_views(out@) =~= prop_rows_as_json(Seq::<PropV>::empty()));
        }
        while i < n
            invariant
                i <= n,
                n == self@.props.len(),
                props_json_views(out@) == prop_rows_as_json(
                    self@.props.subrange(0, i as int).filter(with_key(key@)),
                ),
            decreases n - i,
        {
            let ghost pre = self@.props.subrange(0, i as int).filter(with_key(key@));
            let ghost out0 = out@;
            let row = self.prop_ref(i);
            if row.key == key {
                let pj = PropsJson {
                    id: Some(row.id.clone()),
                    key: row.key.clone(),
                    value: row.value.clone(),
                    bloc_id: row.bloc_id.clone(),
                };
                proof {
                    assert(pj@ == prop_row_as_json(self@.props[i as int]));
                }
                out.push(pj);
                proof {
                    lemma_filter_take_step(self@.props, with_key(key@), i as int);
                    assert(props_json_views(out@) =~= props_json_views(out0).push(
                        prop_row_as_json(self@.props[i as int]),
                    ));
                    assert(prop_rows_as_json(pre.push(self@.props[i as int]))
                        =~= prop_rows_as_json(pre).push(prop_row_as_json(self@.props[i as int])));
                    assert(props_json_views(out@) =~= prop_rows_as_json(
                        self@.props.subrange(0, i as int + 1).filter(with_key(key@)),
                    ));
                }
            } else {
                proof {
                    lemma_filter_take_step(self@.props, with_key(key@), i as int);
                    assert(props_json_views(out@) =~= prop_rows_as_json(
                        self@.props.subrange(0, i as int + 1).filter(with_key(key@)),
                    ));
                }
            }
            i = i + 1;
        }
        proof {
            assert(self@.props.subrange(0, n as int) =~= self@.props);
        }
        Ok(out)
    }

    /// Rename a property key globally: every row holding the old key takes
    /// the new one, across all blocks, not just one block's property.
    /// Returns whether any row was affected.
    pub fn change_prop_key_name(&mut self, key: String, new_key: String) -> (r: Result<
        bool,
        StorageError,
    >)
        requires
            old(self).wf(),
        ensures
            final(self).wf(),
            final(self)@.pages == old(self)@.pages,
            final(self)@.blocs == old(self)@.blocs,
            match r {
                Ok(b) => {
                    &&& final(self)@.props == props_rekeyed(old(self)@.props, key@, new_key@)
                    &&& b == exists|k: int|
                        0 <= k < old(self)@.props.len() && (#[trigger] old(self)@.props[k]).key
                            == key@
                },
                Err(_) => false,
            },
    {
        let n = self.props_len();
        let mut changed = false;
        let mut i: usize = 0;
        while i < n
            invariant
                i <= n,
                n == old(self)@.props.len(),
                self@.props.len() == old(self)@.props.len(),
                self@.pages == old(self)@.pages,
                self@.blocs == old(self)@.blocs,
                self.wf(),
                forall|k: int|
                    0 <= k < i ==> #[trigger] self@.props[k] == (if old(self)@.props[k].key == key@ {
                        prop_rekeyed(old(self)@.props[k], new_key@)
                    } else {
                        old(self)@.props[k]
                    }),
                forall|k: int| i <= k < n ==> #[trigger] self@.props[k] == old(self)@.props[k],
                changed == exists|k: int|
                    0 <= k < i && (#[trigger] old(self)@.props[k]).key == key@,
            decreases n - i,
        {
            let ghost props0 = self@.props;
            let hit = {
                let row = self.prop_ref(i);
                row.key == key
            };
            if hit {
                let mut row = self.remove_prop_at(i);
                row.key = new_key.clone();
                self.insert_prop_at(i, row);
                changed = true;
                proof {
                    assert(self@.props =~= props0.update(i as int, row@));
                }
            }
            i = i + 1;
        }
        proof {
            assert(self@.props =~= props_rekeyed(old(self)@.props, key@, new_key@));
        }
        Ok(changed)
    }
}

} // verus!
