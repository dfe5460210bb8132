use vstd::prelude::*;
use crate::errors::StorageError;
use crate::store::{store_wf, Database, StoreV};

verus! {

/// The session manager: owns the one storage-engine instance, initialized
/// to empty. Every access goes through it and fails fast with
/// `Uninitialized` until an engine has been installed, which makes "open
/// the store" an explicit, observable precondition rather than a side
/// effect of first use. Mutual exclusion around the session is the
/// hosting shell's affair.
pub struct AppState {
    db: Option<Database>,
}

impl View for AppState {
    type V = Option<StoreV>;

    closed spec fn view(&self) -> Option<StoreV> {
        match self.db {
            Some(ref db) => Some(db@),
            None => None,
        }
    }
}

impl AppState {
    /// Well-formedness: whatever engine is installed holds a well-formed
    /// store.
    pub open spec fn wf(&self) -> bool {
        match self@ {
            Some(s) => store_wf(s),
            None => true,
        }
    }
}

impl Default for AppState {
    /// A fresh session: no engine installed yet.
    fn default() -> (r: AppState)
        ensures
            r@ is None,
            r.wf(),
    {
        AppState { db: None }
    }
}

impl AppState {
    /// Install an opened engine, replacing any earlier one. The caller
    /// builds the engine (and its backing resources) first; from here on
    /// every operation is allowed.
    pub fn init_db(&mut self, db: Database)
        ensures
            final(self)@ == Some(db@),
            store_wf(db@) ==> final(self).wf(),
    {
        self.db = Some(db);
    }

    /// Whether an engine has been installed.
    pub fn is_initialized(&self) -> (r: bool)
        ensures
            r == (self@ is Some),
    {
        self.db.is_some()
    }

    /// Checked access to the engine: the one place the `Uninitialized`
    /// failure arises, ahead of delegating to any storage operation.
    pub fn engine(&mut self) -> (r: Result<&mut Database, StorageError>)
        ensures
            match r {
                Ok(db) => {
                    &&& old(self)@ == Some(db@)
                    &&& final(self)@ == Some(final(db)@)
                },
                Err(e) => {
                    &&& e == StorageError::Uninitialized
                    &&& old(self)@ is None
                    &&& final(self)@ == old(self)@
                },
            },
    {
        match &mut self.db {
            Some(db) => Ok(db),
            None => Err(StorageError::Uninitialized),
        }
    }

    /// Read-only access to the engine, with the same fail-fast contract.
    pub fn engine_ref(&self) -> (r: Result<&Database, StorageError>)
        ensures
            match r {
                Ok(db) => self@ == Some(db@),
                Err(e) => e == StorageError::Uninitialized && self@ is None,
            },
    {
        match &self.db {
            Some(db) => Ok(db),
            None => Err(StorageError::Uninitialized),
        }
    }
}

} // verus!
