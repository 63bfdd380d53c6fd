//! The gateway's shared state.
use vstd::prelude::*;
use crate::common::memory_store::{History, SessionStore};

verus! {

/// The state the chat routes share: the session history store.
pub struct AppState {
    pub store: SessionStore,
}

impl AppState {
    pub fn new() -> (r: AppState)
        ensures
            r.store@ == History::empty(),
    {
        AppState { store: SessionStore::new() }
    }
}

} // verus!
