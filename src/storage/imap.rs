//! A mailbox source. No mailbox reader is attached to it in this library,
//! so it yields no transactions of its own.
use vstd::prelude::*;

use crate::ids::SourceID;
use crate::structs::Transaction;
use crate::worldview::SourceCapabilities;

verus! {

/// A source of nodes and edges read from a mailbox.
#[derive(Debug)]
pub struct SourceIMAP {
    id: SourceID,
}

impl SourceIMAP {
    /// The identifier of this source.
    pub closed spec fn spec_id(&self) -> SourceID {
        self.id
    }

    /// A mailbox source of a fresh identifier.
    pub fn new() -> (r: SourceIMAP) {
        SourceIMAP { id: SourceID::rnd() }
    }

    /// What this source declares: it is polled by itself and takes no
    /// transactions back.
    pub fn capabilities(&self) -> (r: SourceCapabilities)
        ensures
            r.id == self.spec_id(),
            r.auto_fetch,
            !r.accepts_txs,
            !r.can_search,
    {
        SourceCapabilities { id: self.id, auto_fetch: true, accepts_txs: false, can_search: false }
    }

    /// The identifier of this source.
    pub fn get_id(&self) -> (r: SourceID)
        ensures
            r == self.spec_id(),
    {
        self.id
    }

    /// The transactions not returned before: none, as no mailbox is read.
    pub fn get_updates(&mut self) -> (r: Vec<Transaction>)
        ensures
            r.len() == 0,
            final(self).spec_id() == old(self).spec_id(),
    {
        Vec::new()
    }
}

} // verus!
