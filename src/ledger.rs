use vstd::prelude::*;

verus! {

/// The store's record of the highest migration version applied so far.
pub struct Ledger {
    version: u64,
}

impl View for Ledger {
    type V = nat;

    closed spec fn view(&self) -> nat {
        self.version as nat
    }
}

pub enum LedgerError {
    /// The version offered was not exactly one past the current one.
    VersionOrder { current: u64, offered: u64 },
}

impl Ledger {
    /// A ledger for a store that has never been migrated: version 0.
    pub fn new() -> (r: Ledger)
        ensures
            r@ == 0,
    {
        Ledger { version: 0 }
    }

    pub fn current_version(&self) -> (r: u64)
        ensures
            r == self@,
    {
        self.version
    }

    /// Advances the ledger by exactly one version; any other version is refused
    /// and leaves the ledger as it was.
    pub fn record_applied(&mut self, version: u64) -> (r: Result<(), LedgerError>)
        ensures
            r is Ok <==> version == old(self)@ + 1,
            r is Ok ==> final(self)@ == version,
            r is Err ==> *final(self) == *old(self),
            r matches Err(LedgerError::VersionOrder { current, offered })
                ==> current == old(self)@ && offered == version,
    {
        if self.version < u64::MAX && version == self.version + 1 {
            self.version = version;
            Ok(())
        } else {
            Err(LedgerError::VersionOrder { current: self.version, offered: version })
        }
    }
}

} // verus!
