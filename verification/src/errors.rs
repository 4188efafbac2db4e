//! Error taxonomy of the ledger core.

use vstd::prelude::*;

verus! {

/// The failure classes a ledger operation can report.
///
/// `Decode` marks malformed wire bytes; `Verification` a bad transaction
/// signature; `Integrity` a block whose hash or linkage does not check out;
/// `Duplicate` an already-seen block or transaction; `Store` a persistence
/// failure; `Signing` unavailable or corrupt key material.
#[derive(Clone, Copy, Debug, PartialEq, Eq, Structural)]
pub enum LedgerError {
    Decode,
    Verification,
    Integrity,
    Duplicate,
    Store,
    Signing,
}

impl LedgerError {
    /// A short stable name for each failure class, for logs and messages.
    pub fn describe(&self) -> (s: &'static str)
        ensures
            matches!(*self, LedgerError::Decode) ==> s@ == "malformed wire bytes"@,
            matches!(*self, LedgerError::Verification) ==> s@ == "signature verification failed"@,
            matches!(*self, LedgerError::Integrity) ==> s@ == "hash or linkage mismatch"@,
            matches!(*self, LedgerError::Duplicate) ==> s@ == "already seen"@,
            matches!(*self, LedgerError::Store) ==> s@ == "persistence failure"@,
            matches!(*self, LedgerError::Signing) ==> s@ == "signing key unavailable"@,
    {
        match self {
            LedgerError::Decode => "malformed wire bytes",
            LedgerError::Verification => "signature verification failed",
            LedgerError::Integrity => "hash or linkage mismatch",
            LedgerError::Duplicate => "already seen",
            LedgerError::Store => "persistence failure",
            LedgerError::Signing => "signing key unavailable",
        }
    }
}

} // verus!
