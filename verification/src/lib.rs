//! Claim ledger and host-lockout engine for coordinating exclusive use of a
//! shared host.
//!
//! The library owns the data model (claims, overmount records, the hogger) and
//! every rule that decides how that state changes: exclusivity at claim
//! creation, expiry, the hog/release transitions, and the reconciliation pass
//! that converges recorded lockout state with the ledger.  Instants are plain
//! epoch seconds; everything the operating system must be asked for (the
//! clock, account listings, mount calls, the persisted file) is handed in as
//! plain values by the caller.

use vstd::prelude::*;

pub mod claims;
pub mod diskstate;
pub mod hog;
pub mod strings;
pub mod util;

verus! {

} // verus!
