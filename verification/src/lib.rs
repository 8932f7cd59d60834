//! A credential-ledger core: three coupled registries that issue,
//! authenticate and score trust relationships between principals.
//!
//! - [`did`] owns decentralized-identity documents and institution records.
//! - [`credential`] owns issued credentials and their three indices, and
//!   reads identity state to authorize issuance.
//! - [`reputation`] owns endorsements and derived reputation scores.
//!
//! Each registry is an explicit store object; operations take the registries
//! they read by reference and mutate only their own state. The host that
//! authenticates callers and supplies the logical clock is outside this
//! crate: operations receive the caller principal and the current logical
//! time as arguments.

use vstd::prelude::*;

pub mod credential;
pub mod did;
pub mod hashing;
pub mod reputation;
pub mod store;

verus! {

/// The provenance of a call, as the host reports it: either the privileged
/// (governance) origin or an ordinary signed principal.
#[derive(Clone, Copy, PartialEq, Eq, Structural, Debug)]
pub enum Origin {
    /// The privileged caller role.
    Root,
    /// An ordinary caller, authenticated by the host as this principal.
    Signed(u64),
}

} // verus!
