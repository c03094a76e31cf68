//! Settings payload for the sign-in-with-Solana service.

use vstd::prelude::*;

verus! {

/// An optional behaviour toggle of the sign-in-with-Solana service.
#[derive(Clone, Copy, PartialEq, Eq, Structural, Debug)]
pub enum RuntimeFeature {
    IncludeUriInSeed,
    DisableSolToPrincipalMapping,
    DisablePrincipalToSolMapping,
}

/// The settings the sign-in-with-Solana service is initialised with.
pub struct SettingsInput {
    pub domain: String,
    pub uri: String,
    pub salt: String,
    pub chain_id: Option<String>,
    pub scheme: Option<String>,
    pub statement: Option<String>,
    pub sign_in_expires_in: Option<u64>,
    pub session_expires_in: Option<u64>,
    pub targets: Option<Vec<String>>,
    pub runtime_features: Option<Vec<RuntimeFeature>>,
}

} // verus!
