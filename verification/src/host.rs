//! Host dependencies selected by the executable before accepting operations.
use vstd::prelude::*;

use crate::config::CredentialSource;
use crate::credentials::{routes_to, source_for, SourceRoute};

verus! {

/// The configured credential sources and native TLS trust used by shipped launchers.
#[derive(Clone, Copy, Debug)]
pub struct NativeEnvironment;

impl NativeEnvironment {
    /// The source of a configured credential. Only some builds have a native store.
    pub fn credential_source(&self, reference: &CredentialSource, native: bool) -> (r: SourceRoute)
        ensures
            routes_to(*reference, native, r),
    {
        source_for(reference, native)
    }
}

} // verus!
