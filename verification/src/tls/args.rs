//! What to load certificates, keys and roots from.

use std::path::PathBuf;
use vstd::prelude::*;

verus! {

/// Where certificates, keys and roots come from.
#[derive(Clone)]
pub struct Args {
    /// Use the certificates at these paths, encoded as PEM.
    pub cert: Vec<PathBuf>,
    /// Use the private keys at these paths, encoded as PEM.
    pub key: Vec<PathBuf>,
    /// Use the TLS roots at these paths, encoded as PEM.
    pub root: Vec<PathBuf>,
    /// Danger: Disable TLS certificate verification.
    pub disable_verify: bool,
}

impl Default for Args {
    /// Load nothing, trust the roots of the platform and verify certificates.
    fn default() -> (args: Self)
        ensures
            args.cert@.len() == 0,
            args.key@.len() == 0,
            args.root@.len() == 0,
            !args.disable_verify,
    {
        Self { cert: Vec::new(), key: Vec::new(), root: Vec::new(), disable_verify: false }
    }
}

} // verus!
