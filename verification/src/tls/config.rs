//! What TLS is set up with.

use vstd::prelude::*;

verus! {

/// What TLS is set up with: `C` is the configuration of a client and `S` that of a server.
pub struct Config<C, S> {
    pub client: C,
    pub server: Option<S>,
    pub fingerprints: Vec<String>,
}

} // verus!
