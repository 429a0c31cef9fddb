use vstd::prelude::*;

verus! {

/// Settings of the HTTP layer.
#[derive(Debug, Clone)]
pub struct Config {
    /// From `BASE_URL`; `http://localhost:8080` when unset.
    pub base_url: String,
    /// From `PORT`; 8080 when unset.
    pub port: u16,
}

} // verus!
