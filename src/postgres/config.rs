use vstd::prelude::*;

verus! {

/// Settings of the relational backend.
#[derive(Debug, Clone)]
pub struct Config {
    /// From `POSTGRES_DSN`.
    pub dsn: String,
}

} // verus!
