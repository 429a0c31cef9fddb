use vstd::prelude::*;

verus! {

/// Settings of the distributed store.
#[derive(Debug, Clone)]
pub struct Config {
    /// From `SCYLLA_URL`.
    pub url: String,
    /// From `SCYLLA_USER`; `cassandra` when unset.
    pub user: String,
    /// From `SCYLLA_PASSWORD`; `cassandra` when unset.
    pub password: String,
    /// From `SCYLLA_KEYSPACE`; `walnuk` when unset.
    pub keyspace: String,
    /// From `SCYLLA_CA_CERT_PATH`; without it the connection does not use TLS.
    pub ca_cert_path: Option<String>,
    /// From `SCYLLA_CLIENT_CERT_PATH`.
    pub client_cert_path: Option<String>,
    /// From `SCYLLA_CLIENT_KEY_PATH`.
    pub client_key_path: Option<String>,
}

} // verus!
