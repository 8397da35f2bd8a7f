//! Engine configuration: what the embedded store and its collaborators are
//! opened with.  Reading these from files or the environment happens
//! outside the library; here they are plain values.

use vstd::prelude::*;
use vstd::string::StringExecFns;

verus! {

/// The whole application configuration.
#[derive(Debug)]
pub struct AppConfig {
    pub server: ServerConfig,
    pub payments: PaymentsConfig,
}

/// Where the serving surface listens.
#[derive(Debug)]
pub struct ServerConfig {
    pub host: String,
    pub port: u16,
}

/// How the billing collaborator is reached.
#[derive(Debug)]
pub struct PaymentsConfig {
    pub provider: Option<String>,
    pub api_key: String,
    pub webhook_secret: String,
    pub default_price_id: String,
    pub success_url: String,
    pub cancel_url: String,
    pub portal_return_url: String,
}

/// Where the backing database lives.
#[derive(Debug)]
pub enum DatabaseEndpoint {
    /// An in-memory database.
    Memory,
    /// A remote database server.
    Remote { url: String, username: String, password: String },
}

/// How the backing database is opened.
#[derive(Debug)]
pub struct DatabaseConfig {
    pub endpoint: DatabaseEndpoint,
    pub namespace: String,
    pub database: String,
}

impl DatabaseConfig {
    /// A configuration for an in-memory database.
    pub fn memory() -> (r: Self)
        ensures
            r.endpoint is Memory,
            r.namespace@ == "onyx"@,
            r.database@ == "onyx"@,
    {
        DatabaseConfig {
            endpoint: DatabaseEndpoint::Memory,
            namespace: String::from_str("onyx"),
            database: String::from_str("onyx"),
        }
    }

    /// A configuration for a remote database server.
    pub fn remote(url: String, username: String, password: String) -> (r: Self)
        ensures
            r.endpoint matches DatabaseEndpoint::Remote { url: u, username: n, password: p } && u
                == url && n == username && p == password,
            r.namespace@ == "onyx"@,
            r.database@ == "onyx"@,
    {
        DatabaseConfig {
            endpoint: DatabaseEndpoint::Remote { url, username, password },
            namespace: String::from_str("onyx"),
            database: String::from_str("onyx"),
        }
    }
}

} // verus!
