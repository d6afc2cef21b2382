//! Process configuration: an explicit immutable value, loaded once at startup
//! and handed to the adapters (connection addresses, credentials, directory
//! transport selection). Reading it from disk is I/O and lives outside the
//! verified core; the defaults live here.

use vstd::prelude::*;

verus! {

/// How the service directory is reached: over HTTP, or natively in-process
/// (the native transport loads its own configuration from the named path).
pub enum ConnectionType {
    Http { address: String },
    Native { config: String },
}

impl ConnectionType {
    /// The default directory connection.
    pub fn services() -> (r: Self)
        ensures
            r matches ConnectionType::Http { address } && address@ == "localhost:8080"@,
    {
        ConnectionType::Http { address: "localhost:8080".to_owned() }
    }
}

/// The document-store connection settings.
pub struct MongoConfig {
    pub address: String,
    pub username: String,
    pub password: String,
    pub auth_db: String,
    pub master_db: String,
}

impl Default for MongoConfig {
    fn default() -> (r: Self)
        ensures
            r.address@ == "mongodb://localhost:27017"@,
            r.username@ == "bob"@,
            r.password@ == "cratchit"@,
            r.auth_db@ == "admin"@,
            r.master_db@ == "atomics"@,
    {
        MongoConfig {
            address: "mongodb://localhost:27017".to_owned(),
            username: "bob".to_owned(),
            password: "cratchit".to_owned(),
            auth_db: "admin".to_owned(),
            master_db: "atomics".to_owned(),
        }
    }
}

/// The process-wide configuration value.
pub struct MasterConfig {
    pub port: u16,
    pub services_connection: ConnectionType,
    pub mongodb: MongoConfig,
}

impl Default for MasterConfig {
    fn default() -> (r: Self)
        ensures
            r.port == 8080,
            r.services_connection matches ConnectionType::Http { address } && address@
                == "localhost:8080"@,
            r.mongodb.address@ == "mongodb://localhost:27017"@,
            r.mongodb.username@ == "bob"@,
            r.mongodb.password@ == "cratchit"@,
            r.mongodb.auth_db@ == "admin"@,
            r.mongodb.master_db@ == "atomics"@,
    {
        MasterConfig {
            port: 8080,
            services_connection: ConnectionType::services(),
            mongodb: MongoConfig::default(),
        }
    }
}

} // verus!
