//! Application configuration records and their validation rules. Loading
//! from files or the environment happens at the process boundary; the
//! records and the rules they must satisfy live here.
use vstd::prelude::*;

verus! {

/// Database settings.
#[derive(Debug)]
pub struct DatabaseConfig {
    pub db_url: String,
}

impl DatabaseConfig {
    /// The database URL must not be empty.
    pub open spec fn valid(self) -> bool {
        self.db_url@.len() >= 1
    }

    /// Checks this record against its rules.
    pub fn validate(&self) -> (r: bool)
        ensures
            r == self.valid(),
    {
        self.db_url.as_str().unicode_len() >= 1
    }
}

/// Server settings.
#[derive(Debug)]
pub struct ServerConfig {
    pub addr: String,
}

impl ServerConfig {
    /// The listen address must not be empty.
    pub open spec fn valid(self) -> bool {
        self.addr@.len() >= 1
    }

    /// Checks this record against its rules.
    pub fn validate(&self) -> (r: bool)
        ensures
            r == self.valid(),
    {
        self.addr.as_str().unicode_len() >= 1
    }
}

/// Logging settings; none of these fields is constrained.
#[derive(Debug)]
pub struct LoggingConfig {
    pub level: String,
    pub directory: Option<String>,
    pub enable_otel_logging: bool,
    pub otel_exporter_otlp_endpoint: Option<String>,
}

/// The whole application configuration.
#[derive(Debug)]
pub struct AppConfig {
    pub app_name: String,
    pub database: DatabaseConfig,
    pub server: ServerConfig,
    pub logging: LoggingConfig,
}

impl AppConfig {
    /// Every nested record satisfies its rules.
    pub open spec fn valid(self) -> bool {
        self.database.valid() && self.server.valid()
    }

    /// Checks this record and its nested records against their rules.
    pub fn validate(&self) -> (r: bool)
        ensures
            r == self.valid(),
    {
        self.database.validate() && self.server.validate()
    }
}

} // verus!
