//! The service's configuration shapes, and the deployment environment with
//! its textual forms. Reading configuration files and environment variables
//! is the surrounding program's business; the shapes and the environment
//! parsing live here.

use vstd::prelude::*;
use vstd::string::StringExecFns;

verus! {

/// The OAuth endpoints and credentials the service authenticates with.
pub struct AuthSettings {
    pub client_id: String,
    pub client_secret: String,
    pub redirect_url: String,
    pub token_url: String,
    pub auth_url: String,
    pub introspection_url: String,
    pub revocation_url: String,
}

/// Where the relational store lives and how to identify to it.
pub struct DatabaseSettings {
    pub host: String,
    pub port: u16,
    pub database: String,
    pub user: String,
    pub application_name: String,
}

/// The address and port the service listens on.
pub struct ApplicationSettings {
    pub addr: [u8; 4],
    pub port: u16,
}

/// Everything the service is configured with.
pub struct Settings {
    pub database_settings: DatabaseSettings,
    pub auth_settings: AuthSettings,
    pub app_settings: ApplicationSettings,
    pub redis_url: String,
}

/// The deployment environment the service runs in.
#[derive(Clone, Copy, Debug, PartialEq, Eq, Structural)]
pub enum Environment {
    Development,
    Local,
    Staging,
    Production,
}

impl Environment {
    /// The short name of the environment, as configuration files are named
    /// after it.
    pub fn as_str(&self) -> (s: &str)
        ensures
            s@ == match *self {
                Environment::Development => "dev"@,
                Environment::Local => "local"@,
                Environment::Staging => "staging"@,
                Environment::Production => "production"@,
            },
    {
        match self {
            Environment::Development => "dev",
            Environment::Local => "local",
            Environment::Staging => "staging",
            Environment::Production => "production",
        }
    }

    /// The long name of the environment, as `try_from` accepts it.
    pub fn long_name(&self) -> (s: String)
        ensures
            s@ == match *self {
                Environment::Development => "development"@,
                Environment::Local => "local"@,
                Environment::Staging => "staging"@,
                Environment::Production => "production"@,
            },
    {
        match self {
            Environment::Development => "development".to_owned(),
            Environment::Local => "local".to_owned(),
            Environment::Staging => "staging".to_owned(),
            Environment::Production => "production".to_owned(),
        }
    }

    /// Parse an environment from its long name; any other text is rejected,
    /// echoed in the error message.
    pub fn try_from(value: String) -> (r: Result<Environment, String>)
        ensures
            match r {
                Ok(e) => match e {
                    Environment::Local => value@ == "local"@,
                    Environment::Development => value@ == "development"@,
                    Environment::Staging => value@ == "staging"@,
                    Environment::Production => value@ == "production"@,
                },
                Err(msg) => {
                    &&& value@ != "local"@
                    &&& value@ != "development"@
                    &&& value@ != "staging"@
                    &&& value@ != "production"@
                    &&& msg@ == "Failed to parse"@ + value@
                },
            },
    {
        if value == "local".to_owned() {
            Ok(Environment::Local)
        } else if value == "development".to_owned() {
            Ok(Environment::Development)
        } else if value == "staging".to_owned() {
            Ok(Environment::Staging)
        } else if value == "production".to_owned() {
            Ok(Environment::Production)
        } else {
            let prefix: String = "Failed to parse".to_owned();
            Err(prefix.concat(value.as_str()))
        }
    }
}

} // verus!
