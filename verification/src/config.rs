//! Startup configuration and the log switch.
//!
//! The surrounding process reads the configuration document from disk and
//! hands the plain values in; this module validates them and gives the
//! rest of the library a well-formed `Config` to read.

use vstd::prelude::*;

verus! {

/// The values the control plane is started with.
pub struct Config {
    /// Bearer token every channel frame must present.
    pub api_token: String,
    /// Connection string of the authoritative store.
    pub database_url: String,
    /// Whether logging is wanted; absent means on.
    pub logs_enabled: Option<bool>,
    /// Credential for the external tunnel service.
    pub tunnel_api_key: String,
    /// Hostname served by the external tunnel service.
    pub tunnel_domain: String,
    /// Local port the proxy bridges dial.
    pub upstream_port: u16,
}

impl Config {
    /// A configuration is usable when its required keys are present,
    /// that is non-empty.
    pub open spec fn wf(self) -> bool {
        self.api_token@.len() > 0 && self.database_url@.len() > 0
    }

    /// The loaded configuration, out of the process-wide slot the
    /// surrounding program fills once at startup.
    pub fn get(loaded: &Option<Config>) -> (r: &Config)
        requires
            loaded is Some,
        ensures
            r == loaded->0,
    {
        match loaded {
            Some(c) => c,
            None => unreached(),
        }
    }

    /// Check the required keys; a missing one is fatal at startup.
    pub fn validate(self) -> (r: Result<Config, ConfigError>)
        ensures
            self.wf() ==> r == Result::<Config, ConfigError>::Ok(self),
            !self.wf() ==> r is Err,
            r is Ok ==> r->Ok_0 == self && self.wf(),
    {
        if self.api_token.as_str().unicode_len() == 0 {
            Err(ConfigError::MissingApiToken)
        } else if self.database_url.as_str().unicode_len() == 0 {
            Err(ConfigError::MissingDatabaseUrl)
        } else {
            Ok(self)
        }
    }

    /// Whether logs are wanted: absent defaults to on.
    pub fn logs_wanted(&self) -> (r: bool)
        ensures
            r == (self.logs_enabled != Some(false)),
    {
        match self.logs_enabled {
            Some(false) => false,
            _ => true,
        }
    }
}

/// A required configuration key was absent.
#[derive(PartialEq, Eq, Structural, Clone, Copy, Debug)]
pub enum ConfigError {
    MissingApiToken,
    MissingDatabaseUrl,
}

/// The process-wide log switch, held by the caller and passed in.
pub struct LogSettings {
    pub enabled: bool,
}

/// Turn logging on.
pub fn enable_logs(settings: &mut LogSettings)
    ensures
        final(settings).enabled,
{
    settings.enabled = true;
}

/// Turn logging off.
pub fn disable_logs(settings: &mut LogSettings)
    ensures
        !final(settings).enabled,
{
    settings.enabled = false;
}

} // verus!
