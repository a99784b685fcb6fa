//! The command surface: the two subcommands, the query-time overrides, and
//! the decisions the dispatcher takes before it touches the outside world.

use vstd::prelude::*;
use crate::config::{default_cfg, CfgV, Config, ConfigError, GeometryMode};

verus! {

/// Optional overrides given on the command line for one query.
#[derive(Debug)]
pub struct QueryArgs {
    pub api_key: Option<String>,
    pub mode: Option<GeometryMode>,
    pub minutely: Option<bool>,
    pub hourly: Option<bool>,
    pub daily: Option<bool>,
}

/// The configuration after the overrides are applied: a present override
/// replaces its field, an absent one leaves the field untouched.
pub open spec fn merged_cfg(c: CfgV, a: QueryArgs) -> CfgV {
    CfgV {
        api_key: match a.api_key {
            Some(k) => k@,
            None => c.api_key,
        },
        geometry_mode: match a.mode {
            Some(m) => m,
            None => c.geometry_mode,
        },
        minutely: match a.minutely {
            Some(b) => b,
            None => c.minutely,
        },
        hourly: match a.hourly {
            Some(b) => b,
            None => c.hourly,
        },
        daily: match a.daily {
            Some(b) => b,
            None => c.daily,
        },
    }
}

impl QueryArgs {
    /// Apply these overrides to a loaded configuration.
    pub fn update_config(self, config: &mut Config)
        ensures
            final(config)@ == merged_cfg(old(config)@, self),
    {
        let QueryArgs { api_key, mode, minutely, hourly, daily } = self;
        if let Some(key) = api_key {
            config.api_key = key;
        }
        if let Some(m) = mode {
            config.geometry_mode = m;
        }
        if let Some(b) = minutely {
            config.minutely = b;
        }
        if let Some(b) = hourly {
            config.hourly = b;
        }
        if let Some(b) = daily {
            config.daily = b;
        }
    }
}

/// The subcommand chosen for this run.
#[derive(Debug)]
pub enum Commands {
    /// Query the weather, with optional overrides.
    Query(QueryArgs),
    /// Edit the configuration file.
    Edit,
}

/// The parsed command line.
#[derive(Debug)]
pub struct Cli {
    pub commands: Commands,
}

/// What the edit command persists before the editor opens: only a missing
/// configuration file is replaced, by the defaults; any existing file,
/// even one that no longer parses, is left for the editor untouched.
pub fn edit_initial_config(loaded: &Result<Config, ConfigError>) -> (r: Option<Config>)
    ensures
        match (loaded, &r) {
            (Err(e), Some(c)) => *e == ConfigError::NotFound && c@ == default_cfg(),
            (Err(e), None) => *e != ConfigError::NotFound,
            (Ok(_), None) => true,
            _ => false,
        },
{
    match loaded {
        Err(ConfigError::NotFound) => Some(Config::fresh()),
        _ => None,
    }
}

} // verus!
