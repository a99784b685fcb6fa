//! Fetch current weather for the user's approximate location or a named city.
//!
//! The library holds the verified logic: the configuration file format with
//! its load/merge/save rules, the geometry resolution from a geolocation
//! response, and the construction of the weather provider query URL.
//! Network and file I/O stay outside, in the surrounding application.

use vstd::prelude::*;

pub mod cli;
pub mod config;
pub mod query;
pub mod toml_text;

pub use cli::{Cli, Commands, QueryArgs};
pub use config::{CfgV, Config, ConfigError, GeometryMode};
pub use query::{GeoError, GeoField, Geometry, Weather};

verus! {

} // verus!
