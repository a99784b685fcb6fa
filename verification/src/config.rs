//! Configuration data: the API key, the geometry mode, and the three
//! forecast-section toggles, with the rules for loading and saving them.

use vstd::prelude::*;

verus! {

/// How the location is described to the weather provider: by coordinates
/// looked up from the caller's IP, or by city name and country code.
#[derive(Clone, Copy, Debug, PartialEq, Eq, Structural)]
pub enum GeometryMode {
    Location,
    City,
}

/// Why a configuration could not be loaded or saved.
#[derive(Clone, Copy, Debug, PartialEq, Eq, Structural)]
pub enum ConfigError {
    /// The file is absent or unreadable.
    NotFound,
    /// The file's text does not parse as a configuration.
    Malformed,
    /// The file parsed but its API key is empty.
    EmptyKey,
    /// The file could not be written.
    WriteFailed,
}

/// A configuration as mathematics: the API key as its characters.
pub struct CfgV {
    pub api_key: Seq<char>,
    pub geometry_mode: GeometryMode,
    pub minutely: bool,
    pub hourly: bool,
    pub daily: bool,
}

/// The persisted user settings.
#[derive(Debug)]
pub struct Config {
    pub api_key: String,
    pub geometry_mode: GeometryMode,
    pub minutely: bool,
    pub hourly: bool,
    pub daily: bool,
}

impl View for Config {
    type V = CfgV;

    open spec fn view(&self) -> CfgV {
        CfgV {
            api_key: self.api_key@,
            geometry_mode: self.geometry_mode,
            minutely: self.minutely,
            hourly: self.hourly,
            daily: self.daily,
        }
    }
}

/// The defaults: an empty key, coordinate mode, every section excluded.
pub open spec fn default_cfg() -> CfgV {
    CfgV {
        api_key: Seq::empty(),
        geometry_mode: GeometryMode::Location,
        minutely: false,
        hourly: false,
        daily: false,
    }
}

impl Default for Config {
    fn default() -> (r: Self)
        ensures
            r@ == default_cfg(),
    {
        Config {
            api_key: String::new(),
            geometry_mode: GeometryMode::Location,
            minutely: false,
            hourly: false,
            daily: false,
        }
    }
}

impl PartialEq for Config {
    fn eq(&self, other: &Config) -> (r: bool) {
        let same_mode = match (self.geometry_mode, other.geometry_mode) {
            (GeometryMode::Location, GeometryMode::Location) => true,
            (GeometryMode::City, GeometryMode::City) => true,
            _ => false,
        };
        self.api_key == other.api_key && same_mode && self.minutely == other.minutely
            && self.hourly == other.hourly && self.daily == other.daily
    }
}

impl vstd::std_specs::cmp::PartialEqSpecImpl for Config {
    open spec fn obeys_eq_spec() -> bool {
        true
    }

    open spec fn eq_spec(&self, other: &Config) -> bool {
        self@ == other@
    }
}

impl Config {
    /// A configuration with the documented defaults.
    pub fn fresh() -> (r: Self)
        ensures
            r@ == default_cfg(),
    {
        Config::default()
    }

    /// Parse the text of a configuration file.
    pub fn of_toml(text: &str) -> (r: Result<Config, ConfigError>)
        ensures
            match (&r, crate::toml_text::parse_config(text@)) {
                (Ok(c), Ok(cv)) => c@ == cv,
                (Err(e), Err(se)) => *e == se,
                _ => false,
            },
    {
        crate::toml_text::parse_config_text(text)
    }

    /// Write this configuration as file text.
    pub fn to_toml(&self) -> (r: String)
        ensures
            r@ == crate::toml_text::print_config(self@),
    {
        crate::toml_text::print_config_text(self)
    }
}

/// The message that each loading or saving failure shows.
pub open spec fn config_error_text(e: ConfigError) -> Seq<char> {
    match e {
        ConfigError::NotFound => "error opening config file; did you run `open-weather init`?"@,
        ConfigError::Malformed => "error parsing config file"@,
        ConfigError::EmptyKey => "empty key"@,
        ConfigError::WriteFailed => "error writing config file"@,
    }
}

impl ConfigError {
    /// A human-readable description of the failure.
    pub fn describe(&self) -> (r: String)
        ensures
            r@ == config_error_text(*self),
    {
        match self {
            ConfigError::NotFound => String::from_str(
                "error opening config file; did you run `open-weather init`?",
            ),
            ConfigError::Malformed => String::from_str("error parsing config file"),
            ConfigError::EmptyKey => String::from_str("empty key"),
            ConfigError::WriteFailed => String::from_str("error writing config file"),
        }
    }
}

} // verus!
