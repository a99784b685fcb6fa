use openweather_cli::cli::edit_initial_config;
use openweather_cli::{Config, ConfigError, GeometryMode, QueryArgs};

fn base() -> Config {
    Config {
        api_key: String::from("stored"),
        geometry_mode: GeometryMode::Location,
        minutely: false,
        hourly: true,
        daily: false,
    }
}

fn no_overrides() -> QueryArgs {
    QueryArgs { api_key: None, mode: None, minutely: None, hourly: None, daily: None }
}

#[test]
fn absent_overrides_leave_every_field_untouched() {
    let mut c = base();
    no_overrides().update_config(&mut c);
    assert_eq!(c, base());
}

#[test]
fn api_key_override_replaces_only_the_key() {
    let mut c = base();
    QueryArgs { api_key: Some(String::from("cli")), ..no_overrides() }.update_config(&mut c);
    assert_eq!(c.api_key, "cli");
    assert_eq!(c, Config { api_key: String::from("cli"), ..base() });
}

#[test]
fn mode_override_replaces_only_the_mode() {
    let mut c = base();
    QueryArgs { mode: Some(GeometryMode::City), ..no_overrides() }.update_config(&mut c);
    assert_eq!(c, Config { geometry_mode: GeometryMode::City, ..base() });
}

#[test]
fn toggle_overrides_replace_only_their_toggle() {
    let mut c = base();
    QueryArgs { minutely: Some(true), ..no_overrides() }.update_config(&mut c);
    assert_eq!(c, Config { minutely: true, ..base() });

    let mut c = base();
    QueryArgs { hourly: Some(false), ..no_overrides() }.update_config(&mut c);
    assert_eq!(c, Config { hourly: false, ..base() });

    let mut c = base();
    QueryArgs { daily: Some(true), ..no_overrides() }.update_config(&mut c);
    assert_eq!(c, Config { daily: true, ..base() });
}

#[test]
fn paired_overrides_leave_the_others_untouched() {
    let mut c = base();
    QueryArgs {
        api_key: Some(String::from("cli")),
        daily: Some(true),
        ..no_overrides()
    }
    .update_config(&mut c);
    assert_eq!(
        c,
        Config { api_key: String::from("cli"), daily: true, ..base() }
    );

    let mut c = base();
    QueryArgs { mode: Some(GeometryMode::City), hourly: Some(false), ..no_overrides() }
        .update_config(&mut c);
    assert_eq!(
        c,
        Config { geometry_mode: GeometryMode::City, hourly: false, ..base() }
    );
}

#[test]
fn edit_seeds_defaults_only_for_a_missing_file() {
    let missing: Result<Config, ConfigError> = Err(ConfigError::NotFound);
    let seeded = edit_initial_config(&missing).unwrap();
    assert_eq!(seeded, Config::fresh());

    let present: Result<Config, ConfigError> = Ok(base());
    assert!(edit_initial_config(&present).is_none());

    let malformed: Result<Config, ConfigError> = Err(ConfigError::Malformed);
    assert!(edit_initial_config(&malformed).is_none());

    let empty: Result<Config, ConfigError> = Err(ConfigError::EmptyKey);
    assert!(edit_initial_config(&empty).is_none());
}
