use openweather_cli::{Config, ConfigError, GeometryMode};

fn sample() -> Config {
    Config {
        api_key: String::from("abc123"),
        geometry_mode: GeometryMode::City,
        minutely: true,
        hourly: false,
        daily: true,
    }
}

#[test]
fn fresh_has_documented_defaults() {
    let c = Config::fresh();
    assert_eq!(c.api_key, "");
    assert!(matches!(c.geometry_mode, GeometryMode::Location));
    assert!(!c.minutely);
    assert!(!c.hourly);
    assert!(!c.daily);
}

#[test]
fn saved_text_is_exact() {
    let text = sample().to_toml();
    assert_eq!(
        text,
        "api_key = \"abc123\"\ngeometry_mode = \"city\"\nminutely = true\nhourly = false\ndaily = true\n"
    );
}

#[test]
fn save_then_load_round_trips() {
    let c = sample();
    let text = c.to_toml();
    let loaded = Config::of_toml(&text).unwrap();
    assert_eq!(loaded, c);
}

#[test]
fn save_then_load_round_trips_with_escapes() {
    let c = Config {
        api_key: String::from("a\"b\\c\nd\te\rf"),
        geometry_mode: GeometryMode::Location,
        minutely: false,
        hourly: true,
        daily: false,
    };
    let text = c.to_toml();
    let loaded = Config::of_toml(&text).unwrap();
    assert_eq!(loaded, c);
}

#[test]
fn empty_key_fails_with_empty_key_error() {
    let text = Config::fresh().to_toml();
    assert_eq!(Config::of_toml(&text), Err(ConfigError::EmptyKey));
    // whatever the other fields hold
    let other = Config {
        api_key: String::new(),
        geometry_mode: GeometryMode::City,
        minutely: true,
        hourly: true,
        daily: true,
    };
    assert_eq!(Config::of_toml(&other.to_toml()), Err(ConfigError::EmptyKey));
}

#[test]
fn missing_required_keys_are_malformed() {
    assert_eq!(
        Config::of_toml("api_key = \"k\"\n"),
        Err(ConfigError::Malformed)
    );
    assert_eq!(
        Config::of_toml("geometry_mode = \"city\"\n"),
        Err(ConfigError::Malformed)
    );
    assert_eq!(Config::of_toml(""), Err(ConfigError::Malformed));
}

#[test]
fn duplicate_key_is_malformed() {
    let text = "api_key = \"k\"\napi_key = \"k\"\ngeometry_mode = \"city\"\n";
    assert_eq!(Config::of_toml(text), Err(ConfigError::Malformed));
}

#[test]
fn garbage_is_malformed() {
    assert_eq!(Config::of_toml("not a config"), Err(ConfigError::Malformed));
    assert_eq!(
        Config::of_toml("api_key = unquoted\ngeometry_mode = \"city\"\n"),
        Err(ConfigError::Malformed)
    );
    assert_eq!(
        Config::of_toml("api_key = \"unterminated\ngeometry_mode = \"city\"\n"),
        Err(ConfigError::Malformed)
    );
    assert_eq!(
        Config::of_toml("api_key = \"k\"\ngeometry_mode = \"nowhere\"\n"),
        Err(ConfigError::Malformed)
    );
    assert_eq!(
        Config::of_toml("api_key = \"k\"\nminutely = \"yes\"\ngeometry_mode = \"city\"\n"),
        Err(ConfigError::Malformed)
    );
}

#[test]
fn unknown_keys_are_ignored() {
    let text = "api_key = \"k\"\nsomething_else = \"x\"\ngeometry_mode = \"location\"\n";
    let c = Config::of_toml(text).unwrap();
    assert_eq!(c.api_key, "k");
    assert!(matches!(c.geometry_mode, GeometryMode::Location));
}

#[test]
fn comments_and_blank_lines_are_allowed() {
    let text = "# the key\napi_key = \"k\" # inline\n\n   \ngeometry_mode = \"city\"\nhourly = true\n";
    let c = Config::of_toml(text).unwrap();
    assert_eq!(c.api_key, "k");
    assert!(matches!(c.geometry_mode, GeometryMode::City));
    assert!(!c.minutely);
    assert!(c.hourly);
    assert!(!c.daily);
}

#[test]
fn save_then_load_round_trips_with_control_characters() {
    let c = Config {
        api_key: String::from("a\u{1}b\u{1f}c"),
        geometry_mode: GeometryMode::City,
        minutely: false,
        hourly: false,
        daily: true,
    };
    let text = c.to_toml();
    assert!(text.contains("\\u0001"));
    assert!(text.contains("\\u001f"));
    let loaded = Config::of_toml(&text).unwrap();
    assert_eq!(loaded, c);
}

#[test]
fn unicode_escapes_parse() {
    let c = Config::of_toml("api_key = \"\\u0041\\u00e9\"\ngeometry_mode = \"city\"\n").unwrap();
    assert_eq!(c.api_key, "A\u{e9}");
}

#[test]
fn invalid_unicode_escapes_are_malformed() {
    // a surrogate code point is not a character
    assert_eq!(
        Config::of_toml("api_key = \"\\ud800\"\ngeometry_mode = \"city\"\n"),
        Err(ConfigError::Malformed)
    );
    // not hex digits
    assert_eq!(
        Config::of_toml("api_key = \"\\u00g1\"\ngeometry_mode = \"city\"\n"),
        Err(ConfigError::Malformed)
    );
    // cut short
    assert_eq!(
        Config::of_toml("api_key = \"\\u00\"\ngeometry_mode = \"city\"\n"),
        Err(ConfigError::Malformed)
    );
}

#[test]
fn literal_strings_take_characters_as_written() {
    let c = Config::of_toml("api_key = 'k\\path'\ngeometry_mode = 'city'\n").unwrap();
    assert_eq!(c.api_key, "k\\path");
    assert!(matches!(c.geometry_mode, GeometryMode::City));
    assert_eq!(
        Config::of_toml("api_key = 'open\ngeometry_mode = 'city'\n"),
        Err(ConfigError::Malformed)
    );
}

#[test]
fn geometry_mode_aliases_parse() {
    for (text, want_city) in [
        ("location", false),
        ("Location", false),
        ("LOCATION", false),
        ("v2.5", false),
        ("V2.5", false),
        ("city", true),
        ("City", true),
        ("CITY", true),
        ("v3.0", true),
        ("V3.0", true),
    ] {
        let file = format!("api_key = \"k\"\ngeometry_mode = \"{}\"\n", text);
        let c = Config::of_toml(&file).unwrap();
        assert_eq!(matches!(c.geometry_mode, GeometryMode::City), want_city);
    }
}

#[test]
fn toggles_default_to_false_when_absent() {
    let c = Config::of_toml("api_key = \"k\"\ngeometry_mode = \"city\"\n").unwrap();
    assert!(!c.minutely && !c.hourly && !c.daily);
}

#[test]
fn save_then_load_round_trips_with_non_ascii_key() {
    let c = Config {
        api_key: String::from("clé-☀-ключ"),
        geometry_mode: GeometryMode::City,
        minutely: true,
        hourly: true,
        daily: true,
    };
    let loaded = Config::of_toml(&c.to_toml()).unwrap();
    assert_eq!(loaded, c);
}

#[test]
fn carriage_returns_before_newlines_are_tolerated() {
    let text = "api_key = \"k\"\r\ngeometry_mode = \"city\"\r\n";
    let c = Config::of_toml(text).unwrap();
    assert_eq!(c.api_key, "k");
}

#[test]
fn error_descriptions() {
    assert_eq!(
        ConfigError::NotFound.describe(),
        "error opening config file; did you run `open-weather init`?"
    );
    assert_eq!(ConfigError::EmptyKey.describe(), "empty key");
    assert_eq!(ConfigError::Malformed.describe(), "error parsing config file");
    assert_eq!(ConfigError::WriteFailed.describe(), "error writing config file");
}
