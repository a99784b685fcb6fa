use openweather_cli::{Config, GeoError, GeoField, Geometry, GeometryMode, Weather};

fn cfg(key: &str, minutely: bool, hourly: bool, daily: bool) -> Config {
    Config {
        api_key: String::from(key),
        geometry_mode: GeometryMode::Location,
        minutely,
        hourly,
        daily,
    }
}

#[test]
fn resolve_location_reads_lat_and_lon() {
    let body = "{\"lat\":40.7,\"lon\":-74.0}";
    let g = Geometry::resolve(&GeometryMode::Location, body).unwrap();
    match g {
        Geometry::Location { lat, lon } => {
            assert_eq!(lat, "40.7");
            assert_eq!(lon, "-74.0");
        }
        other => panic!("expected coordinates, got {:?}", other),
    }
}

#[test]
fn resolve_location_rejects_non_numeric_lat() {
    let body = "{\"lat\":\"bad\"}";
    assert_eq!(
        Geometry::resolve(&GeometryMode::Location, body),
        Err(GeoError::FieldMissing(GeoField::Lat))
    );
}

#[test]
fn resolve_location_reports_missing_lon() {
    let body = "{\"lat\":40.7}";
    assert_eq!(
        Geometry::resolve(&GeometryMode::Location, body),
        Err(GeoError::FieldMissing(GeoField::Lon))
    );
}

#[test]
fn resolve_city_reads_city_and_country_code() {
    let body = "{\"city\":\"Paris\",\"countryCode\":\"FR\",\"lat\":48.86}";
    let g = Geometry::resolve(&GeometryMode::City, body).unwrap();
    match g {
        Geometry::City { city, country_code } => {
            assert_eq!(city, "Paris");
            assert_eq!(country_code, "FR");
        }
        other => panic!("expected a city, got {:?}", other),
    }
}

#[test]
fn resolve_city_reports_missing_fields() {
    assert_eq!(
        Geometry::resolve(&GeometryMode::City, "{\"countryCode\":\"FR\"}"),
        Err(GeoError::FieldMissing(GeoField::City))
    );
    assert_eq!(
        Geometry::resolve(&GeometryMode::City, "{\"city\":\"Paris\",\"countryCode\":7}"),
        Err(GeoError::FieldMissing(GeoField::CountryCode))
    );
}

#[test]
fn resolve_rejects_a_body_that_is_not_json() {
    assert_eq!(
        Geometry::resolve(&GeometryMode::Location, "{{{"),
        Err(GeoError::BadBody)
    );
}

#[test]
fn field_names_match_the_response() {
    assert_eq!(GeoField::Lat.name(), "lat");
    assert_eq!(GeoField::Lon.name(), "lon");
    assert_eq!(GeoField::City.name(), "city");
    assert_eq!(GeoField::CountryCode.name(), "countryCode");
}

#[test]
fn city_url_carries_the_classic_endpoint_and_exclude_list() {
    let config = cfg("K", false, true, false);
    let geo = Geometry::City {
        city: String::from("Paris"),
        country_code: String::from("FR"),
    };
    let url = Weather::query_url(&config, &geo);
    assert!(url.contains("/2.5/weather"));
    assert!(url.contains("appid=K"));
    assert!(url.contains("q=Paris,FR"));
    assert!(url.contains("units=metric"));
    assert!(url.contains("exclude=minutely,daily"));
    assert_eq!(
        url,
        "https://api.openweathermap.org/data/2.5/weather?appid=K&q=Paris,FR&units=metric&exclude=minutely,daily"
    );
}

#[test]
fn all_sections_kept_means_no_exclude_parameter() {
    let config = cfg("K", true, true, true);
    let geo = Geometry::City {
        city: String::from("Paris"),
        country_code: String::from("FR"),
    };
    let url = Weather::query_url(&config, &geo);
    assert!(!url.contains("exclude"));
    assert_eq!(
        url,
        "https://api.openweathermap.org/data/2.5/weather?appid=K&q=Paris,FR&units=metric"
    );
}

#[test]
fn location_url_carries_the_onecall_endpoint() {
    let config = cfg("K", false, false, false);
    let geo = Geometry::Location {
        lat: String::from("40.7"),
        lon: String::from("-74.0"),
    };
    let url = Weather::query_url(&config, &geo);
    assert_eq!(
        url,
        "https://api.openweathermap.org/data/3.0/onecall?appid=K&lat=40.7&lon=-74.0&units=metric&exclude=minutely,hourly,daily"
    );
}

#[test]
fn exclude_list_follows_each_toggle() {
    let geo = Geometry::Location { lat: String::from("1"), lon: String::from("2") };
    let tail = |m: bool, h: bool, d: bool| {
        let url = Weather::query_url(&cfg("K", m, h, d), &geo);
        url.split("units=metric").nth(1).unwrap().to_string()
    };
    assert_eq!(tail(true, false, false), "&exclude=hourly,daily");
    assert_eq!(tail(false, true, false), "&exclude=minutely,daily");
    assert_eq!(tail(false, false, true), "&exclude=minutely,hourly");
    assert_eq!(tail(true, true, false), "&exclude=daily");
    assert_eq!(tail(true, false, true), "&exclude=hourly");
    assert_eq!(tail(false, true, true), "&exclude=minutely");
}

#[test]
fn the_query_endpoint_parses_as_a_url() {
    let config = cfg("K", false, true, false);
    let geo = Geometry::City {
        city: String::from("Paris"),
        country_code: String::from("FR"),
    };
    assert!(Weather::query_endpoint(&config, &geo).is_some());
    let parsed = Weather::query_endpoint(&config, &geo).unwrap();
    assert_eq!(parsed.as_str(), Weather::query_url(&config, &geo));
}
