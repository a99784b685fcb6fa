//! The two-step query pipeline: resolve a geometry from the geolocation
//! service's response, then build the weather provider's query URL.
//!
//! The network calls themselves live outside the library; here stands the
//! logic between them: JSON field extraction (through `serde_json`), the
//! choice of provider endpoint, and the query string with its exclude list.

use vstd::prelude::*;
use crate::config::{CfgV, Config, GeometryMode};

verus! {

/// A resolved location, consumed once by the weather fetch.  Coordinates
/// are carried as number text, the JSON rendering of the parsed numbers,
/// since the query URL is the only thing that reads them.
#[derive(Debug)]
pub enum Geometry {
    Location { lat: String, lon: String },
    City { city: String, country_code: String },
}

/// A geometry as mathematics: each field as its characters.
pub enum GeoV {
    Location { lat: Seq<char>, lon: Seq<char> },
    City { city: Seq<char>, country_code: Seq<char> },
}

impl View for Geometry {
    type V = GeoV;

    open spec fn view(&self) -> GeoV {
        match self {
            Geometry::Location { lat, lon } => GeoV::Location { lat: lat@, lon: lon@ },
            Geometry::City { city, country_code } => GeoV::City {
                city: city@,
                country_code: country_code@,
            },
        }
    }
}

impl PartialEq for Geometry {
    fn eq(&self, other: &Geometry) -> (r: bool) {
        match (self, other) {
            (Geometry::Location { lat: a, lon: b }, Geometry::Location { lat: c, lon: d }) => *a
                == *c && *b == *d,
            (
                Geometry::City { city: a, country_code: b },
                Geometry::City { city: c, country_code: d },
            ) => *a == *c && *b == *d,
            _ => false,
        }
    }
}

impl vstd::std_specs::cmp::PartialEqSpecImpl for Geometry {
    open spec fn obeys_eq_spec() -> bool {
        true
    }

    open spec fn eq_spec(&self, other: &Geometry) -> bool {
        self@ == other@
    }
}

/// A field the geolocation response must carry for the chosen mode.
#[derive(Clone, Copy, Debug, PartialEq, Eq, Structural)]
pub enum GeoField {
    Lat,
    Lon,
    City,
    CountryCode,
}

/// Why a geometry could not be resolved from a response body.
#[derive(Clone, Copy, Debug, PartialEq, Eq, Structural)]
pub enum GeoError {
    /// The body is not a JSON document.
    BadBody,
    /// A required field is missing or has the wrong type.
    FieldMissing(GeoField),
}

/// The name under which a field appears in the geolocation response.
pub open spec fn geo_field_text(f: GeoField) -> Seq<char> {
    match f {
        GeoField::Lat => "lat"@,
        GeoField::Lon => "lon"@,
        GeoField::City => "city"@,
        GeoField::CountryCode => "countryCode"@,
    }
}

impl GeoField {
    /// The field's name in the response.
    pub fn name(&self) -> (r: String)
        ensures
            r@ == geo_field_text(*self),
    {
        match self {
            GeoField::Lat => String::from_str("lat"),
            GeoField::Lon => String::from_str("lon"),
            GeoField::City => String::from_str("city"),
            GeoField::CountryCode => String::from_str("countryCode"),
        }
    }
}

// ---------------------------------------------------------------------------
// Trusted view of serde_json
// ---------------------------------------------------------------------------

/// Whether a text parses as a JSON document.  Named, not stated: serde_json
/// decides, by the text alone.
pub uninterp spec fn json_body_ok(body: Seq<char>) -> bool;

/// The rendered text of the numeric field `name` of the JSON document
/// `body`, if the body parses, carries the field, and the field is a
/// number.  A function of the two texts alone.
pub uninterp spec fn num_field_of(body: Seq<char>, name: Seq<char>) -> Option<Seq<char>>;

/// The string field `name` of the JSON document `body`, if the body
/// parses, carries the field, and the field is a string.  A function of
/// the two texts alone.
pub uninterp spec fn str_field_of(body: Seq<char>, name: Seq<char>) -> Option<Seq<char>>;

/// Relies on `serde_json::from_str`: a given text parses as JSON, or does
/// not, deterministically.
#[verifier::external_body]
fn json_body_parses(body: &str) -> (r: bool)
    ensures
        r == json_body_ok(body@),
{
    serde_json::from_str::<serde_json::Value>(body).is_ok()
}

/// Relies on `serde_json::from_str`, `Value::get`, `Value::as_number` and
/// `Number`'s `Display`: the text of the numeric field `name`, `None` when
/// the body does not parse, the field is absent, or it is not a number.
#[verifier::external_body]
fn number_field_text(body: &str, name: &str) -> (r: Option<String>)
    ensures
        match (&r, num_field_of(body@, name@)) {
            (Some(s), Some(t)) => s@ == t,
            (None, None) => true,
            _ => false,
        },
{
    match serde_json::from_str::<serde_json::Value>(body) {
        Ok(v) => v.get(name).and_then(|f| f.as_number()).map(|n| n.to_string()),
        Err(_) => None,
    }
}

/// Relies on `serde_json::from_str`, `Value::get` and `Value::as_str`: the
/// string field `name`, `None` when the body does not parse, the field is
/// absent, or it is not a string.
#[verifier::external_body]
fn string_field_text(body: &str, name: &str) -> (r: Option<String>)
    ensures
        match (&r, str_field_of(body@, name@)) {
            (Some(s), Some(t)) => s@ == t,
            (None, None) => true,
            _ => false,
        },
{
    match serde_json::from_str::<serde_json::Value>(body) {
        Ok(v) => v.get(name).and_then(|f| f.as_str()).map(|s| s.to_owned()),
        Err(_) => None,
    }
}

// ---------------------------------------------------------------------------
// Geometry resolution
// ---------------------------------------------------------------------------

/// The coordinate geometry made from the extracted `lat` and `lon` fields:
/// both present gives the location, a missing field names the first field
/// missing, `lat` before `lon`.
pub fn geometry_of_location_fields(lat: Option<String>, lon: Option<String>) -> (r: Result<
    Geometry,
    GeoError,
>)
    ensures
        (match (lat, lon) {
            (None, _) => r == Err::<Geometry, GeoError>(GeoError::FieldMissing(GeoField::Lat)),
            (Some(_), None) => r == Err::<Geometry, GeoError>(
                GeoError::FieldMissing(GeoField::Lon),
            ),
            (Some(la), Some(lo)) => match r {
                Ok(g) => g@ == (GeoV::Location { lat: la@, lon: lo@ }),
                Err(_) => false,
            },
        }),
{
    match lat {
        None => Err(GeoError::FieldMissing(GeoField::Lat)),
        Some(la) => match lon {
            None => Err(GeoError::FieldMissing(GeoField::Lon)),
            Some(lo) => Ok(Geometry::Location { lat: la, lon: lo }),
        },
    }
}

/// The city geometry made from the extracted `city` and `countryCode`
/// fields: both present gives the city, a missing field names the first
/// field missing, `city` before `countryCode`.
pub fn geometry_of_city_fields(city: Option<String>, country_code: Option<String>) -> (r: Result<
    Geometry,
    GeoError,
>)
    ensures
        (match (city, country_code) {
            (None, _) => r == Err::<Geometry, GeoError>(GeoError::FieldMissing(GeoField::City)),
            (Some(_), None) => r == Err::<Geometry, GeoError>(
                GeoError::FieldMissing(GeoField::CountryCode),
            ),
            (Some(c), Some(cc)) => match r {
                Ok(g) => g@ == (GeoV::City { city: c@, country_code: cc@ }),
                Err(_) => false,
            },
        }),
{
    match city {
        None => Err(GeoError::FieldMissing(GeoField::City)),
        Some(c) => match country_code {
            None => Err(GeoError::FieldMissing(GeoField::CountryCode)),
            Some(cc) => Ok(Geometry::City { city: c, country_code: cc }),
        },
    }
}

/// What resolution yields for a mode and a response body.  The named
/// results of the serde_json calls decide everything, so equal bodies
/// resolve alike: a body that is not JSON fails with the bad-body error;
/// coordinate mode then needs the numeric `lat` and `lon` fields, city
/// mode the string `city` and `countryCode` fields, the first absent one
/// named in the error.
pub open spec fn resolved_geometry(mode: GeometryMode, body: Seq<char>) -> Result<
    GeoV,
    GeoError,
> {
    if !json_body_ok(body) {
        Err(GeoError::BadBody)
    } else {
        match mode {
            GeometryMode::Location => match (
                num_field_of(body, "lat"@),
                num_field_of(body, "lon"@),
            ) {
                (None, _) => Err(GeoError::FieldMissing(GeoField::Lat)),
                (Some(_), None) => Err(GeoError::FieldMissing(GeoField::Lon)),
                (Some(la), Some(lo)) => Ok(GeoV::Location { lat: la, lon: lo }),
            },
            GeometryMode::City => match (
                str_field_of(body, "city"@),
                str_field_of(body, "countryCode"@),
            ) {
                (None, _) => Err(GeoError::FieldMissing(GeoField::City)),
                (Some(_), None) => Err(GeoError::FieldMissing(GeoField::CountryCode)),
                (Some(c), Some(cc)) => Ok(GeoV::City { city: c, country_code: cc }),
            },
        }
    }
}

impl Geometry {
    /// Resolve a geometry from the geolocation service's response body:
    /// exactly what `resolved_geometry` says for this mode and body.
    pub fn resolve(mode: &GeometryMode, body: &str) -> (r: Result<Geometry, GeoError>)
        ensures
            match (&r, resolved_geometry(*mode, body@)) {
                (Ok(g), Ok(gv)) => g@ == gv,
                (Err(e), Err(se)) => *e == se,
                _ => false,
            },
    {
        if !json_body_parses(body) {
            return Err(GeoError::BadBody);
        }
        match mode {
            GeometryMode::Location => {
                let lat = number_field_text(body, "lat");
                let lon = number_field_text(body, "lon");
                geometry_of_location_fields(lat, lon)
            },
            GeometryMode::City => {
                let city = string_field_text(body, "city");
                let country_code = string_field_text(body, "countryCode");
                geometry_of_city_fields(city, country_code)
            },
        }
    }
}

// ---------------------------------------------------------------------------
// The weather query URL
// ---------------------------------------------------------------------------

/// The forecast sections left out of the response: each section whose
/// toggle is off, comma-separated, in the fixed order minutely, hourly,
/// daily.
pub open spec fn exclude_names(m: bool, h: bool, d: bool) -> Seq<char> {
    (if !m {
        "minutely"@
    } else {
        Seq::empty()
    }) + (if !h {
        (if !m {
            ","@
        } else {
            Seq::empty()
        }) + "hourly"@
    } else {
        Seq::empty()
    }) + (if !d {
        (if !m || !h {
            ","@
        } else {
            Seq::empty()
        }) + "daily"@
    } else {
        Seq::empty()
    })
}

/// The exclude parameter, or nothing when every section is kept.
pub open spec fn exclude_text(m: bool, h: bool, d: bool) -> Seq<char> {
    if m && h && d {
        Seq::empty()
    } else {
        "&exclude="@ + exclude_names(m, h, d)
    }
}

/// The provider base, endpoint and location parameters.  The endpoint
/// follows the geometry variant, not the configured mode: coordinates go
/// to the onecall path, a city to the classic path.
pub open spec fn url_head(c: CfgV, g: GeoV) -> Seq<char> {
    "https://api.openweathermap.org/data"@ + (match g {
        GeoV::Location { lat, lon } => "/3.0/onecall"@ + "?appid="@ + c.api_key + "&lat="@ + lat
            + "&lon="@ + lon,
        GeoV::City { city, country_code } => "/2.5/weather"@ + "?appid="@ + c.api_key + "&q="@
            + city + ","@ + country_code,
    })
}

/// The full weather query URL.
pub open spec fn weather_url(c: CfgV, g: GeoV) -> Seq<char> {
    url_head(c, g) + "&units="@ + "metric"@ + exclude_text(c.minutely, c.hourly, c.daily)
}

/// The raw response of one weather query.
#[derive(Debug)]
pub struct Weather {
    pub body: String,
}

impl Weather {
    /// Build the provider query URL for a configuration and a resolved
    /// geometry.
    #[verifier::rlimit(50)]
    pub fn query_url(config: &Config, geo: &Geometry) -> (r: String)
        ensures
            r@ == weather_url(config@, geo@),
    {
        let mut out = String::new();
        out.append("https://api.openweathermap.org/data");
        match geo {
            Geometry::Location { lat, lon } => {
                out.append("/3.0/onecall");
                out.append("?appid=");
                out.append(config.api_key.as_str());
                out.append("&lat=");
                out.append(lat.as_str());
                out.append("&lon=");
                out.append(lon.as_str());
            },
            Geometry::City { city, country_code } => {
                out.append("/2.5/weather");
                out.append("?appid=");
                out.append(config.api_key.as_str());
                out.append("&q=");
                out.append(city.as_str());
                out.append(",");
                out.append(country_code.as_str());
            },
        }
        proof {
            assert(out@ =~= url_head(config@, geo@));
        }
        out.append("&units=");
        out.append("metric");
        let ghost with_units = url_head(config@, geo@) + "&units="@ + "metric"@;
        proof {
            assert(out@ =~= with_units);
        }
        if !(config.minutely && config.hourly && config.daily) {
            out.append("&exclude=");
            if !config.minutely {
                out.append("minutely");
            }
            if !config.hourly {
                if !config.minutely {
                    out.append(",");
                }
                out.append("hourly");
            }
            if !config.daily {
                if !config.minutely || !config.hourly {
                    out.append(",");
                }
                out.append("daily");
            }
            proof {
                assert(out@ =~= with_units + "&exclude="@ + exclude_names(
                    config.minutely,
                    config.hourly,
                    config.daily,
                ));
            }
        }
        proof {
            assert(out@ =~= weather_url(config@, geo@));
        }
        out
    }
}

// ---------------------------------------------------------------------------
// Trusted view of the url crate
// ---------------------------------------------------------------------------

#[verifier::external_type_specification]
#[verifier::external_body]
pub struct ExUrl(url::Url);

/// Whether the `url` crate accepts a text as a URL.  Named, not stated:
/// its parser decides, by the text alone.
pub uninterp spec fn url_accepts(s: Seq<char>) -> bool;

/// Relies on `url::Url::parse`: it accepts a given text, or does not,
/// deterministically.
#[verifier::external_body]
fn url_parse(s: &str) -> (r: Option<url::Url>)
    ensures
        r is Some <==> url_accepts(s@),
{
    url::Url::parse(s).ok()
}

impl Weather {
    /// The query URL in parsed form, ready for the transport; `None`
    /// exactly when the `url` crate does not accept the built text.
    pub fn query_endpoint(config: &Config, geo: &Geometry) -> (r: Option<url::Url>)
        ensures
            r is Some <==> url_accepts(weather_url(config@, geo@)),
    {
        let s = Weather::query_url(config, geo);
        url_parse(s.as_str())
    }
}

} // verus!
