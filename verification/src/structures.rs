//! Data model: coordinates, weather snapshots, and the error taxonomy.
//!
//! Angles, temperatures and wind speeds are held as fixed-point integers so
//! that every range invariant is a statement about plain machine integers:
//! angles in ten-millionths of a degree, temperatures in hundredths of a
//! kelvin, wind speeds in hundredths of a metre per second.

use vstd::prelude::*;

verus! {

/// Exactly two kinds of failure exist: the transport failed, or the response
/// body did not have the expected shape. The payload carries the underlying
/// error message verbatim; the library adds no further classification.
#[derive(Debug, Clone)]
pub enum ApiError {
    Transport(String),
    Decode(String),
}

/// A latitude in ten-millionths of a degree lies between the poles.
pub open spec fn valid_latitude_e7(v: int) -> bool {
    -900_000_000 <= v <= 900_000_000
}

/// A longitude in ten-millionths of a degree lies within a half turn of the
/// prime meridian.
pub open spec fn valid_longitude_e7(v: int) -> bool {
    -1_800_000_000 <= v <= 1_800_000_000
}

/// A geographic point resolved from a place name, together with the resolved
/// name and country returned by the geocoding endpoint.
#[derive(Debug, Clone)]
pub struct Coordinates {
    /// Latitude in ten-millionths of a degree, positive north.
    pub latitude_e7: i64,
    /// Longitude in ten-millionths of a degree, positive east.
    pub longitude_e7: i64,
    /// Resolved place name.
    pub name: String,
    /// Resolved country code.
    pub country: String,
}

impl Coordinates {
    /// Both angles lie in their global ranges.
    pub open spec fn wf(self) -> bool {
        valid_latitude_e7(self.latitude_e7 as int) && valid_longitude_e7(
            self.longitude_e7 as int,
        )
    }

    pub fn new(latitude_e7: i64, longitude_e7: i64, name: String, country: String) -> (r:
        Coordinates)
        requires
            valid_latitude_e7(latitude_e7 as int),
            valid_longitude_e7(longitude_e7 as int),
        ensures
            r.wf(),
            r.latitude_e7 == latitude_e7,
            r.longitude_e7 == longitude_e7,
            r.name == name,
            r.country == country,
    {
        Coordinates { latitude_e7, longitude_e7, name, country }
    }

    pub fn get_latitude(&self) -> (r: i64)
        ensures
            r == self.latitude_e7,
    {
        self.latitude_e7
    }

    pub fn get_longitude(&self) -> (r: i64)
        ensures
            r == self.longitude_e7,
    {
        self.longitude_e7
    }
}

/// A structured snapshot of current weather conditions. A value of this type
/// is only ever produced fully populated and inside the plausible ranges that
/// `wf` states.
#[derive(Debug, Clone)]
pub struct WeatherData {
    /// Temperature in hundredths of a kelvin.
    pub temperature_centi_kelvin: i64,
    /// Relative humidity in percent.
    pub humidity: u8,
    /// Atmospheric pressure in hectopascals.
    pub pressure: u16,
    /// Wind speed in hundredths of a metre per second.
    pub wind_speed_centi: i64,
    /// Provider's numeric code for the weather condition.
    pub condition_id: u64,
    /// Human-readable description of the weather condition.
    pub description: String,
    /// Unix timestamp of the snapshot, in seconds.
    pub timestamp: u64,
}

/// Upper bound on a plausible temperature, in hundredths of a kelvin.
pub const MAX_TEMPERATURE_CENTI: i64 = 40_000;

/// Upper bound on a plausible wind speed, in hundredths of a metre per second.
pub const MAX_WIND_SPEED_CENTI: i64 = 50_000;

/// Upper bound on a plausible pressure, in hectopascals.
pub const MAX_PRESSURE_HPA: u64 = 2_000;

impl WeatherData {
    /// Every numeric field lies in a physically plausible range and the
    /// condition description is non-empty.
    pub open spec fn wf(self) -> bool {
        &&& 0 <= self.temperature_centi_kelvin <= MAX_TEMPERATURE_CENTI
        &&& self.humidity <= 100
        &&& 1 <= self.pressure <= MAX_PRESSURE_HPA
        &&& 0 <= self.wind_speed_centi <= MAX_WIND_SPEED_CENTI
        &&& self.description@.len() > 0
    }
}

} // verus!
