//! Client-side logic for a weather-data provider's HTTP API.
//!
//! The library resolves a place name to geographic coordinates and fetches
//! current weather for a coordinate pair. It holds the parts of that work
//! that are pure computation: building request URLs, parsing and formatting
//! fixed-point decimal numbers, validating and decoding response records
//! into fully populated values, and sequencing the two-step lookup. The
//! HTTP transport and the JSON deserializer live outside the library and
//! hand it plain values.

pub mod convert;
pub mod decimal;
pub mod geocoding;
pub mod lookup;
pub mod structures;
pub mod weather;

pub use structures::ApiError;
pub use structures::Coordinates;
pub use structures::WeatherData;
