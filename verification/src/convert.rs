//! Unit conversions on in-memory values: pure numeric helpers with no
//! network dependency, importable separately from the client.
//!
//! Temperatures are held in hundredths of a unit, matching `WeatherData`.

use vstd::prelude::*;

verus! {

/// The offset between the kelvin and Celsius scales, in hundredths of a
/// degree: 273.15 K.
pub const CELSIUS_OFFSET_CENTI: i64 = 27_315;

/// The additive part of the kelvin-to-Fahrenheit formula, in hundredths of
/// a degree: 459.67 °F.
pub const FAHRENHEIT_OFFSET_CENTI: i64 = 45_967;

pub fn kelvin_to_celsius_centi(kelvin_centi: u64) -> (r: i64)
    requires
        kelvin_centi <= 1_000_000_000,
    ensures
        r == kelvin_centi - CELSIUS_OFFSET_CENTI,
{
    (kelvin_centi as i64) - CELSIUS_OFFSET_CENTI
}

pub fn celsius_to_kelvin_centi(celsius_centi: i64) -> (r: u64)
    requires
        -CELSIUS_OFFSET_CENTI <= celsius_centi <= 1_000_000_000,
    ensures
        r == celsius_centi + CELSIUS_OFFSET_CENTI,
{
    (celsius_centi + CELSIUS_OFFSET_CENTI) as u64
}

/// Fahrenheit from kelvin, the division truncated toward zero: one hundred
/// times °F is nine times the hundredths of kelvin over five, less the
/// offset.
pub fn kelvin_to_fahrenheit_centi(kelvin_centi: u64) -> (r: i64)
    requires
        kelvin_centi <= 1_000_000_000,
    ensures
        r == (kelvin_centi * 9) / 5 - FAHRENHEIT_OFFSET_CENTI,
{
    let scaled: u64 = kelvin_centi * 9;
    let divided: u64 = scaled / 5;
    (divided as i64) - FAHRENHEIT_OFFSET_CENTI
}

} // verus!
