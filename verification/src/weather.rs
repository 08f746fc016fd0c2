//! Fetching current weather: the weather request URL and the decoding of
//! the current-weather response into `WeatherData`.

use crate::decimal::{
    fixed_decimal_seq, fixed_val, format_fixed, is_fixed_decimal, lemma_pow10_values, parse_fixed,
};
use crate::structures::{
    ApiError, WeatherData, MAX_PRESSURE_HPA, MAX_TEMPERATURE_CENTI, MAX_WIND_SPEED_CENTI,
};
use vstd::prelude::*;

verus! {

/// The query URL that fetches current weather for a coordinate pair, both
/// angles rendered at scale seven.
pub open spec fn weather_url_spec(lat_e7: int, lon_e7: int, key: Seq<char>) -> Seq<char> {
    "https://api.openweathermap.org/data/2.5/weather?lat="@ + fixed_decimal_seq(lat_e7, 7)
        + "&lon="@ + fixed_decimal_seq(lon_e7, 7) + "&appid="@ + key
}

pub fn weather_url(latitude_e7: i64, longitude_e7: i64, api_key: &str) -> (r: String)
    requires
        latitude_e7 != i64::MIN,
        longitude_e7 != i64::MIN,
    ensures
        r@ == weather_url_spec(latitude_e7 as int, longitude_e7 as int, api_key@),
{
    let mut url = String::from_str("https://api.openweathermap.org/data/2.5/weather?lat=");
    let lat_text = format_fixed(latitude_e7, 7);
    url.append(lat_text.as_str());
    url.append("&lon=");
    let lon_text = format_fixed(longitude_e7, 7);
    url.append(lon_text.as_str());
    url.append("&appid=");
    url.append(api_key);
    proof {
        assert(url@ =~= weather_url_spec(latitude_e7 as int, longitude_e7 as int, api_key@));
    }
    url
}

/// One weather-condition entry of the response.
pub struct ConditionRecord {
    pub id: u64,
    pub description: String,
}

/// The plain values pulled from a current-weather response body: the two
/// fractional quantities still as decimal text, exactly as the body carries
/// them.
pub struct WeatherRecord {
    pub temperature_text: String,
    pub humidity: u64,
    pub pressure: u64,
    pub wind_speed_text: String,
    pub conditions: Vec<ConditionRecord>,
    pub timestamp: u64,
}

/// The record decodes: every numeric field reads as a decimal in its
/// physically plausible range, at least one condition entry is present, and
/// its description is non-empty.
pub open spec fn weather_record_ok(r: WeatherRecord) -> bool {
    &&& is_fixed_decimal(r.temperature_text@)
    &&& 0 <= fixed_val(r.temperature_text@, 2) <= MAX_TEMPERATURE_CENTI
    &&& r.humidity <= 100
    &&& 1 <= r.pressure <= MAX_PRESSURE_HPA
    &&& is_fixed_decimal(r.wind_speed_text@)
    &&& 0 <= fixed_val(r.wind_speed_text@, 2) <= MAX_WIND_SPEED_CENTI
    &&& r.conditions@.len() > 0
    &&& r.conditions@[0].description@.len() > 0
}

/// Decodes a current-weather response. A record whose fields do not read as
/// plausible values, or with no condition entry, is a decoding failure —
/// never a crash. Every success is fully populated and within the plausible
/// ranges.
pub fn decode_weather(record: WeatherRecord) -> (r: Result<WeatherData, ApiError>)
    ensures
        r is Ok <==> weather_record_ok(record),
        r matches Ok(w) ==> {
            &&& w.temperature_centi_kelvin == fixed_val(record.temperature_text@, 2)
            &&& w.humidity as u64 == record.humidity
            &&& w.pressure as u64 == record.pressure
            &&& w.wind_speed_centi == fixed_val(record.wind_speed_text@, 2)
            &&& w.condition_id == record.conditions@[0].id
            &&& w.description == record.conditions@[0].description
            &&& w.timestamp == record.timestamp
            &&& w.wf()
        },
        r matches Err(e) ==> e is Decode,
{
    proof {
        lemma_pow10_values();
    }
    let WeatherRecord {
        temperature_text,
        humidity,
        pressure,
        wind_speed_text,
        conditions,
        timestamp,
    } = record;
    let temperature_centi_kelvin: i64 = match parse_fixed(
        temperature_text.as_str(),
        2,
        MAX_TEMPERATURE_CENTI,
    ) {
        Some(x) => x,
        None => {
            return Err(
                ApiError::Decode(String::from_str("temperature was not a plausible decimal")),
            );
        },
    };
    if temperature_centi_kelvin < 0 {
        return Err(ApiError::Decode(String::from_str("temperature was below absolute zero")));
    }
    let wind_speed_centi: i64 = match parse_fixed(
        wind_speed_text.as_str(),
        2,
        MAX_WIND_SPEED_CENTI,
    ) {
        Some(x) => x,
        None => {
            return Err(
                ApiError::Decode(String::from_str("wind speed was not a plausible decimal")),
            );
        },
    };
    if wind_speed_centi < 0 {
        return Err(ApiError::Decode(String::from_str("wind speed was negative")));
    }
    if humidity > 100 {
        return Err(ApiError::Decode(String::from_str("humidity was over one hundred percent")));
    }
    if pressure < 1 || pressure > MAX_PRESSURE_HPA {
        return Err(ApiError::Decode(String::from_str("pressure was not plausible")));
    }
    let mut conditions = conditions;
    if conditions.len() == 0 {
        return Err(ApiError::Decode(String::from_str("weather response held no condition")));
    }
    let first = conditions.remove(0);
    if first.description.as_str().is_empty() {
        return Err(ApiError::Decode(String::from_str("condition description was empty")));
    }
    Ok(
        WeatherData {
            temperature_centi_kelvin,
            humidity: humidity as u8,
            pressure: pressure as u16,
            wind_speed_centi,
            condition_id: first.id,
            description: first.description,
            timestamp,
        },
    )
}

} // verus!
