//! Resolving a place name: the geocoding request URL and the decoding of
//! the geocoding response into `Coordinates`.

use crate::decimal::{fixed_val, is_fixed_decimal, lemma_pow10_values, parse_fixed};
use crate::structures::{valid_latitude_e7, valid_longitude_e7, ApiError, Coordinates};
use vstd::prelude::*;

verus! {

/// The query URL that resolves `city`, asking the provider for at most one
/// match.
pub open spec fn geocoding_url_spec(city: Seq<char>, key: Seq<char>) -> Seq<char> {
    "https://api.openweathermap.org/geo/1.0/direct?q="@ + city + "&limit=1&appid="@ + key
}

pub fn geocoding_url(city: &str, api_key: &str) -> (r: String)
    ensures
        r@ == geocoding_url_spec(city@, api_key@),
{
    let mut url = String::from_str("https://api.openweathermap.org/geo/1.0/direct?q=");
    url.append(city);
    url.append("&limit=1&appid=");
    url.append(api_key);
    proof {
        assert(url@ =~= geocoding_url_spec(city@, api_key@));
    }
    url
}

/// One candidate match of the geocoding response, as plain values: the two
/// angles still as decimal text, exactly as the response body carries them.
pub struct GeoRecord {
    pub latitude_text: String,
    pub longitude_text: String,
    pub name: String,
    pub country: String,
}

/// The candidate decodes: both angles read as decimals at scale seven and
/// lie in their global ranges.
pub open spec fn geo_record_ok(r: GeoRecord) -> bool {
    &&& is_fixed_decimal(r.latitude_text@)
    &&& valid_latitude_e7(fixed_val(r.latitude_text@, 7))
    &&& is_fixed_decimal(r.longitude_text@)
    &&& valid_longitude_e7(fixed_val(r.longitude_text@, 7))
}

/// Decodes the candidate array of a geocoding response. The first candidate
/// wins; the rest are ignored. An empty array, or a first candidate whose
/// angles do not read as in-range decimals, is a decoding failure — never a
/// crash. Every success is fully populated and in range.
pub fn decode_geocoding(results: Vec<GeoRecord>) -> (r: Result<Coordinates, ApiError>)
    ensures
        r is Ok <==> (results@.len() > 0 && geo_record_ok(results@[0])),
        r matches Ok(c) ==> {
            &&& c.latitude_e7 == fixed_val(results@[0].latitude_text@, 7)
            &&& c.longitude_e7 == fixed_val(results@[0].longitude_text@, 7)
            &&& c.name == results@[0].name
            &&& c.country == results@[0].country
            &&& c.wf()
        },
        r matches Err(e) ==> e is Decode,
{
    proof {
        lemma_pow10_values();
    }
    let mut results = results;
    if results.len() == 0 {
        return Err(ApiError::Decode(String::from_str("geocoding response held no match")));
    }
    let first = results.remove(0);
    let latitude_e7: i64 = match parse_fixed(first.latitude_text.as_str(), 7, 900_000_000) {
        Some(x) => x,
        None => {
            return Err(
                ApiError::Decode(String::from_str("latitude was not an in-range decimal")),
            );
        },
    };
    let longitude_e7: i64 = match parse_fixed(first.longitude_text.as_str(), 7, 1_800_000_000) {
        Some(x) => x,
        None => {
            return Err(
                ApiError::Decode(String::from_str("longitude was not an in-range decimal")),
            );
        },
    };
    Ok(Coordinates::new(latitude_e7, longitude_e7, first.name, first.country))
}

} // verus!
