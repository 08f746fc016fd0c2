use owm_client::geocoding::{decode_geocoding, geocoding_url, GeoRecord};
use owm_client::ApiError;

fn brussels() -> GeoRecord {
    GeoRecord {
        latitude_text: "50.846558".to_string(),
        longitude_text: "4.351697".to_string(),
        name: "Brussels".to_string(),
        country: "BE".to_string(),
    }
}

#[test]
fn get_city_coordinates() {
    let coords = decode_geocoding(vec![brussels()]).unwrap();
    assert_eq!(coords.get_latitude(), 508_465_580);
    assert_eq!(coords.get_longitude(), 43_516_970);
    assert_eq!(coords.name, "Brussels");
    assert_eq!(coords.country, "BE");
    let lat_degrees = coords.get_latitude() as f64 / 1e7;
    let lon_degrees = coords.get_longitude() as f64 / 1e7;
    assert!((lat_degrees - 50.85).abs() < 0.01);
    assert!((lon_degrees - 4.35).abs() < 0.01);
}

#[test]
fn empty_result_array_is_a_decode_failure() {
    let r = decode_geocoding(vec![]);
    assert!(matches!(r, Err(ApiError::Decode(_))));
}

#[test]
fn first_result_wins() {
    let mut second = brussels();
    second.latitude_text = "not a number".to_string();
    second.name = "Elsewhere".to_string();
    let coords = decode_geocoding(vec![brussels(), second]).unwrap();
    assert_eq!(coords.get_latitude(), 508_465_580);
    assert_eq!(coords.name, "Brussels");
}

#[test]
fn out_of_range_latitude_is_a_decode_failure() {
    let mut record = brussels();
    record.latitude_text = "91.0".to_string();
    assert!(matches!(decode_geocoding(vec![record]), Err(ApiError::Decode(_))));
}

#[test]
fn out_of_range_longitude_is_a_decode_failure() {
    let mut record = brussels();
    record.longitude_text = "-180.0000001".to_string();
    assert!(matches!(decode_geocoding(vec![record]), Err(ApiError::Decode(_))));
}

#[test]
fn malformed_angle_is_a_decode_failure() {
    let mut record = brussels();
    record.longitude_text = "4,35".to_string();
    assert!(matches!(decode_geocoding(vec![record]), Err(ApiError::Decode(_))));
}

#[test]
fn boundary_angles_decode() {
    let mut record = brussels();
    record.latitude_text = "-90".to_string();
    record.longitude_text = "180".to_string();
    let coords = decode_geocoding(vec![record]).unwrap();
    assert_eq!(coords.get_latitude(), -900_000_000);
    assert_eq!(coords.get_longitude(), 1_800_000_000);
}

#[test]
fn geocoding_url_is_exact() {
    let url = geocoding_url("Brussels", "testkey");
    assert_eq!(
        url,
        "https://api.openweathermap.org/geo/1.0/direct?q=Brussels&limit=1&appid=testkey"
    );
}
