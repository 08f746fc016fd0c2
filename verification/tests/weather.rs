use owm_client::weather::{decode_weather, weather_url, ConditionRecord, WeatherRecord};
use owm_client::ApiError;

fn mild_day() -> WeatherRecord {
    WeatherRecord {
        temperature_text: "288.15".to_string(),
        humidity: 65,
        pressure: 1013,
        wind_speed_text: "3.6".to_string(),
        conditions: vec![ConditionRecord {
            id: 800,
            description: "clear sky".to_string(),
        }],
        timestamp: 1_700_000_000,
    }
}

#[test]
fn valid_record_decodes_fully_populated() {
    let w = decode_weather(mild_day()).unwrap();
    assert_eq!(w.temperature_centi_kelvin, 28_815);
    assert_eq!(w.humidity, 65);
    assert_eq!(w.pressure, 1013);
    assert_eq!(w.wind_speed_centi, 360);
    assert_eq!(w.condition_id, 800);
    assert_eq!(w.description, "clear sky");
    assert_eq!(w.timestamp, 1_700_000_000);
}

#[test]
fn humidity_over_hundred_is_a_decode_failure() {
    let mut r = mild_day();
    r.humidity = 101;
    assert!(matches!(decode_weather(r), Err(ApiError::Decode(_))));
}

#[test]
fn humidity_boundaries_decode() {
    let mut r = mild_day();
    r.humidity = 0;
    assert_eq!(decode_weather(r).unwrap().humidity, 0);
    let mut r = mild_day();
    r.humidity = 100;
    assert_eq!(decode_weather(r).unwrap().humidity, 100);
}

#[test]
fn temperature_below_absolute_zero_is_a_decode_failure() {
    let mut r = mild_day();
    r.temperature_text = "-1.0".to_string();
    assert!(matches!(decode_weather(r), Err(ApiError::Decode(_))));
}

#[test]
fn implausibly_hot_temperature_is_a_decode_failure() {
    let mut r = mild_day();
    r.temperature_text = "500".to_string();
    assert!(matches!(decode_weather(r), Err(ApiError::Decode(_))));
}

#[test]
fn malformed_temperature_is_a_decode_failure() {
    let mut r = mild_day();
    r.temperature_text = "hot".to_string();
    assert!(matches!(decode_weather(r), Err(ApiError::Decode(_))));
}

#[test]
fn negative_wind_speed_is_a_decode_failure() {
    let mut r = mild_day();
    r.wind_speed_text = "-3.6".to_string();
    assert!(matches!(decode_weather(r), Err(ApiError::Decode(_))));
}

#[test]
fn implausible_pressure_is_a_decode_failure() {
    let mut r = mild_day();
    r.pressure = 0;
    assert!(matches!(decode_weather(r), Err(ApiError::Decode(_))));
    let mut r = mild_day();
    r.pressure = 2001;
    assert!(matches!(decode_weather(r), Err(ApiError::Decode(_))));
}

#[test]
fn empty_condition_array_is_a_decode_failure() {
    let mut r = mild_day();
    r.conditions = vec![];
    assert!(matches!(decode_weather(r), Err(ApiError::Decode(_))));
}

#[test]
fn empty_description_is_a_decode_failure() {
    let mut r = mild_day();
    r.conditions = vec![ConditionRecord {
        id: 800,
        description: String::new(),
    }];
    assert!(matches!(decode_weather(r), Err(ApiError::Decode(_))));
}

#[test]
fn first_condition_wins() {
    let mut r = mild_day();
    r.conditions = vec![
        ConditionRecord {
            id: 500,
            description: "light rain".to_string(),
        },
        ConditionRecord {
            id: 800,
            description: "clear sky".to_string(),
        },
    ];
    let w = decode_weather(r).unwrap();
    assert_eq!(w.condition_id, 500);
    assert_eq!(w.description, "light rain");
}

#[test]
fn weather_url_is_exact() {
    let url = weather_url(508_465_580, 43_516_970, "testkey");
    assert_eq!(
        url,
        "https://api.openweathermap.org/data/2.5/weather?lat=50.8465580&lon=4.3516970&appid=testkey"
    );
}

#[test]
fn weather_url_forwards_out_of_range_angles_unchecked() {
    let url = weather_url(950_000_000, 0, "k");
    assert_eq!(
        url,
        "https://api.openweathermap.org/data/2.5/weather?lat=95.0000000&lon=0.0000000&appid=k"
    );
}

#[test]
fn weather_url_renders_negative_angles() {
    let url = weather_url(-338_678_900, -703_000_000, "k");
    assert_eq!(
        url,
        "https://api.openweathermap.org/data/2.5/weather?lat=-33.8678900&lon=-70.3000000&appid=k"
    );
}
