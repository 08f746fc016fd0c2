use owm_client::convert::{
    celsius_to_kelvin_centi, kelvin_to_celsius_centi, kelvin_to_fahrenheit_centi,
};

#[test]
fn kelvin_to_celsius_exact() {
    assert_eq!(kelvin_to_celsius_centi(28_815), 1_500);
    assert_eq!(kelvin_to_celsius_centi(27_315), 0);
    assert_eq!(kelvin_to_celsius_centi(0), -27_315);
}

#[test]
fn celsius_to_kelvin_exact() {
    assert_eq!(celsius_to_kelvin_centi(0), 27_315);
    assert_eq!(celsius_to_kelvin_centi(-27_315), 0);
    assert_eq!(celsius_to_kelvin_centi(1_500), 28_815);
}

#[test]
fn kelvin_to_fahrenheit_exact() {
    assert_eq!(kelvin_to_fahrenheit_centi(27_315), 3_200);
    assert_eq!(kelvin_to_fahrenheit_centi(28_815), 5_900);
}

#[test]
fn celsius_round_trip() {
    for k in [0u64, 27_315, 28_815, 40_000] {
        let c = kelvin_to_celsius_centi(k);
        assert_eq!(celsius_to_kelvin_centi(c), k);
    }
}
