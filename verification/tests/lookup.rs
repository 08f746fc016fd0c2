use owm_client::lookup::{lookup_after_resolve, LookupStep};
use owm_client::structures::Coordinates;
use owm_client::ApiError;

#[test]
fn resolve_success_leads_to_fetch_at_the_same_coordinates() {
    let coords = Coordinates::new(
        508_465_580,
        43_516_970,
        "Brussels".to_string(),
        "BE".to_string(),
    );
    match lookup_after_resolve(Ok(coords)) {
        LookupStep::Fetch(c) => {
            assert_eq!(c.get_latitude(), 508_465_580);
            assert_eq!(c.get_longitude(), 43_516_970);
            assert_eq!(c.name, "Brussels");
        }
        LookupStep::Fail(_) => panic!("a successful resolve must lead to a fetch"),
    }
}

#[test]
fn resolve_failure_stops_the_lookup_with_the_same_error() {
    let error = ApiError::Transport("connection refused".to_string());
    match lookup_after_resolve(Err(error)) {
        LookupStep::Fetch(_) => panic!("a failed resolve must never lead to a fetch"),
        LookupStep::Fail(ApiError::Transport(message)) => {
            assert_eq!(message, "connection refused");
        }
        LookupStep::Fail(ApiError::Decode(_)) => panic!("the error kind must be kept"),
    }
}
