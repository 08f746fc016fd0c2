//! The composed lookup: resolve a place name to coordinates, then fetch
//! weather for them, short-circuiting on the first failure.
//!
//! The two network steps themselves run outside the library; what is here
//! is the whole of the control flow between them: which step comes next,
//! and how the outcome of the composition relates to the outcomes of the
//! steps.

use crate::structures::{ApiError, Coordinates, WeatherData};
use vstd::prelude::*;

verus! {

/// What the composed lookup does after its resolve step: fetch weather at
/// the resolved coordinates, or stop with the resolve step's own error.
#[derive(Debug)]
pub enum LookupStep {
    Fetch(Coordinates),
    Fail(ApiError),
}

/// The outcome of the composed lookup as a function of the outcomes of its
/// two steps. The fetch outcome enters the result only when the resolve
/// step succeeded.
pub open spec fn lookup_outcome(
    resolve_outcome: Result<Coordinates, ApiError>,
    fetch_outcome: Result<WeatherData, ApiError>,
) -> Result<WeatherData, ApiError> {
    match resolve_outcome {
        Ok(_) => fetch_outcome,
        Err(e) => Err(e),
    }
}

/// Decides the step that follows resolving: exactly the resolved
/// coordinates go to the fetch, and a resolve failure stops the lookup with
/// that same error, so no fetch is ever issued after a failure.
pub fn lookup_after_resolve(resolve_outcome: Result<Coordinates, ApiError>) -> (s: LookupStep)
    ensures
        resolve_outcome matches Ok(c) ==> s == LookupStep::Fetch(c),
        resolve_outcome matches Err(e) ==> s == LookupStep::Fail(e),
{
    match resolve_outcome {
        Ok(c) => LookupStep::Fetch(c),
        Err(e) => LookupStep::Fail(e),
    }
}

/// Law: when the resolve step succeeds, the composed lookup returns exactly
/// what fetching at the resolved coordinates returns — looking up by city
/// equals resolving and then fetching.
pub proof fn lemma_lookup_composition(
    resolve_outcome: Result<Coordinates, ApiError>,
    fetch_outcome: Result<WeatherData, ApiError>,
)
    requires
        resolve_outcome is Ok,
    ensures
        lookup_outcome(resolve_outcome, fetch_outcome) == fetch_outcome,
{
}

/// Law: when the resolve step fails, the composed lookup fails with that
/// same error, and the outcome is the same whatever any fetch would have
/// returned — the fetch step never enters the result.
pub proof fn lemma_lookup_short_circuit(
    resolve_outcome: Result<Coordinates, ApiError>,
    fetch_outcome: Result<WeatherData, ApiError>,
    other_fetch_outcome: Result<WeatherData, ApiError>,
)
    requires
        resolve_outcome is Err,
    ensures
        lookup_outcome(resolve_outcome, fetch_outcome) == Result::<WeatherData, ApiError>::Err(
            resolve_outcome->Err_0,
        ),
        lookup_outcome(resolve_outcome, fetch_outcome) == lookup_outcome(
            resolve_outcome,
            other_fetch_outcome,
        ),
{
}

} // verus!
