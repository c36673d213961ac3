//! A pair of providers, the second of which is asked where the first has no answer.
//!
//! This is useful for gradually migrating between two providers without downtime. Blobs are only
//! put into the first.

use crate::error::Error;
use crate::memory::{stored_get, stored_head};
use crate::range::BlobRange;
use vstd::prelude::*;

verus! {

/// What is to be done after the first provider answered.
pub enum FallbackStep<T> {
    /// Answer this.
    Return(T),
    /// Ask the second provider, and answer what it says.
    AskSecondary,
}

/// Decides what to do with the answer of the first provider. Any error sends the request to the
/// second.
pub fn fallback<T>(primary: Result<T, Error>) -> (step: FallbackStep<T>)
    ensures
        step == (match primary {
            Ok(answer) => FallbackStep::Return(answer),
            Err(_) => FallbackStep::AskSecondary,
        }),
        forall|secondary: Result<T, Error>|
            #[trigger] pair_answer(primary, secondary) == (match step {
                FallbackStep::Return(answer) => Ok(answer),
                FallbackStep::AskSecondary => secondary,
            }),
{
    match primary {
        Ok(answer) => FallbackStep::Return(answer),
        Err(_) => FallbackStep::AskSecondary,
    }
}

/// What a pair of providers answers when its parts answer `primary` and `secondary`.
pub open spec fn pair_answer<T>(
    primary: Result<T, Error>,
    secondary: Result<T, Error>,
) -> Result<T, Error> {
    match primary {
        Ok(answer) => Ok(answer),
        Err(_) => secondary,
    }
}

/// A pair of providers answers like one provider that stores what both store, where the first
/// decides about a blob that both have.
pub proof fn law_pair_stores_both(
    primary: Map<Seq<char>, Seq<u8>>,
    secondary: Map<Seq<char>, Seq<u8>>,
    hash: Seq<char>,
    range: BlobRange,
)
    ensures
        pair_answer(stored_head(primary, hash), stored_head(secondary, hash)) == stored_head(
            secondary.union_prefer_right(primary),
            hash,
        ),
        pair_answer(stored_get(primary, hash, range), stored_get(secondary, hash, range))
            == stored_get(secondary.union_prefer_right(primary), hash, range),
{
}

/// What the first provider has is answered whatever the second would say, and whatever error the
/// first one gives, the answer is that of the second.
pub proof fn law_any_error_falls_back<T>(
    answer: T,
    error: Error,
    secondary: Result<T, Error>,
)
    ensures
        pair_answer(Ok(answer), secondary) == Ok::<T, Error>(answer),
        pair_answer(Err(error), secondary) == secondary,
{
}

} // verus!
