//! The serving decision: a requested short name resolves to the cached
//! partition document when the store holds one, falls back to a same-named
//! raw file otherwise, and is not found when neither exists.

use vstd::prelude::*;

verus! {

/// What a concept request is answered with.
pub enum ServeOutcome {
    /// The partition document the store resolved the name to.
    Cached(Vec<u8>),
    /// The bytes of the same-named raw file, read because the store held
    /// no record for the name.
    RawFile(Vec<u8>),
    /// Neither a stored partition nor a raw file exists for the name.
    NotFound,
}

/// Decide a concept request from the store's answer and the raw file's
/// bytes, if either exists: the cached document wins, the raw file is the
/// fallback, and absence of both is not-found. A storage failure on read
/// degrades to the fallback by handing `cached` as absent.
pub fn resolve_request(cached: Option<Vec<u8>>, fallback: Option<Vec<u8>>) -> (r: ServeOutcome)
    ensures
        cached matches Some(c) ==> r == ServeOutcome::Cached(c),
        cached is None ==> (fallback matches Some(b) ==> r == ServeOutcome::RawFile(b)),
        cached is None && fallback is None ==> r == ServeOutcome::NotFound,
{
    match cached {
        Some(c) => ServeOutcome::Cached(c),
        None => match fallback {
            Some(b) => ServeOutcome::RawFile(b),
            None => ServeOutcome::NotFound,
        },
    }
}

} // verus!
