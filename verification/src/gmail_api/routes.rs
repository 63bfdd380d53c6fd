//! Request defaults of the Gmail endpoints.
use vstd::prelude::*;

verus! {

/// Messages listed when a request does not say.
pub const INBOX_DEFAULT: u32 = 15;

pub const SEARCH_DEFAULT: u32 = 10;

/// A tool call's `max_results` (a JSON integer, cut to its low 32 bits),
/// or the default.
pub fn max_results_arg(v: Option<u64>, default: u32) -> (r: u32)
    ensures
        r == (match v {
            Some(x) => x as u32,
            None => default,
        }),
{
    match v {
        Some(x) => x as u32,
        None => default,
    }
}

} // verus!
