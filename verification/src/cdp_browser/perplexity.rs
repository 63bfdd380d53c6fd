//! Web research through the Perplexity API: the request's preconditions.
use vstd::prelude::*;

verus! {

/// The research request can be made only with an API key.
pub fn check_api_key(api_key: &str) -> (r: Result<(), String>)
    ensures
        r is Ok <==> api_key@.len() > 0,
        r matches Err(e) ==> e@ == "PERPLEXITY_API_KEY not set in .env"@,
{
    let v = crate::text::chars_of(api_key);
    if v.len() == 0 {
        Err(String::from_str("PERPLEXITY_API_KEY not set in .env"))
    } else {
        Ok(())
    }
}

} // verus!
