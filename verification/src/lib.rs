//! Client logic for looking up Brazilian telephone area codes (DDDs):
//! building the request URL, mapping HTTP status codes to results, and
//! encoding/decoding the JSON bodies of the upstream API.

pub mod ddd;
pub mod json;
pub mod laws;

use vstd::prelude::*;

verus! {

/// Builds the request path for a DDD lookup: `{base}/api/ddd/v1/{code}`.
pub fn ddd_url(base: &str, code: &str) -> (r: String)
    ensures
        r@ == base@ + "/api/ddd/v1/"@ + code@,
{
    let mut r = String::from_str(base);
    r.append("/api/ddd/v1/");
    r.append(code);
    r
}

} // verus!
