//! Origin-based access control for the write endpoint: exact-match against
//! a fixed whitelist of origins (scheme+host+port), case-sensitive, with no
//! wildcard or subdomain matching.

use vstd::prelude::*;
use crate::strcmp::str_eq;

verus! {

/// The whitelist, as a predicate on the origin's characters.
pub open spec fn spec_is_allowed_origin(origin: Seq<char>) -> bool {
    ||| origin == "https://wt.tepis.me"@
    ||| origin == "https://wt.bgme.me"@
    ||| origin == "https://rbq.desi"@
    ||| origin == "https://wt.makai.city"@
    ||| origin == "https://wt.0w0.bid"@
}

/// Returns true for every string in the whitelist and false for any other
/// string, prefixes and suffixes of whitelisted entries included.
pub fn is_allowed_origin(origin: &str) -> (r: bool)
    ensures
        r == spec_is_allowed_origin(origin@),
{
    str_eq(origin, "https://wt.tepis.me") || str_eq(origin, "https://wt.bgme.me") || str_eq(
        origin,
        "https://rbq.desi",
    ) || str_eq(origin, "https://wt.makai.city") || str_eq(origin, "https://wt.0w0.bid")
}

} // verus!
