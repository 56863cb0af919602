//! Request shaping for the ranking endpoint: the fixed endpoint address,
//! the credential header name, and the repeated query parameter carrying
//! one normalized domain each.

use vstd::prelude::*;
use crate::normalize::remove_trailing_slash;
use crate::normalize::strip_trailing_slashes;

verus! {

/// The fixed address of the ranking endpoint.
pub fn api_root() -> (r: &'static str)
    ensures
        r@ == "https://openpagerank.com/api/v1.0/getPageRank"@,
{
    "https://openpagerank.com/api/v1.0/getPageRank"
}

/// The header under which the API key travels.
pub fn api_header_name() -> (r: &'static str)
    ensures
        r@ == "API-OPR"@,
{
    "API-OPR"
}

/// Builds the query parameter list for one batch request: one pair named
/// `domains[]` per input domain, in input order, each value normalized by
/// stripping trailing slashes.
pub fn build_query(domains: &Vec<String>) -> (q: Vec<(String, String)>)
    ensures
        q@.len() == domains@.len(),
        forall|i: int|
            0 <= i < q@.len() ==> (#[trigger] q@[i]).0@ == "domains[]"@,
        forall|i: int|
            0 <= i < q@.len() ==> (#[trigger] q@[i]).1@ == strip_trailing_slashes(
                domains@[i]@,
            ),
{
    let mut q: Vec<(String, String)> = Vec::new();
    let mut i: usize = 0;
    while i < domains.len()
        invariant
            i <= domains@.len(),
            q@.len() == i,
            forall|j: int|
                0 <= j < i ==> (#[trigger] q@[j]).0@ == "domains[]"@,
            forall|j: int|
                0 <= j < i ==> (#[trigger] q@[j]).1@ == strip_trailing_slashes(
                    domains@[j]@,
                ),
        decreases domains@.len() - i,
    {
        let name = String::from_str("domains[]");
        let value = remove_trailing_slash(domains[i].as_str());
        q.push((name, value));
        i = i + 1;
    }
    q
}

} // verus!
