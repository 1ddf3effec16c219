//! The client block of the machine-readable JSON result: the caller's
//! address, location and provider as text fields.

use vstd::prelude::*;

verus! {

/// The client's own details as text fields, as the JSON output prints them.
#[derive(Debug)]
pub struct SpeedTestJsonClientResult<'a> {
    pub ip: &'a str,
    pub lat: &'a str,
    pub lon: &'a str,
    pub isp: &'a str,
    pub isprating: &'a str,
    pub rating: &'a str,
    pub ispdlavg: &'a str,
    pub ispulavg: &'a str,
    pub loggedin: &'a str,
    pub country: &'a str,
}

impl Default for SpeedTestJsonClientResult<'_> {
    /// A block of empty fields.
    fn default() -> (r: Self)
        ensures
            r.ip@.len() == 0,
            r.isp@.len() == 0,
    {
        proof {
            reveal_strlit("");
        }
        SpeedTestJsonClientResult {
            ip: "",
            lat: "",
            lon: "",
            isp: "",
            isprating: "",
            rating: "",
            ispdlavg: "",
            ispulavg: "",
            loggedin: "",
            country: "",
        }
    }
}

} // verus!
