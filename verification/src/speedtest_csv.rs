//! The machine-readable result row: the fields one finished run prints in
//! CSV order, and the fixed header line that names them.

use vstd::prelude::*;
use vstd::string::StringExecFns;

verus! {

/// One run's results as text fields, in the order the CSV output prints.
#[derive(Debug)]
pub struct SpeedTestCsvResult<'a> {
    pub server_id: &'a str,
    pub sponsor: &'a str,
    pub server_name: &'a str,
    pub timestamp: &'a str,
    pub distance: &'a str,
    pub ping: &'a str,
    pub download: &'a str,
    pub upload: &'a str,
    pub share: &'a str,
    pub ip_address: &'a str,
}

impl Default for SpeedTestCsvResult<'_> {
    /// A row of empty fields.
    fn default() -> (r: Self)
        ensures
            r.server_id@.len() == 0,
            r.share@.len() == 0,
    {
        proof {
            reveal_strlit("");
        }
        SpeedTestCsvResult {
            server_id: "",
            sponsor: "",
            server_name: "",
            timestamp: "",
            distance: "",
            ping: "",
            download: "",
            upload: "",
            share: "",
            ip_address: "",
        }
    }
}

impl SpeedTestCsvResult<'_> {
    /// The fixed header line naming the row's fields, in their order.
    pub fn header_serialize(self) -> (r: String)
        ensures
            r@ == "Server ID,Sponsor,Server Name,Timestamp,Distance,Ping,Download,Upload,Share,IP Address"@,
    {
        String::from_str(
            "Server ID,Sponsor,Server Name,Timestamp,Distance,Ping,Download,Upload,Share,IP Address",
        )
    }
}

} // verus!
