//! The client configuration: what the configuration document carries and how
//! it is parsed.
//!
//! The document holds a `<client>` element with the caller's address and
//! location, a `<server-config>` element with ignored server identifiers and
//! a thread count, and `<download>`/`<upload>` elements with sizing, counts
//! and test lengths. Any missing element, missing attribute or unparseable
//! field fails the whole parse with `ConfigParseError`: no partial
//! configuration is ever returned.

use vstd::prelude::*;
use vstd::string::StringSliceAdditionalSpecFns;

use crate::distance::EarthLocation;
use crate::distance::valid_lat;
use crate::distance::valid_lon;
use crate::error::SpeedTestError;
use crate::markup::find_element;
use crate::markup::get_attr;
use crate::markup::scan_elements;
use crate::markup::spec_attr_value;
use crate::markup::spec_find_elem;
use crate::markup::spec_scan_elems;
use crate::textutil::all_digits;
use crate::textutil::bytes_to_string;
use crate::textutil::chars_of_bytes;
use crate::textutil::dec_val;
use crate::textutil::find_byte;
use crate::textutil::find_byte_at;
use crate::textutil::lemma_find_byte;
use crate::textutil::parse_micro_deg;
use crate::textutil::parse_u32;
use crate::textutil::parse_u64;
use crate::textutil::parse_usize;
use crate::textutil::spec_dec_str;
use crate::textutil::spec_parse_micro;
use crate::textutil::spec_parse_u64;
use crate::textutil::u64_to_string;

verus! {

/// An IPv4 address, one field per octet.
#[derive(Clone, Copy, Debug, PartialEq, Eq, Structural)]
pub struct Ipv4Address {
    pub a: u8,
    pub b: u8,
    pub c: u8,
    pub d: u8,
}

/// Whether a byte run spells one address octet: one to three digits, at most
/// 255, with no leading zero.
pub open spec fn spec_octet(s: Seq<u8>) -> Option<u8> {
    if 1 <= s.len() <= 3 && all_digits(s) && dec_val(s) <= 255 && (s[0] != 48 || s.len() == 1) {
        Some(dec_val(s) as u8)
    } else {
        None
    }
}

/// What parsing a dotted-quad address yields.
pub open spec fn spec_parse_ipv4(s: Seq<u8>) -> Option<Ipv4Address> {
    match find_byte(s, 46) {
        None => None,
        Some(p1) => {
            let o1 = spec_octet(s.take(p1));
            let r1 = s.skip(p1 + 1);
            match find_byte(r1, 46) {
                None => None,
                Some(p2) => {
                    let o2 = spec_octet(r1.take(p2));
                    let r2 = r1.skip(p2 + 1);
                    match find_byte(r2, 46) {
                        None => None,
                        Some(p3) => {
                            let o3 = spec_octet(r2.take(p3));
                            let o4 = spec_octet(r2.skip(p3 + 1));
                            if o1 is Some && o2 is Some && o3 is Some && o4 is Some {
                                Some(
                                    Ipv4Address {
                                        a: o1.unwrap(),
                                        b: o2.unwrap(),
                                        c: o3.unwrap(),
                                        d: o4.unwrap(),
                                    },
                                )
                            } else {
                                None
                            }
                        },
                    }
                },
            }
        },
    }
}

/// Parses one address octet.
fn parse_octet(s: &[u8]) -> (r: Option<u8>)
    ensures
        r == spec_octet(s@),
{
    if s.len() < 1 || s.len() > 3 {
        return None;
    }
    if s[0] == 48 && s.len() != 1 {
        return None;
    }
    match parse_u64(s) {
        Some(v) => {
            if v <= 255 {
                Some(v as u8)
            } else {
                None
            }
        },
        None => None,
    }
}

/// Parses a dotted-quad IPv4 address.
pub fn parse_ipv4(s: &[u8]) -> (r: Option<Ipv4Address>)
    ensures
        r == spec_parse_ipv4(s@),
{
    let n = s.len();
    let p1 = match find_byte_at(s, 46) {
        Some(p) => p,
        None => {
            return None;
        },
    };
    proof {
        lemma_find_byte(s@, 46);
    }
    let first = vstd::slice::slice_subrange(s, 0, p1);
    let r1 = vstd::slice::slice_subrange(s, p1 + 1, n);
    proof {
        assert(first@ =~= s@.take(p1 as int));
        assert(r1@ =~= s@.skip(p1 + 1));
    }
    let p2 = match find_byte_at(r1, 46) {
        Some(p) => p,
        None => {
            return None;
        },
    };
    proof {
        lemma_find_byte(r1@, 46);
    }
    let second = vstd::slice::slice_subrange(r1, 0, p2);
    let r2 = vstd::slice::slice_subrange(r1, p2 + 1, r1.len());
    proof {
        assert(second@ =~= r1@.take(p2 as int));
        assert(r2@ =~= r1@.skip(p2 + 1));
    }
    let p3 = match find_byte_at(r2, 46) {
        Some(p) => p,
        None => {
            return None;
        },
    };
    proof {
        lemma_find_byte(r2@, 46);
    }
    let third = vstd::slice::slice_subrange(r2, 0, p3);
    let fourth = vstd::slice::slice_subrange(r2, p3 + 1, r2.len());
    proof {
        assert(third@ =~= r2@.take(p3 as int));
        assert(fourth@ =~= r2@.skip(p3 + 1));
    }
    let o1 = parse_octet(first);
    let o2 = parse_octet(second);
    let o3 = parse_octet(third);
    let o4 = parse_octet(fourth);
    match (o1, o2, o3, o4) {
        (Some(a), Some(b), Some(c), Some(d)) => Some(Ipv4Address { a, b, c, d }),
        _ => None,
    }
}

/// The dotted-quad text of an address.
pub open spec fn spec_ipv4_str(ip: Ipv4Address) -> Seq<char> {
    spec_dec_str(ip.a as nat) + seq!['.'] + spec_dec_str(ip.b as nat) + seq!['.'] + spec_dec_str(
        ip.c as nat,
    ) + seq!['.'] + spec_dec_str(ip.d as nat)
}

impl Ipv4Address {
    /// Renders the address as dotted-quad text.
    pub fn to_display_string(&self) -> (r: String)
        ensures
            r@ == spec_ipv4_str(*self),
    {
        let mut r = u64_to_string(self.a as u64);
        r.append(".");
        let sb = u64_to_string(self.b as u64);
        r.append(sb.as_str());
        r.append(".");
        let sc = u64_to_string(self.c as u64);
        r.append(sc.as_str());
        r.append(".");
        let sd = u64_to_string(self.d as u64);
        r.append(sd.as_str());
        proof {
            reveal_strlit(".");
            assert(r@ =~= spec_ipv4_str(*self));
        }
        r
    }
}

/// Who the measuring client is: its address and provider.
pub struct SpeedTestClientConfig {
    pub ip: Ipv4Address,
    pub isp: String,
}

impl Default for SpeedTestClientConfig {
    /// The loopback address and an empty provider name.
    fn default() -> (r: SpeedTestClientConfig)
        ensures
            r.ip == (Ipv4Address { a: 127, b: 0, c: 0, d: 1 }),
            r.isp@.len() == 0,
    {
        SpeedTestClientConfig { ip: Ipv4Address { a: 127, b: 0, c: 0, d: 1 }, isp: String::new() }
    }
}

/// The payload sizes each direction of the benchmark uses.
pub struct SpeedTestSizeConfig {
    pub upload: Vec<usize>,
    pub download: Vec<usize>,
}

impl Default for SpeedTestSizeConfig {
    /// No sizes at all.
    fn default() -> (r: SpeedTestSizeConfig)
        ensures
            r.upload@.len() == 0 && r.download@.len() == 0,
    {
        SpeedTestSizeConfig { upload: Vec::new(), download: Vec::new() }
    }
}

/// How many times each size is requested, per direction.
pub struct SpeedTestCountsConfig {
    pub upload: usize,
    pub download: usize,
}

impl Default for SpeedTestCountsConfig {
    /// Zero repetitions.
    fn default() -> (r: SpeedTestCountsConfig)
        ensures
            r.upload == 0 && r.download == 0,
    {
        SpeedTestCountsConfig { upload: 0, download: 0 }
    }
}

/// The worker-pool widths, per direction.
pub struct SpeedTestThreadsConfig {
    pub upload: usize,
    pub download: usize,
}

impl Default for SpeedTestThreadsConfig {
    /// No workers.
    fn default() -> (r: SpeedTestThreadsConfig)
        ensures
            r.upload == 0 && r.download == 0,
    {
        SpeedTestThreadsConfig { upload: 0, download: 0 }
    }
}

/// The wall-clock budget of each benchmark direction, in seconds.
pub struct SpeedTestLengthConfig {
    pub upload: u64,
    pub download: u64,
}

impl Default for SpeedTestLengthConfig {
    /// Ten seconds each way.
    fn default() -> (r: SpeedTestLengthConfig)
        ensures
            r.upload == 10 && r.download == 10,
    {
        SpeedTestLengthConfig { upload: 10, download: 10 }
    }
}

/// Everything one benchmark run is configured by.
pub struct SpeedTestConfig {
    pub client: SpeedTestClientConfig,
    pub ignore_servers: Vec<u32>,
    pub sizes: SpeedTestSizeConfig,
    pub counts: SpeedTestCountsConfig,
    pub threads: SpeedTestThreadsConfig,
    pub length: SpeedTestLengthConfig,
    pub upload_max: usize,
    pub location: EarthLocation,
}

impl Default for SpeedTestConfig {
    /// An empty configuration at the origin location.
    fn default() -> (r: SpeedTestConfig)
        ensures
            r.ignore_servers@.len() == 0,
            r.location.latitude == 0 && r.location.longitude == 0,
    {
        SpeedTestConfig {
            client: Default::default(),
            ignore_servers: Vec::new(),
            sizes: Default::default(),
            counts: Default::default(),
            threads: Default::default(),
            length: Default::default(),
            upload_max: 0,
            location: Default::default(),
        }
    }
}

/// The mathematical image of a parsed configuration.
pub ghost struct SpecConfig {
    pub ip: Ipv4Address,
    pub isp: Seq<char>,
    pub ignore: Seq<u32>,
    pub sizes_upload: Seq<usize>,
    pub sizes_download: Seq<usize>,
    pub counts_upload: usize,
    pub counts_download: usize,
    pub threads_upload: usize,
    pub threads_download: usize,
    pub length_upload: u64,
    pub length_download: u64,
    pub upload_max: usize,
    pub location: EarthLocation,
}

/// The image of an executable configuration.
pub open spec fn config_view(c: SpeedTestConfig) -> SpecConfig {
    SpecConfig {
        ip: c.client.ip,
        isp: c.client.isp@,
        ignore: c.ignore_servers@,
        sizes_upload: c.sizes.upload@,
        sizes_download: c.sizes.download@,
        counts_upload: c.counts.upload,
        counts_download: c.counts.download,
        threads_upload: c.threads.upload,
        threads_download: c.threads.download,
        length_upload: c.length.upload,
        length_download: c.length.download,
        upload_max: c.upload_max,
        location: c.location,
    }
}

/// The value of attribute `attr` of the first element named `tag`.
pub open spec fn doc_attr(doc: Seq<u8>, tag: Seq<char>, attr: Seq<char>) -> Option<Seq<u8>> {
    match spec_find_elem(spec_scan_elems(doc, 0), tag) {
        None => None,
        Some(e) => spec_attr_value(e.attrs, attr),
    }
}

/// What splitting a comma-separated identifier list yields: empty runs are
/// passed over, every other run must be an unsigned 32-bit numeral.
pub open spec fn spec_parse_ids(s: Seq<u8>) -> Option<Seq<u32>>
    decreases s.len(),
    via spec_parse_ids_decreases
{
    match find_byte(s, 44) {
        Some(p) => {
            let tok = s.take(p);
            let rest = spec_parse_ids(s.skip(p + 1));
            if tok.len() == 0 {
                rest
            } else {
                match spec_parse_u64(tok) {
                    Some(v) => if v <= u32::MAX && rest is Some {
                        Some(seq![v as u32] + rest.unwrap())
                    } else {
                        None
                    },
                    None => None,
                }
            }
        },
        None => {
            if s.len() == 0 {
                Some(Seq::empty())
            } else {
                match spec_parse_u64(s) {
                    Some(v) => if v <= u32::MAX {
                        Some(seq![v as u32])
                    } else {
                        None
                    },
                    None => None,
                }
            }
        },
    }
}

#[via_fn]
proof fn spec_parse_ids_decreases(s: Seq<u8>) {
    lemma_find_byte(s, 44);
}

/// Splits and parses a comma-separated identifier list.
pub fn parse_ids(s: &[u8]) -> (r: Option<Vec<u32>>)
    ensures
        match r {
            Some(v) => spec_parse_ids(s@) == Some(v@),
            None => spec_parse_ids(s@) is None,
        },
    decreases s@.len(),
{
    match find_byte_at(s, 44) {
        Some(p) => {
            let n = s.len();
            proof {
                lemma_find_byte(s@, 44);
            }
            let tok = vstd::slice::slice_subrange(s, 0, p);
            let restb = vstd::slice::slice_subrange(s, p + 1, n);
            proof {
                assert(tok@ =~= s@.take(p as int));
                assert(restb@ =~= s@.skip(p + 1));
            }
            let rest = parse_ids(restb);
            if tok.len() == 0 {
                rest
            } else {
                match parse_u32(tok) {
                    Some(v) => {
                        match rest {
                            Some(mut rv) => {
                                let mut out: Vec<u32> = Vec::new();
                                out.push(v);
                                let ghost first = out@;
                                out.append(&mut rv);
                                proof {
                                    assert(out@ =~= first + spec_parse_ids(s@.skip(p + 1)).unwrap());
                                }
                                Some(out)
                            },
                            None => None,
                        }
                    },
                    None => None,
                }
            }
        },
        None => {
            if s.len() == 0 {
                let out: Vec<u32> = Vec::new();
                assert(out@ =~= Seq::<u32>::empty());
                Some(out)
            } else {
                match parse_u32(s) {
                    Some(v) => {
                        let mut out: Vec<u32> = Vec::new();
                        out.push(v);
                        assert(out@ =~= seq![v]);
                        Some(out)
                    },
                    None => None,
                }
            }
        },
    }
}

/// The fixed table of upload payload sizes the ratio indexes into.
pub open spec fn spec_upload_size_table() -> Seq<usize> {
    seq![32768usize, 65536, 131072, 262144, 524288, 1048576, 7340032]
}

/// The fixed list of download image edge sizes.
pub open spec fn spec_download_sizes() -> Seq<usize> {
    seq![350usize, 500, 750, 1000, 1500, 2000, 2500, 3000, 3500, 4000]
}

/// What parsing the whole configuration document yields, field by field.
/// The parse succeeds exactly when every required element and attribute is
/// present and well formed, the ratio indexes the size table, the latitude
/// and longitude are in range, and the derived thread width fits.
pub open spec fn spec_parse_config(doc: Seq<u8>) -> Option<SpecConfig> {
    let ignoreids = doc_attr(doc, "server-config"@, "ignoreids"@);
    let threadcount = doc_attr(doc, "server-config"@, "threadcount"@);
    let tpu = doc_attr(doc, "download"@, "threadsperurl"@);
    let dl_len = doc_attr(doc, "download"@, "testlength"@);
    let ratio = doc_attr(doc, "upload"@, "ratio"@);
    let maxchunk = doc_attr(doc, "upload"@, "maxchunkcount"@);
    let up_threads = doc_attr(doc, "upload"@, "threads"@);
    let up_len = doc_attr(doc, "upload"@, "testlength"@);
    let ip = doc_attr(doc, "client"@, "ip"@);
    let lat = doc_attr(doc, "client"@, "lat"@);
    let lon = doc_attr(doc, "client"@, "lon"@);
    let isp = doc_attr(doc, "client"@, "isp"@);
    if ignoreids is Some && threadcount is Some && tpu is Some && dl_len is Some && ratio is Some
        && maxchunk is Some && up_threads is Some && up_len is Some && ip is Some && lat is Some
        && lon is Some && isp is Some {
        let ids = spec_parse_ids(ignoreids.unwrap());
        let tc = spec_parse_u64(threadcount.unwrap());
        let tpu_v = spec_parse_u64(tpu.unwrap());
        let dl_len_v = spec_parse_u64(dl_len.unwrap());
        let ratio_v = spec_parse_u64(ratio.unwrap());
        let maxchunk_v = spec_parse_u64(maxchunk.unwrap());
        let up_threads_v = spec_parse_u64(up_threads.unwrap());
        let up_len_v = spec_parse_u64(up_len.unwrap());
        let ip_v = spec_parse_ipv4(ip.unwrap());
        let lat_v = spec_parse_micro(lat.unwrap());
        let lon_v = spec_parse_micro(lon.unwrap());
        if ids is Some && tc is Some && tc.unwrap() <= usize::MAX / 2 && tpu_v is Some
            && tpu_v.unwrap() <= usize::MAX && dl_len_v is Some && ratio_v is Some && 1
            <= ratio_v.unwrap() <= 7 && maxchunk_v is Some && maxchunk_v.unwrap() <= usize::MAX
            && up_threads_v is Some && up_threads_v.unwrap() <= usize::MAX && up_len_v is Some
            && ip_v is Some && lat_v is Some && -90_000_000 <= lat_v.unwrap() <= 90_000_000
            && lon_v is Some && -180_000_000 <= lon_v.unwrap() <= 180_000_000 {
            let sizes_up = spec_upload_size_table().skip(ratio_v.unwrap() - 1);
            let size_count = sizes_up.len() as int;
            let upload_max = maxchunk_v.unwrap() as int;
            let counts_up = (upload_max + size_count - 1) / size_count;
            Some(
                SpecConfig {
                    ip: ip_v.unwrap(),
                    isp: chars_of_bytes(isp.unwrap()),
                    ignore: ids.unwrap(),
                    sizes_upload: sizes_up,
                    sizes_download: spec_download_sizes(),
                    counts_upload: counts_up as usize,
                    counts_download: tpu_v.unwrap() as usize,
                    threads_upload: up_threads_v.unwrap() as usize,
                    threads_download: (tc.unwrap() * 2) as usize,
                    length_upload: up_len_v.unwrap(),
                    length_download: dl_len_v.unwrap(),
                    upload_max: maxchunk_v.unwrap() as usize,
                    location: EarthLocation {
                        latitude: lat_v.unwrap() as i64,
                        longitude: lon_v.unwrap() as i64,
                    },
                },
            )
        } else {
            None
        }
    } else {
        None
    }
}

impl SpeedTestConfig {
    /// Parses the configuration document. Returns the configuration exactly
    /// when `spec_parse_config` is defined on the document's bytes, and
    /// `ConfigParseError` otherwise.
    pub fn parse(config_xml: &str) -> (r: Result<SpeedTestConfig, SpeedTestError>)
        ensures
            match r {
                Ok(c) => spec_parse_config(config_xml.spec_bytes()) == Some(config_view(c))
                    && valid_lat(c.location.latitude) && valid_lon(c.location.longitude)
                    && c.sizes.upload@.len() > 0,
                Err(e) => spec_parse_config(config_xml.spec_bytes()) is None && e
                    == SpeedTestError::ConfigParseError,
            },
    {
        let doc = config_xml.as_bytes();
        let elems = scan_elements(doc);
        let sc = match find_element(&elems, "server-config") {
            Some(i) => i,
            None => {
                return Err(SpeedTestError::ConfigParseError);
            },
        };
        let dl = match find_element(&elems, "download") {
            Some(i) => i,
            None => {
                return Err(SpeedTestError::ConfigParseError);
            },
        };
        let up = match find_element(&elems, "upload") {
            Some(i) => i,
            None => {
                return Err(SpeedTestError::ConfigParseError);
            },
        };
        let cl = match find_element(&elems, "client") {
            Some(i) => i,
            None => {
                return Err(SpeedTestError::ConfigParseError);
            },
        };
        let ignoreids = match get_attr(&elems[sc], "ignoreids") {
            Some(v) => v,
            None => {
                return Err(SpeedTestError::ConfigParseError);
            },
        };
        let threadcount = match get_attr(&elems[sc], "threadcount") {
            Some(v) => v,
            None => {
                return Err(SpeedTestError::ConfigParseError);
            },
        };
        let tpu = match get_attr(&elems[dl], "threadsperurl") {
            Some(v) => v,
            None => {
                return Err(SpeedTestError::ConfigParseError);
            },
        };
        let dl_len = match get_attr(&elems[dl], "testlength") {
            Some(v) => v,
            None => {
                return Err(SpeedTestError::ConfigParseError);
            },
        };
        let ratio = match get_attr(&elems[up], "ratio") {
            Some(v) => v,
            None => {
                return Err(SpeedTestError::ConfigParseError);
            },
        };
        let maxchunk = match get_attr(&elems[up], "maxchunkcount") {
            Some(v) => v,
            None => {
                return Err(SpeedTestError::ConfigParseError);
            },
        };
        let up_threads = match get_attr(&elems[up], "threads") {
            Some(v) => v,
            None => {
                return Err(SpeedTestError::ConfigParseError);
            },
        };
        let up_len = match get_attr(&elems[up], "testlength") {
            Some(v) => v,
            None => {
                return Err(SpeedTestError::ConfigParseError);
            },
        };
        let ip = match get_attr(&elems[cl], "ip") {
            Some(v) => v,
            None => {
                return Err(SpeedTestError::ConfigParseError);
            },
        };
        let lat = match get_attr(&elems[cl], "lat") {
            Some(v) => v,
            None => {
                return Err(SpeedTestError::ConfigParseError);
            },
        };
        let lon = match get_attr(&elems[cl], "lon") {
            Some(v) => v,
            None => {
                return Err(SpeedTestError::ConfigParseError);
            },
        };
        let isp = match get_attr(&elems[cl], "isp") {
            Some(v) => v,
            None => {
                return Err(SpeedTestError::ConfigParseError);
            },
        };
        let ids = match parse_ids(ignoreids.as_slice()) {
            Some(v) => v,
            None => {
                return Err(SpeedTestError::ConfigParseError);
            },
        };
        let tc = match parse_usize(threadcount.as_slice()) {
            Some(v) => v,
            None => {
                return Err(SpeedTestError::ConfigParseError);
            },
        };
        if tc > usize::MAX / 2 {
            return Err(SpeedTestError::ConfigParseError);
        }
        let tpu_v = match parse_usize(tpu.as_slice()) {
            Some(v) => v,
            None => {
                return Err(SpeedTestError::ConfigParseError);
            },
        };
        let dl_len_v = match parse_u64(dl_len.as_slice()) {
            Some(v) => v,
            None => {
                return Err(SpeedTestError::ConfigParseError);
            },
        };
        let ratio_v = match parse_u64(ratio.as_slice()) {
            Some(v) => v,
            None => {
                return Err(SpeedTestError::ConfigParseError);
            },
        };
        if ratio_v < 1 || ratio_v > 7 {
            return Err(SpeedTestError::ConfigParseError);
        }
        let maxchunk_v = match parse_usize(maxchunk.as_slice()) {
            Some(v) => v,
            None => {
                return Err(SpeedTestError::ConfigParseError);
            },
        };
        let up_threads_v = match parse_usize(up_threads.as_slice()) {
            Some(v) => v,
            None => {
                return Err(SpeedTestError::ConfigParseError);
            },
        };
        let up_len_v = match parse_u64(up_len.as_slice()) {
            Some(v) => v,
            None => {
                return Err(SpeedTestError::ConfigParseError);
            },
        };
        let ip_v = match parse_ipv4(ip.as_slice()) {
            Some(v) => v,
            None => {
                return Err(SpeedTestError::ConfigParseError);
            },
        };
        let lat_v = match parse_micro_deg(lat.as_slice(), 90_000_000) {
            Some(v) => v,
            None => {
                return Err(SpeedTestError::ConfigParseError);
            },
        };
        let lon_v = match parse_micro_deg(lon.as_slice(), 180_000_000) {
            Some(v) => v,
            None => {
                return Err(SpeedTestError::ConfigParseError);
            },
        };
        let mut table: Vec<usize> = Vec::new();
        table.push(32768);
        table.push(65536);
        table.push(131072);
        table.push(262144);
        table.push(524288);
        table.push(1048576);
        table.push(7340032);
        let mut sizes_up: Vec<usize> = Vec::new();
        let mut k: usize = (ratio_v - 1) as usize;
        while k < 7
            invariant
                ratio_v - 1 <= k <= 7,
                1 <= ratio_v <= 7,
                table@ == spec_upload_size_table(),
                sizes_up@ =~= spec_upload_size_table().subrange(ratio_v - 1, k as int),
            decreases 7 - k,
        {
            let tv = table[k];
            sizes_up.push(tv);
            proof {
                assert(sizes_up@ =~= spec_upload_size_table().subrange(ratio_v - 1, k + 1));
            }
            k = k + 1;
        }
        proof {
            assert(sizes_up@ =~= spec_upload_size_table().skip(ratio_v - 1));
        }
        let size_count: usize = sizes_up.len();
        let counts_up_wide: u128 = (maxchunk_v as u128 + size_count as u128 - 1) / (
        size_count as u128);
        proof {
            let mc = maxchunk_v as int;
            let scn = size_count as int;
            assert(mc + scn - 1 <= scn * mc + (scn - 1)) by (nonlinear_arith)
                requires
                    scn >= 1,
                    mc >= 0,
            ;
            vstd::arithmetic::div_mod::lemma_div_is_ordered(mc + scn - 1, scn * mc + (scn - 1), scn);
            vstd::arithmetic::div_mod::lemma_div_multiples_vanish_fancy(mc, scn - 1, scn);
            vstd::arithmetic::div_mod::lemma_div_pos_is_pos(mc + scn - 1, scn);
        }
        let counts_up: usize = counts_up_wide as usize;
        let mut sizes_dl: Vec<usize> = Vec::new();
        sizes_dl.push(350);
        sizes_dl.push(500);
        sizes_dl.push(750);
        sizes_dl.push(1000);
        sizes_dl.push(1500);
        sizes_dl.push(2000);
        sizes_dl.push(2500);
        sizes_dl.push(3000);
        sizes_dl.push(3500);
        sizes_dl.push(4000);
        proof {
            assert(sizes_dl@ =~= spec_download_sizes());
        }
        let isp_s = bytes_to_string(isp.as_slice());
        let config = SpeedTestConfig {
            client: SpeedTestClientConfig { ip: ip_v, isp: isp_s },
            ignore_servers: ids,
            sizes: SpeedTestSizeConfig { upload: sizes_up, download: sizes_dl },
            counts: SpeedTestCountsConfig { upload: counts_up, download: tpu_v },
            threads: SpeedTestThreadsConfig { upload: up_threads_v, download: tc * 2 },
            length: SpeedTestLengthConfig { upload: up_len_v, download: dl_len_v },
            upload_max: maxchunk_v,
            location: EarthLocation { latitude: lat_v, longitude: lon_v },
        };
        Ok(config)
    }
}

} // verus!
