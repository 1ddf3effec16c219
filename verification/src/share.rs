//! The share protocol: the legacy-compatible result hash, the form-encoded
//! submission body, and the response's result identifier.

use vstd::prelude::*;
use vstd::string::StrSliceExecFns;
use vstd::string::StringExecFns;

use crate::error::SpeedTestError;
use crate::speedtest::SpeedMeasurement;
use crate::speedtest::SpeedTestLatencyTestResult;
use crate::speedtest::SpeedTestServer;
use crate::textutil::chars_of_bytes;
use crate::textutil::find_byte;
use crate::textutil::find_byte_at;
use crate::textutil::is_digit;
use crate::textutil::lemma_find_byte;
use crate::textutil::spec_dec_str;
use crate::textutil::str_eq_bytes;
use crate::textutil::u64_to_string;

verus! {

/// The fixed salt the legacy service folds into the hash.
pub open spec fn spec_hash_salt() -> Seq<char> {
    "297aae72"@
}

/// What the digest of a text is. Two equal texts digest alike on every
/// machine; nothing else is assumed of the value here.
pub uninterp spec fn md5_hex_of(s: Seq<char>) -> Seq<char>;

/// Whether `c` is a lowercase hexadecimal digit.
pub open spec fn is_hex_char(c: char) -> bool {
    ('0' <= c <= '9') || ('a' <= c <= 'f')
}

/// Relies on `md5::compute` and the digest's `LowerHex` formatting: sixteen
/// bytes, each written as two lowercase hexadecimal digits.
#[verifier::external_body]
fn md5_hex(input: &str) -> (r: String)
    ensures
        r@ == md5_hex_of(input@),
        r@.len() == 32,
        forall|i: int| 0 <= i < 32 ==> is_hex_char(#[trigger] r@[i]),
{
    let digest = md5::compute(input.as_bytes());
    format!("{digest:x}")
}

/// Whether `c` passes through the form encoding unchanged: the
/// alphanumerics and `*`, `-`, `.`, `_`.
pub open spec fn form_safe_char(c: char) -> bool {
    ('0' <= c <= '9') || ('a' <= c <= 'z') || ('A' <= c <= 'Z') || c == '*' || c == '-' || c == '.'
        || c == '_'
}

/// Whether every character of every name and value is form-safe.
pub open spec fn form_safe_pairs(pairs: Seq<(Seq<char>, Seq<char>)>) -> bool {
    forall|i: int|
        0 <= i < pairs.len() ==> (forall|j: int|
            0 <= j < (#[trigger] pairs[i]).0.len() ==> form_safe_char(#[trigger] pairs[i].0[j]))
            && (forall|j: int|
            0 <= j < pairs[i].1.len() ==> form_safe_char(#[trigger] pairs[i].1[j]))
}

/// The form encoding of safe pairs: `name=value`, joined by `&`.
pub open spec fn spec_form_joined(pairs: Seq<(Seq<char>, Seq<char>)>) -> Seq<char>
    decreases pairs.len(),
{
    if pairs.len() == 0 {
        Seq::empty()
    } else if pairs.len() == 1 {
        pairs[0].0 + "="@ + pairs[0].1
    } else {
        pairs[0].0 + "="@ + pairs[0].1 + "&"@ + spec_form_joined(pairs.skip(1))
    }
}

/// The images of the executable pairs.
pub open spec fn pairs_view(pairs: Seq<(String, String)>) -> Seq<(Seq<char>, Seq<char>)> {
    pairs.map_values(|p: (String, String)| (p.0@, p.1@))
}

/// Relies on `url::form_urlencoded::Serializer`: each pair is appended as
/// `name=value` behind a `&` separator, and characters of the unreserved
/// set pass through unchanged.
#[verifier::external_body]
fn form_urlencode_pairs(pairs: &Vec<(String, String)>) -> (r: String)
    requires
        form_safe_pairs(pairs_view(pairs@)),
    ensures
        r@ == spec_form_joined(pairs_view(pairs@)),
{
    url::form_urlencoded::Serializer::new(String::new())
        .extend_pairs(pairs.iter().map(|p| (&p.0, &p.1)))
        .finish()
}

/// One full measurement run, ready for submission: the optional download
/// and upload measurements, the chosen server, and its probed latency.
pub struct SpeedTestResult<'a, 'b, 'c> {
    pub download_measurement: Option<&'a SpeedMeasurement>,
    pub upload_measurement: Option<&'b SpeedMeasurement>,
    pub server: &'c SpeedTestServer,
    pub latency_measurement: &'c SpeedTestLatencyTestResult<'c>,
}

/// The throughput a measurement contributes to the share protocol:
/// its whole kilobits per second, or zero where the phase did not run.
pub open spec fn spec_kbps_or_zero(m: Option<&SpeedMeasurement>) -> int {
    match m {
        Some(m) => 8 * m.size / ((m.duration_micros / 1000) as int),
        None => 0,
    }
}

/// Whether a measurement can be spoken of in whole kilobits per second:
/// it lasted at least a millisecond and its rate fits 32 bits.
pub open spec fn measurement_rate_ok(m: Option<&SpeedMeasurement>) -> bool {
    match m {
        Some(m) => m.duration_micros >= 1000 && 8 * m.size / ((m.duration_micros / 1000) as int)
            <= u32::MAX,
        None => true,
    }
}

/// The text whose digest the legacy service expects:
/// `latency-upload-download-salt`, with absent measurements written as zero.
pub open spec fn spec_hash_input(latency_ms: int, up_kbps: int, dl_kbps: int) -> Seq<char> {
    spec_dec_str(latency_ms as nat) + "-"@ + spec_dec_str(up_kbps as nat) + "-"@ + spec_dec_str(
        dl_kbps as nat,
    ) + "-"@ + spec_hash_salt()
}

impl SpeedTestResult<'_, '_, '_> {
    /// The whole milliseconds of the probed one-way latency.
    pub open spec fn spec_latency_ms(&self) -> int {
        (self.latency_measurement.latency_micros / 1000) as int
    }

    /// The legacy-compatible hash of the run: the digest of
    /// `latency-upload-download-297aae72` in lowercase hexadecimal.
    pub fn hash(&self) -> (r: String)
        requires
            measurement_rate_ok(self.download_measurement),
            measurement_rate_ok(self.upload_measurement),
        ensures
            r@ == md5_hex_of(
                spec_hash_input(
                    self.spec_latency_ms(),
                    spec_kbps_or_zero(self.upload_measurement),
                    spec_kbps_or_zero(self.download_measurement),
                ),
            ),
            r@.len() == 32,
            forall|i: int| 0 <= i < 32 ==> is_hex_char(#[trigger] r@[i]),
    {
        let latency_ms: u64 = self.latency_measurement.latency_micros / 1000;
        let up: u32 = match self.upload_measurement {
            Some(m) => m.kbps(),
            None => 0,
        };
        let dl: u32 = match self.download_measurement {
            Some(m) => m.kbps(),
            None => 0,
        };
        let mut input = u64_to_string(latency_ms);
        input.append("-");
        let ups = u64_to_string(up as u64);
        input.append(ups.as_str());
        input.append("-");
        let dls = u64_to_string(dl as u64);
        input.append(dls.as_str());
        input.append("-");
        input.append("297aae72");
        proof {
            assert(input@ =~= spec_hash_input(
                self.spec_latency_ms(),
                spec_kbps_or_zero(self.upload_measurement),
                spec_kbps_or_zero(self.download_measurement),
            ));
        }
        md5_hex(input.as_str())
    }
}

/// Every character of a decimal numeral is form-safe.
proof fn lemma_dec_str_safe(n: nat)
    ensures
        forall|i: int|
            0 <= i < spec_dec_str(n).len() ==> form_safe_char(#[trigger] spec_dec_str(n)[i]),
    decreases n,
{
    if n < 10 {
    } else {
        lemma_dec_str_safe(n / 10);
        assert(spec_dec_str(n) == spec_dec_str(n / 10).push(
            crate::textutil::digit_char(n % 10),
        ));
    }
}

/// The pairs of a share submission, in the order the legacy service
/// expects: the measured rates, the probed latency, the fixed mode fields,
/// the server identifier twice, and the hash.
pub open spec fn spec_share_pairs(
    dl_kbps: int,
    latency_ms: int,
    up_kbps: int,
    server_id: u32,
    hash: Seq<char>,
) -> Seq<(Seq<char>, Seq<char>)> {
    seq![
        ("download"@, spec_dec_str(dl_kbps as nat)),
        ("ping"@, spec_dec_str(latency_ms as nat)),
        ("upload"@, spec_dec_str(up_kbps as nat)),
        ("promo"@, Seq::empty()),
        ("startmode"@, "pingselect"@),
        ("recommendedserverid"@, spec_dec_str(server_id as nat)),
        ("accuracy"@, "1"@),
        ("serverid"@, spec_dec_str(server_id as nat)),
        ("hash"@, hash),
    ]
}

/// The body of a share submission: its pairs, form-joined.
pub open spec fn spec_share_body(
    dl_kbps: int,
    latency_ms: int,
    up_kbps: int,
    server_id: u32,
    hash: Seq<char>,
) -> Seq<char> {
    spec_form_joined(spec_share_pairs(dl_kbps, latency_ms, up_kbps, server_id, hash))
}

/// Builds the form-encoded share submission body for a finished run.
pub fn build_share_body(result: &SpeedTestResult) -> (r: String)
    requires
        measurement_rate_ok(result.download_measurement),
        measurement_rate_ok(result.upload_measurement),
    ensures
        r@ == spec_share_body(
            spec_kbps_or_zero(result.download_measurement),
            result.spec_latency_ms(),
            spec_kbps_or_zero(result.upload_measurement),
            result.server.id,
            md5_hex_of(
                spec_hash_input(
                    result.spec_latency_ms(),
                    spec_kbps_or_zero(result.upload_measurement),
                    spec_kbps_or_zero(result.download_measurement),
                ),
            ),
        ),
{
    let latency_ms: u64 = result.latency_measurement.latency_micros / 1000;
    let dl: u32 = match result.download_measurement {
        Some(m) => m.kbps(),
        None => 0,
    };
    let up: u32 = match result.upload_measurement {
        Some(m) => m.kbps(),
        None => 0,
    };
    let hash = result.hash();
    let dl_s = u64_to_string(dl as u64);
    let ping_s = u64_to_string(latency_ms);
    let up_s = u64_to_string(up as u64);
    let id_s = u64_to_string(result.server.id as u64);
    let id_s2 = u64_to_string(result.server.id as u64);
    let mut pairs: Vec<(String, String)> = Vec::new();
    pairs.push((String::from_str("download"), dl_s));
    pairs.push((String::from_str("ping"), ping_s));
    pairs.push((String::from_str("upload"), up_s));
    pairs.push((String::from_str("promo"), String::new()));
    pairs.push((String::from_str("startmode"), String::from_str("pingselect")));
    pairs.push((String::from_str("recommendedserverid"), id_s));
    pairs.push((String::from_str("accuracy"), String::from_str("1")));
    pairs.push((String::from_str("serverid"), id_s2));
    pairs.push((String::from_str("hash"), hash));
    proof {
        reveal_strlit("download");
        reveal_strlit("ping");
        reveal_strlit("upload");
        reveal_strlit("promo");
        reveal_strlit("startmode");
        reveal_strlit("pingselect");
        reveal_strlit("recommendedserverid");
        reveal_strlit("accuracy");
        reveal_strlit("1");
        reveal_strlit("serverid");
        reveal_strlit("hash");
        lemma_dec_str_safe((dl as u64) as nat);
        lemma_dec_str_safe(latency_ms as nat);
        lemma_dec_str_safe((up as u64) as nat);
        lemma_dec_str_safe((result.server.id as u64) as nat);
        assert(form_safe_pairs(pairs_view(pairs@)));
    }
    proof {
        assert(pairs_view(pairs@) =~= spec_share_pairs(
            spec_kbps_or_zero(result.download_measurement),
            result.spec_latency_ms(),
            spec_kbps_or_zero(result.upload_measurement),
            result.server.id,
            md5_hex_of(
                spec_hash_input(
                    result.spec_latency_ms(),
                    spec_kbps_or_zero(result.upload_measurement),
                    spec_kbps_or_zero(result.download_measurement),
                ),
            ),
        ));
    }
    let body = form_urlencode_pairs(&pairs);
    proof {
        assert(body@ == spec_share_body(
            spec_kbps_or_zero(result.download_measurement),
            result.spec_latency_ms(),
            spec_kbps_or_zero(result.upload_measurement),
            result.server.id,
            md5_hex_of(
                spec_hash_input(
                    result.spec_latency_ms(),
                    spec_kbps_or_zero(result.upload_measurement),
                    spec_kbps_or_zero(result.download_measurement),
                ),
            ),
        ));
    }
    body
}

/// The decoded form of a form-encoded byte run: `+` becomes a space, a `%`
/// followed by two hexadecimal digits becomes that byte, and anything else
/// passes through.
pub open spec fn spec_form_decode(s: Seq<u8>) -> Seq<u8>
    decreases s.len(),
{
    if s.len() == 0 {
        Seq::empty()
    } else if s[0] == 43 {
        seq![32u8] + spec_form_decode(s.skip(1))
    } else if s[0] == 37 && s.len() >= 3 && is_hex_byte(s[1]) && is_hex_byte(s[2]) {
        seq![((hex_val(s[1]) * 16 + hex_val(s[2])) as u8)] + spec_form_decode(s.skip(3))
    } else {
        seq![s[0]] + spec_form_decode(s.skip(1))
    }
}

/// Whether `b` is a hexadecimal digit byte, either case.
pub open spec fn is_hex_byte(b: u8) -> bool {
    is_digit(b) || (97 <= b <= 102) || (65 <= b <= 70)
}

/// The value of a hexadecimal digit byte.
pub open spec fn hex_val(b: u8) -> int {
    if is_digit(b) {
        b - 48
    } else if 97 <= b <= 102 {
        b - 97 + 10
    } else {
        b - 65 + 10
    }
}

/// Decodes a form-encoded byte run.
#[verifier::loop_isolation(false)]
fn form_decode(s: &[u8]) -> (r: Vec<u8>)
    ensures
        r@ == spec_form_decode(s@),
{
    let mut out: Vec<u8> = Vec::new();
    let mut i: usize = 0;
    proof {
        assert(s@.skip(0) =~= s@);
    }
    while i < s.len()
        invariant
            i <= s@.len(),
            spec_form_decode(s@) == out@ + spec_form_decode(s@.skip(i as int)),
        decreases s@.len() - i,
    {
        let ghost before = out@;
        let b = s[i];
        let step: usize;
        if b == 43 {
            out.push(32);
            step = 1;
        } else if b == 37 && s.len() - i > 2 && hex_byte_val(s[i + 1]) < 16 && hex_byte_val(
            s[i + 2],
        ) < 16 {
            let hi = hex_byte_val(s[i + 1]);
            let lo = hex_byte_val(s[i + 2]);
            out.push((hi * 16 + lo) as u8);
            step = 3;
        } else {
            out.push(b);
            step = 1;
        }
        proof {
            assert(s@.skip(i as int)[0] == s@[i as int]);
            if step == 3 {
                assert(s@.skip(i as int).skip(3) =~= s@.skip(i + 3));
                assert(s@.skip(i as int)[1] == s@[i + 1]);
                assert(s@.skip(i as int)[2] == s@[i + 2]);
            } else {
                assert(s@.skip(i as int).skip(1) =~= s@.skip(i + 1));
            }
            assert(before + spec_form_decode(s@.skip(i as int)) =~= out@ + spec_form_decode(
                s@.skip(i + step as int),
            ));
        }
        i = i + step;
    }
    proof {
        assert(spec_form_decode(s@.skip(i as int)) =~= Seq::<u8>::empty());
        assert(out@ + Seq::<u8>::empty() =~= out@);
    }
    out
}

/// The value of a hexadecimal digit byte, or sixteen for any other byte.
fn hex_byte_val(b: u8) -> (r: u8)
    ensures
        is_hex_byte(b) ==> r == hex_val(b),
        !is_hex_byte(b) ==> r == 16,
{
    if 48 <= b && b <= 57 {
        b - 48
    } else if 97 <= b && b <= 102 {
        b - 97 + 10
    } else if 65 <= b && b <= 70 {
        b - 65 + 10
    } else {
        16
    }
}

/// The decoded `resultid` value of a form-encoded response: scanning the
/// `&`-separated parts in order, the value of the first part whose decoded
/// name is `resultid`. Empty parts are passed over; a part without `=` has
/// an empty value.
pub open spec fn spec_find_resultid(s: Seq<u8>) -> Option<Seq<u8>>
    decreases s.len(),
    via spec_find_resultid_decreases
{
    if s.len() == 0 {
        None
    } else {
        let part = match find_byte(s, 38) {
            Some(p) => s.take(p),
            None => s,
        };
        let rest_from = match find_byte(s, 38) {
            Some(p) => p + 1,
            None => s.len() as int,
        };
        let key = match find_byte(part, 61) {
            Some(q) => part.take(q),
            None => part,
        };
        let value = match find_byte(part, 61) {
            Some(q) => part.skip(q + 1),
            None => Seq::empty(),
        };
        if part.len() > 0 && chars_of_bytes(spec_form_decode(key)) == "resultid"@ {
            Some(spec_form_decode(value))
        } else if rest_from >= s.len() {
            None
        } else {
            spec_find_resultid(s.skip(rest_from))
        }
    }
}

#[via_fn]
proof fn spec_find_resultid_decreases(s: Seq<u8>) {
    lemma_find_byte(s, 38);
}

/// Extracts the `resultid` field of a form-encoded share response, or
/// `ParseShareUrlError` when no part carries one.
#[verifier::loop_isolation(false)]
pub fn parse_share_request_response_id(input: &[u8]) -> (r: Result<String, SpeedTestError>)
    ensures
        match r {
            Ok(v) => spec_find_resultid(input@) is Some && v@ == chars_of_bytes(
                spec_find_resultid(input@).unwrap(),
            ),
            Err(e) => spec_find_resultid(input@) is None && e
                == SpeedTestError::ParseShareUrlError,
        },
    decreases input@.len(),
{
    if input.len() == 0 {
        return Err(SpeedTestError::ParseShareUrlError);
    }
    let n = input.len();
    let (part, rest_from): (&[u8], usize) = match find_byte_at(input, 38) {
        Some(p) => {
            proof {
                lemma_find_byte(input@, 38);
            }
            (vstd::slice::slice_subrange(input, 0, p), p + 1)
        },
        None => (input, n),
    };
    proof {
        match find_byte(input@, 38) {
            Some(p) => {
                assert(part@ =~= input@.take(p));
            },
            None => {},
        }
    }
    let (key, value): (&[u8], &[u8]) = match find_byte_at(part, 61) {
        Some(q) => {
            proof {
                lemma_find_byte(part@, 61);
            }
            (
                vstd::slice::slice_subrange(part, 0, q),
                vstd::slice::slice_subrange(part, q + 1, part.len()),
            )
        },
        None => {
            let empty_tail = vstd::slice::slice_subrange(part, part.len(), part.len());
            (part, empty_tail)
        },
    };
    proof {
        match find_byte(part@, 61) {
            Some(q) => {
                assert(key@ =~= part@.take(q));
                assert(value@ =~= part@.skip(q + 1));
            },
            None => {
                assert(value@ =~= Seq::<u8>::empty());
            },
        }
    }
    if part.len() > 0 {
        let key_d = form_decode(key);
        if str_eq_bytes(key_d.as_slice(), "resultid") {
            let value_d = form_decode(value);
            let out = crate::textutil::bytes_to_string(value_d.as_slice());
            return Ok(out);
        }
    }
    if rest_from >= n {
        return Err(SpeedTestError::ParseShareUrlError);
    }
    let rest = vstd::slice::slice_subrange(input, rest_from, n);
    proof {
        assert(rest@ =~= input@.skip(rest_from as int));
    }
    parse_share_request_response_id(rest)
}

/// The share image URL carrying a result identifier.
pub open spec fn spec_share_result_url(id: Seq<char>) -> Seq<char> {
    "http://www.speedtest.net/result/"@ + id + ".png"@
}

/// Builds the share image URL for a result identifier.
pub fn share_result_url(id: &str) -> (r: String)
    ensures
        r@ == spec_share_result_url(id@),
{
    let mut out = String::from_str("http://www.speedtest.net/result/");
    out.append(id);
    out.append(".png");
    proof {
        assert(out@ =~= spec_share_result_url(id@));
    }
    out
}

} // verus!
