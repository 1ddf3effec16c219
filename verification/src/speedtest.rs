//! The measurement engine's data types and pure logic: servers, latency
//! selection, measurements, and benchmark workload construction.

use vstd::prelude::*;
use vstd::string::StrSliceExecFns;
use vstd::string::StringExecFns;

use crate::distance::EarthLocation;
use crate::error::SpeedTestError;
use crate::textutil::spec_dec_str;
use crate::textutil::u64_to_string;

verus! {

/// One server of the directory, with its distance from the client in metres
/// where a client location was known.
pub struct SpeedTestServer {
    pub country: String,
    pub host: String,
    pub id: u32,
    pub location: EarthLocation,
    pub distance: Option<u64>,
    pub name: String,
    pub sponsor: String,
    pub url: String,
}

/// The mathematical image of a server entry.
pub ghost struct SpecServer {
    pub country: Seq<char>,
    pub host: Seq<char>,
    pub id: u32,
    pub location: EarthLocation,
    pub distance: Option<u64>,
    pub name: Seq<char>,
    pub sponsor: Seq<char>,
    pub url: Seq<char>,
}

/// The image of an executable server entry.
pub open spec fn server_view(s: SpeedTestServer) -> SpecServer {
    SpecServer {
        country: s.country@,
        host: s.host@,
        id: s.id,
        location: s.location,
        distance: s.distance,
        name: s.name@,
        sponsor: s.sponsor@,
        url: s.url@,
    }
}

/// The images of a run of server entries.
pub open spec fn servers_view(v: Seq<SpeedTestServer>) -> Seq<SpecServer> {
    v.map_values(|s: SpeedTestServer| server_view(s))
}

impl SpeedTestServer {
    /// A copy of the entry, equal in every field.
    pub fn duplicate(&self) -> (r: SpeedTestServer)
        ensures
            server_view(r) == server_view(*self),
    {
        SpeedTestServer {
            country: self.country.clone(),
            host: self.host.clone(),
            id: self.id,
            location: self.location,
            distance: self.distance,
            name: self.name.clone(),
            sponsor: self.sponsor.clone(),
            url: self.url.clone(),
        }
    }
}

/// The winning server of a latency probe and its estimated one-way trip
/// time in microseconds.
pub struct SpeedTestLatencyTestResult<'a> {
    pub server: &'a SpeedTestServer,
    pub latency_micros: u64,
}

/// One finished transfer measurement: bytes moved and the wall-clock time
/// they took, in microseconds.
pub struct SpeedMeasurement {
    pub size: usize,
    pub duration_micros: u64,
}

impl SpeedMeasurement {
    /// Kilobits per second: eight bits per byte over whole milliseconds.
    pub fn kbps(&self) -> (r: u32)
        requires
            self.duration_micros >= 1000,
            8 * self.size / ((self.duration_micros / 1000) as int) <= u32::MAX,
        ensures
            r == 8 * self.size / ((self.duration_micros / 1000) as int),
    {
        let ms: u64 = self.duration_micros / 1000;
        proof {
            assert(8 * self.size <= 8 * usize::MAX) by (nonlinear_arith)
                requires
                    0 <= self.size <= usize::MAX,
            ;
        }
        let bits: u128 = 8u128 * (self.size as u128);
        let r_wide: u128 = bits / (ms as u128);
        r_wide as u32
    }
}

/// The index of the last occurrence of `c` in `s`, if any.
pub open spec fn find_last_char(s: Seq<char>, c: char) -> Option<int>
    decreases s.len(),
{
    if s.len() == 0 {
        None
    } else if s.last() == c {
        Some(s.len() - 1)
    } else {
        find_last_char(s.drop_last(), c)
    }
}

/// What `find_last_char` yields: the last position holding `c`.
pub proof fn lemma_find_last_char(s: Seq<char>, c: char)
    ensures
        match find_last_char(s, c) {
            Some(i) => 0 <= i < s.len() && s[i] == c && forall|j: int|
                i < j < s.len() ==> s[j] != c,
            None => forall|j: int| 0 <= j < s.len() ==> s[j] != c,
        },
    decreases s.len(),
{
    if s.len() > 0 && s.last() != c {
        lemma_find_last_char(s.drop_last(), c);
        assert(forall|j: int| 0 <= j < s.len() - 1 ==> s[j] == s.drop_last()[j]);
    }
}

/// The latency endpoint derived from a transfer URL: the parent path, up to
/// the last slash, with `latency.txt` appended. A URL without a slash has
/// no parent.
pub open spec fn spec_latency_url(url: Seq<char>) -> Option<Seq<char>> {
    match find_last_char(url, '/') {
        None => None,
        Some(p) => Some(url.take(p) + "/latency.txt"@),
    }
}

/// Derives the latency endpoint of a server's transfer URL, or
/// `LatencyTestInvalidPath` if the URL has no parent path.
#[verifier::loop_isolation(false)]
pub fn latency_url(server_url: &str) -> (r: Result<String, SpeedTestError>)
    ensures
        match r {
            Ok(u) => spec_latency_url(server_url@) == Some(u@),
            Err(e) => spec_latency_url(server_url@) is None && e
                == SpeedTestError::LatencyTestInvalidPath,
        },
{
    let n = server_url.unicode_len();
    let mut found: bool = false;
    let mut last: usize = 0;
    let mut i: usize = 0;
    while i < n
        invariant
            i <= n == server_url@.len(),
            found ==> last < i && server_url@[last as int] == '/' && forall|j: int|
                last < j < i ==> server_url@[j] != '/',
            !found ==> forall|j: int| 0 <= j < i ==> server_url@[j] != '/',
        decreases n - i,
    {
        if server_url.get_char(i) == '/' {
            found = true;
            last = i;
        }
        i = i + 1;
    }
    proof {
        lemma_find_last_char(server_url@, '/');
    }
    if !found {
        return Err(SpeedTestError::LatencyTestInvalidPath);
    }
    proof {
        match find_last_char(server_url@, '/') {
            Some(p) => {
                assert(server_url@[p] == '/');
                assert(p == last);
            },
            None => {
                assert(false);
            },
        }
    }
    let parent = server_url.substring_char(0, last);
    let mut out = parent.to_owned();
    out.append("/latency.txt");
    proof {
        assert(out@ =~= server_url@.take(last as int) + "/latency.txt"@);
    }
    Ok(out)
}

/// The sum of a run of 64-bit sample values.
pub open spec fn spec_sum_u64(s: Seq<u64>) -> int
    decreases s.len(),
{
    if s.len() == 0 {
        0
    } else {
        spec_sum_u64(s.drop_last()) + s.last()
    }
}

/// How round-trip samples become a one-way estimate: the divisor applied
/// per sample, twice the sample count, halving each round trip.
pub const TRIP_HALVES_PER_SAMPLE: u64 = 2;

/// The one-way latency estimate of a candidate's round-trip samples: their
/// sum divided by twice the sample count.
#[verifier::loop_isolation(false)]
pub fn one_way_latency_micros(samples: &Vec<u64>) -> (r: u64)
    requires
        samples@.len() > 0,
        spec_sum_u64(samples@) <= u64::MAX,
    ensures
        r == spec_sum_u64(samples@) / (2 * samples@.len() as int),
{
    let mut total: u64 = 0;
    let mut i: usize = 0;
    proof {
        assert(samples@.take(0) =~= Seq::<u64>::empty());
        lemma_sum_u64_prefix(samples@, 0);
    }
    while i < samples.len()
        invariant
            i <= samples@.len(),
            total == spec_sum_u64(samples@.take(i as int)),
            total <= spec_sum_u64(samples@),
        decreases samples@.len() - i,
    {
        proof {
            assert(samples@.take(i + 1 as int).drop_last() =~= samples@.take(i as int));
            lemma_sum_u64_prefix(samples@, i + 1 as int);
        }
        total = total + samples[i];
        i = i + 1;
    }
    proof {
        assert(samples@.take(samples@.len() as int) =~= samples@);
    }
    let divisor: u128 = (TRIP_HALVES_PER_SAMPLE as u128) * (samples.len() as u128);
    let q: u128 = (total as u128) / divisor;
    proof {
        vstd::arithmetic::div_mod::lemma_div_pos_is_pos(total as int, divisor as int);
        vstd::arithmetic::div_mod::lemma_div_is_ordered_by_denominator(
            total as int,
            1,
            divisor as int,
        );
    }
    q as u64
}

/// A prefix sums to no more than the whole: samples are never negative.
proof fn lemma_sum_u64_prefix(s: Seq<u64>, i: int)
    requires
        0 <= i <= s.len(),
    ensures
        spec_sum_u64(s.take(i)) <= spec_sum_u64(s),
    decreases s.len() - i,
{
    if i < s.len() {
        lemma_sum_u64_prefix(s, i + 1);
        assert(s.take(i + 1).drop_last() =~= s.take(i));
        assert(spec_sum_u64(s.take(i + 1)) == spec_sum_u64(s.take(i)) + s[i]);
    } else {
        assert(s.take(i) =~= s);
    }
}

/// How one candidate's probe ended: its URL had no parent path, one of its
/// samples failed and the candidate was abandoned, or all samples succeeded
/// and gave a one-way estimate in microseconds.
#[derive(Clone, Copy, Debug, PartialEq, Eq, Structural)]
pub enum CandidateOutcome {
    NoPath,
    Abandoned,
    Latency(u64),
}

/// The winning candidate of a latency probe: the first candidate achieving
/// the least one-way estimate. An empty candidate list yields
/// `LatencyTestNoServerError`; a list in which no candidate had a usable
/// path yields `LatencyTestInvalidPath`; a list whose every usable
/// candidate was abandoned yields `LatencyTestClosestError`.
#[verifier::loop_isolation(false)]
pub fn best_candidate(outcomes: &Vec<CandidateOutcome>) -> (r: Result<usize, SpeedTestError>)
    ensures
        outcomes@.len() == 0 ==> r == Err::<usize, SpeedTestError>(
            SpeedTestError::LatencyTestNoServerError,
        ),
        (outcomes@.len() > 0 && forall|k: int|
            0 <= k < outcomes@.len() ==> outcomes@[k] is NoPath) ==> r == Err::<
            usize,
            SpeedTestError,
        >(SpeedTestError::LatencyTestInvalidPath),
        (outcomes@.len() > 0 && (exists|k: int|
            0 <= k < outcomes@.len() && !((#[trigger] outcomes@[k]) is NoPath)) && (forall|k: int|
            0 <= k < outcomes@.len() ==> !((#[trigger] outcomes@[k]) is Latency))) ==> r == Err::<
            usize,
            SpeedTestError,
        >(SpeedTestError::LatencyTestClosestError),
        r is Ok ==> {
            let idx = r.unwrap() as int;
            &&& 0 <= idx < outcomes@.len()
            &&& outcomes@[idx] is Latency
            &&& forall|k: int|
                0 <= k < outcomes@.len() && outcomes@[k] is Latency ==> outcomes@[idx]->Latency_0
                    <= outcomes@[k]->Latency_0
            &&& forall|k: int|
                0 <= k < idx && outcomes@[k] is Latency ==> outcomes@[k]->Latency_0
                    > outcomes@[idx]->Latency_0
        },
        r is Ok <==> exists|k: int|
            0 <= k < outcomes@.len() && (#[trigger] outcomes@[k]) is Latency,
{
    if outcomes.len() == 0 {
        return Err(SpeedTestError::LatencyTestNoServerError);
    }
    let mut best: usize = 0;
    let mut bestv: u64 = 0;
    let mut have: bool = false;
    let mut any_path: bool = false;
    let mut i: usize = 0;
    while i < outcomes.len()
        invariant
            i <= outcomes@.len(),
            !any_path ==> forall|k: int| 0 <= k < i ==> outcomes@[k] is NoPath,
            any_path ==> exists|k: int| 0 <= k < i && !((#[trigger] outcomes@[k]) is NoPath),
            !have ==> forall|k: int| 0 <= k < i ==> !((#[trigger] outcomes@[k]) is Latency),
            have ==> {
                &&& best < i
                &&& outcomes@[best as int] is Latency
                &&& bestv == outcomes@[best as int]->Latency_0
                &&& forall|k: int|
                    0 <= k < i && outcomes@[k] is Latency ==> bestv <= outcomes@[k]->Latency_0
                &&& forall|k: int|
                    0 <= k < best && outcomes@[k] is Latency ==> outcomes@[k]->Latency_0 > bestv
            },
        decreases outcomes@.len() - i,
    {
        match outcomes[i] {
            CandidateOutcome::Latency(v) => {
                any_path = true;
                if !have || v < bestv {
                    have = true;
                    best = i;
                    bestv = v;
                }
            },
            CandidateOutcome::Abandoned => {
                any_path = true;
            },
            CandidateOutcome::NoPath => {},
        }
        i = i + 1;
    }
    if have {
        Ok(best)
    } else if any_path {
        Err(SpeedTestError::LatencyTestClosestError)
    } else {
        Err(SpeedTestError::LatencyTestInvalidPath)
    }
}

/// The download resource for one payload size: `random{N}x{N}.jpg` under
/// the server's base path.
pub open spec fn spec_download_url(base: Seq<char>, size: usize) -> Seq<char> {
    base + "/random"@ + spec_dec_str(size as nat) + "x"@ + spec_dec_str(size as nat) + ".jpg"@
}

/// Builds the download resource URL for one payload size.
pub fn download_url(base: &str, size: usize) -> (r: String)
    ensures
        r@ == spec_download_url(base@, size),
{
    let mut out = base.to_owned();
    out.append("/random");
    let d = u64_to_string(size as u64);
    out.append(d.as_str());
    out.append("x");
    out.append(d.as_str());
    out.append(".jpg");
    proof {
        assert(out@ =~= spec_download_url(base@, size));
    }
    out
}

/// The cache-busting form of a request URL: a query parameter joining the
/// current timestamp and the request's sequence index, appended with `?` or
/// `&` as the URL already carries a query or not.
pub open spec fn spec_cache_busted_url(url: Seq<char>, stamp_ms: u64, idx: u64) -> Seq<char> {
    let sep: Seq<char> = if find_byte_char(url, '?') {
        "&"@
    } else {
        "?"@
    };
    url + sep + "x="@ + spec_dec_str(stamp_ms as nat) + "."@ + spec_dec_str(idx as nat)
}

/// Whether the character occurs in the run.
pub open spec fn find_byte_char(s: Seq<char>, c: char) -> bool {
    exists|j: int| 0 <= j < s.len() && #[trigger] s[j] == c
}

/// Appends the cache-busting query parameter to a request URL.
#[verifier::loop_isolation(false)]
pub fn cache_busted_url(url: &str, stamp_ms: u64, idx: u64) -> (r: String)
    ensures
        r@ == spec_cache_busted_url(url@, stamp_ms, idx),
{
    let n = url.unicode_len();
    let mut has_query: bool = false;
    let mut i: usize = 0;
    while i < n
        invariant
            i <= n == url@.len(),
            has_query ==> find_byte_char(url@, '?'),
            !has_query ==> forall|j: int| 0 <= j < i ==> url@[j] != '?',
        decreases n - i,
    {
        if url.get_char(i) == '?' {
            has_query = true;
        }
        i = i + 1;
    }
    let mut out = url.to_owned();
    if has_query {
        out.append("&");
    } else {
        proof {
            if find_byte_char(url@, '?') {
                let j = choose|j: int| 0 <= j < url@.len() && url@[j] == '?';
                assert(url@[j] != '?');
            }
        }
        out.append("?");
    }
    out.append("x=");
    let d = u64_to_string(stamp_ms);
    out.append(d.as_str());
    out.append(".");
    let e = u64_to_string(idx);
    out.append(e.as_str());
    proof {
        assert(out@ =~= spec_cache_busted_url(url@, stamp_ms, idx));
    }
    out
}

/// Builds the download workload: for each configured size, `count` URLs in
/// order, each targeting that size's resource.
#[verifier::loop_isolation(false)]
pub fn build_download_urls(base: &str, sizes: &Vec<usize>, count: usize) -> (r: Vec<String>)
    requires
        sizes@.len() * count <= usize::MAX,
    ensures
        r@.len() == sizes@.len() * count,
        forall|i: int|
            0 <= i < r@.len() ==> r@[i]@ == spec_download_url(
                base@,
                sizes@[i / (count as int)],
            ),
{
    let mut out: Vec<String> = Vec::new();
    let mut s: usize = 0;
    while s < sizes.len()
        invariant
            s <= sizes@.len(),
            sizes@.len() * count <= usize::MAX,
            out@.len() == s * count,
            forall|i: int|
                0 <= i < out@.len() ==> out@[i]@ == spec_download_url(
                    base@,
                    sizes@[i / (count as int)],
                ),
        decreases sizes@.len() - s,
    {
        proof {
            assert((s + 1) * count <= sizes@.len() * count) by (nonlinear_arith)
                requires
                    s + 1 <= sizes@.len(),
                    count >= 0,
            ;
            assert((s + 1) * count == s * count + count) by (nonlinear_arith);
        }
        let u = download_url(base, sizes[s]);
        let mut c: usize = 0;
        while c < count
            invariant
                c <= count,
                s < sizes@.len(),
                out@.len() == s * count + c,
                u@ == spec_download_url(base@, sizes@[s as int]),
                forall|i: int|
                    0 <= i < out@.len() ==> out@[i]@ == spec_download_url(
                        base@,
                        sizes@[i / (count as int)],
                    ),
            decreases count - c,
        {
            let ghost pos: int = out@.len() as int;
            let u2 = clone_string(&u);
            out.push(u2);
            proof {
                assert(pos / (count as int) == s) by (nonlinear_arith)
                    requires
                        count > 0,
                        pos == s * count + c,
                        0 <= c < count,
                        s >= 0,
                ;
            }
            c = c + 1;
        }
        s = s + 1;
    }
    out
}

/// A copy of a string, equal in its characters.
fn clone_string(s: &String) -> (r: String)
    ensures
        r@ == s@,
{
    s.clone()
}

/// The upload workload's sizes: each configured size repeated `count`
/// times, the whole capped at `cap` requests.
#[verifier::loop_isolation(false)]
pub fn build_upload_sizes(sizes: &Vec<usize>, count: usize, cap: usize) -> (r: Vec<usize>)
    requires
        sizes@.len() * count <= usize::MAX,
    ensures
        r@.len() == if sizes@.len() * count <= cap {
            (sizes@.len() * count) as int
        } else {
            cap as int
        },
        forall|i: int| 0 <= i < r@.len() ==> r@[i] == sizes@[i / (count as int)],
{
    let mut out: Vec<usize> = Vec::new();
    let mut s: usize = 0;
    while s < sizes.len()
        invariant
            s <= sizes@.len(),
            sizes@.len() * count <= usize::MAX,
            out@.len() <= cap,
            out@.len() <= s * count,
            out@.len() < cap ==> out@.len() == s * count,
            forall|i: int| 0 <= i < out@.len() ==> out@[i] == sizes@[i / (count as int)],
        decreases sizes@.len() - s,
    {
        proof {
            assert((s + 1) * count <= sizes@.len() * count) by (nonlinear_arith)
                requires
                    s + 1 <= sizes@.len(),
                    count >= 0,
            ;
            assert((s + 1) * count == s * count + count) by (nonlinear_arith);
        }
        let size = sizes[s];
        let mut c: usize = 0;
        while c < count
            invariant
                c <= count,
                s < sizes@.len(),
                out@.len() <= cap,
                out@.len() <= s * count + c,
                out@.len() < cap ==> out@.len() == s * count + c,
                size == sizes@[s as int],
                forall|i: int| 0 <= i < out@.len() ==> out@[i] == sizes@[i / (count as int)],
            decreases count - c,
        {
            if out.len() < cap {
                let ghost pos: int = out@.len() as int;
                out.push(size);
                proof {
                    assert(pos / (count as int) == s) by (nonlinear_arith)
                        requires
                            count > 0,
                            pos == s * count + c,
                            0 <= c < count,
                            s >= 0,
                    ;
                }
            }
            c = c + 1;
        }
        s = s + 1;
    }
    proof {
        assert(sizes@.len() * count == sizes@.len() as int * count) by (nonlinear_arith);
    }
    out
}

/// The fixed prefix of every upload body.
pub open spec fn spec_upload_prefix() -> Seq<u8> {
    seq![99u8, 111, 110, 116, 101, 110, 116, 49, 61]
}

/// The deterministic filler byte at offset `k` past the prefix: the
/// thirty-six digits and capitals, cycling.
pub open spec fn spec_filler_byte(k: int) -> u8 {
    let m = k % 36;
    if m < 10 {
        (48 + m) as u8
    } else {
        (65 + m - 10) as u8
    }
}

/// The byte at position `i` of an upload body.
pub open spec fn spec_upload_body_byte(i: int) -> u8 {
    if i < 9 {
        spec_upload_prefix()[i]
    } else {
        spec_filler_byte(i - 9)
    }
}

/// Builds a POST body of exactly `size` bytes: the fixed `content1=`
/// prefix, then the repeating alphanumeric filler, truncated to `size`.
#[verifier::loop_isolation(false)]
pub fn upload_body(size: usize) -> (r: Vec<u8>)
    ensures
        r@.len() == size,
        forall|i: int| 0 <= i < size ==> r@[i] == spec_upload_body_byte(i),
{
    let mut out: Vec<u8> = Vec::new();
    let prefix: [u8; 9] = [99, 111, 110, 116, 101, 110, 116, 49, 61];
    let mut i: usize = 0;
    while i < size
        invariant
            i <= size,
            out@.len() == i,
            prefix@ =~= spec_upload_prefix(),
            forall|j: int| 0 <= j < i ==> out@[j] == spec_upload_body_byte(j),
        decreases size - i,
    {
        let b: u8;
        if i < 9 {
            b = prefix[i];
        } else {
            let m: usize = (i - 9) % 36;
            if m < 10 {
                b = 48 + (m as u8);
            } else {
                b = 65 + (m as u8) - 10;
            }
        }
        out.push(b);
        i = i + 1;
    }
    out
}

/// The sum of the bytes each task moved.
pub open spec fn spec_sum_usize(s: Seq<usize>) -> int
    decreases s.len(),
{
    if s.len() == 0 {
        0
    } else {
        spec_sum_usize(s.drop_last()) + s.last()
    }
}

/// The exact total of bytes moved across all tasks: the sum of the parts,
/// or nothing where that sum does not fit the machine word.
#[verifier::loop_isolation(false)]
pub fn total_transferred(amounts: &Vec<usize>) -> (r: Option<usize>)
    ensures
        spec_sum_usize(amounts@) <= usize::MAX ==> r == Some(spec_sum_usize(amounts@) as usize),
        spec_sum_usize(amounts@) > usize::MAX ==> r is None,
{
    let mut total: u128 = 0;
    let mut over: bool = false;
    let mut i: usize = 0;
    while i < amounts.len()
        invariant
            i <= amounts@.len(),
            !over ==> total == spec_sum_usize(amounts@.take(i as int)) && total <= usize::MAX,
            over ==> spec_sum_usize(amounts@.take(i as int)) > usize::MAX,
        decreases amounts@.len() - i,
    {
        proof {
            assert(amounts@.take(i + 1 as int).drop_last() =~= amounts@.take(i as int));
        }
        if over {
        } else {
            let a = amounts[i];
            let nt: u128 = total + (a as u128);
            if nt > usize::MAX as u128 {
                over = true;
            } else {
                total = nt;
            }
        }
        i = i + 1;
    }
    proof {
        assert(amounts@.take(amounts@.len() as int) =~= amounts@);
    }
    if over {
        None
    } else {
        Some(total as usize)
    }
}

/// Whether a task may keep transferring: the wall clock is within the
/// configured budget and no early termination was signalled.
pub fn should_continue(elapsed_micros: u64, budget_micros: u64, early_termination: bool) -> (r:
    bool)
    ensures
        r == (elapsed_micros < budget_micros && !early_termination),
{
    elapsed_micros < budget_micros && !early_termination
}

/// The throughput, in bits per second, above which the upload phase is
/// widened.
pub const HIGH_THROUGHPUT_BPS: u64 = 100_000_000;

/// The upload worker count used after a high-throughput download.
pub const HIGH_THROUGHPUT_UPLOAD_THREADS: usize = 8;

/// Whether a finished measurement moved more than `HIGH_THROUGHPUT_BPS`
/// bits per second.
pub open spec fn spec_fast_transfer(size: usize, micros: u64) -> bool {
    8 * (size as int) * 1_000_000 > (HIGH_THROUGHPUT_BPS as int) * (micros as int)
}

/// The upload worker count to use after the download phase: raised to
/// `HIGH_THROUGHPUT_UPLOAD_THREADS` when the download ran above
/// `HIGH_THROUGHPUT_BPS`, and kept as configured otherwise.
pub fn updated_upload_threads(measurement: &SpeedMeasurement, current: usize) -> (r: usize)
    ensures
        r == if spec_fast_transfer(measurement.size, measurement.duration_micros) {
            HIGH_THROUGHPUT_UPLOAD_THREADS as int
        } else {
            current as int
        },
{
    let bits_scaled: u128 = 8u128 * (measurement.size as u128) * 1_000_000u128;
    let budget: u128 = (HIGH_THROUGHPUT_BPS as u128) * (measurement.duration_micros as u128);
    proof {
        assert(8 * (measurement.size as int) <= 8 * usize::MAX) by (nonlinear_arith)
            requires
                0 <= measurement.size <= usize::MAX,
        ;
        assert((8 * (measurement.size as int)) * 1_000_000 <= (8 * usize::MAX as int) * 1_000_000)
            by (nonlinear_arith)
            requires
                0 <= 8 * (measurement.size as int) <= 8 * usize::MAX as int,
        ;
        assert((HIGH_THROUGHPUT_BPS as int) * (measurement.duration_micros as int)
            <= (HIGH_THROUGHPUT_BPS as int) * (u64::MAX as int)) by (nonlinear_arith)
            requires
                0 <= measurement.duration_micros <= u64::MAX,
        ;
    }
    if bits_scaled > budget {
        HIGH_THROUGHPUT_UPLOAD_THREADS
    } else {
        current
    }
}

} // verus!
