//! The server directory: parsing the server-list document and ranking the
//! entries by great-circle distance from the client.
//!
//! Each `<server>` element must carry all eight attributes with well-formed
//! values; a malformed entry is dropped silently, as the legacy protocol
//! tolerates, and an entry whose identifier the configuration ignores is
//! excluded. The overall parse itself never fails.

use vstd::prelude::*;
use vstd::string::StringSliceAdditionalSpecFns;

use crate::distance::EarthLocation;
use crate::distance::compute_distance;
use crate::distance::spec_distance_m;
use crate::distance::valid_location;
use crate::error::SpeedTestError;
use crate::markup::Element;
use crate::markup::SpecElem;
use crate::markup::elem_view;
use crate::markup::elems_view;
use crate::markup::get_attr;
use crate::markup::scan_elements;
use crate::markup::spec_attr_value;
use crate::markup::spec_scan_elems;
use crate::speedtest::SpecServer;
use crate::speedtest::SpeedTestServer;
use crate::speedtest::server_view;
use crate::speedtest::servers_view;
use crate::speedtest_config::SpeedTestConfig;
use crate::textutil::bytes_to_string;
use crate::textutil::chars_of_bytes;
use crate::textutil::parse_micro_deg;
use crate::textutil::parse_u32;
use crate::textutil::spec_parse_micro;
use crate::textutil::spec_parse_u64;

verus! {

/// The parsed server directory.
pub struct SpeedTestServersConfig {
    pub servers: Vec<SpeedTestServer>,
}

/// What one `<server>` element yields: an entry exactly when the tag is
/// `server`, all eight attributes are present, the identifier is a 32-bit
/// numeral, and the coordinates are in range. The entry's distance is the
/// great-circle distance from `loc`.
pub open spec fn spec_server_of(e: SpecElem, loc: EarthLocation) -> Option<SpecServer> {
    if chars_of_bytes(e.name) != "server"@ {
        None
    } else {
        let lat = spec_attr_value(e.attrs, "lat"@);
        let lon = spec_attr_value(e.attrs, "lon"@);
        let id = spec_attr_value(e.attrs, "id"@);
        let country = spec_attr_value(e.attrs, "country"@);
        let host = spec_attr_value(e.attrs, "host"@);
        let name = spec_attr_value(e.attrs, "name"@);
        let sponsor = spec_attr_value(e.attrs, "sponsor"@);
        let url = spec_attr_value(e.attrs, "url"@);
        if lat is Some && lon is Some && id is Some && country is Some && host is Some
            && name is Some && sponsor is Some && url is Some {
            let lat_v = spec_parse_micro(lat.unwrap());
            let lon_v = spec_parse_micro(lon.unwrap());
            let id_v = spec_parse_u64(id.unwrap());
            if lat_v is Some && -90_000_000 <= lat_v.unwrap() <= 90_000_000 && lon_v is Some
                && -180_000_000 <= lon_v.unwrap() <= 180_000_000 && id_v is Some && id_v.unwrap()
                <= u32::MAX {
                let sloc = EarthLocation {
                    latitude: lat_v.unwrap() as i64,
                    longitude: lon_v.unwrap() as i64,
                };
                Some(
                    SpecServer {
                        country: chars_of_bytes(country.unwrap()),
                        host: chars_of_bytes(host.unwrap()),
                        id: id_v.unwrap() as u32,
                        location: sloc,
                        distance: Some(spec_distance_m(loc, sloc) as u64),
                        name: chars_of_bytes(name.unwrap()),
                        sponsor: chars_of_bytes(sponsor.unwrap()),
                        url: chars_of_bytes(url.unwrap()),
                    },
                )
            } else {
                None
            }
        } else {
            None
        }
    }
}

/// The entries a run of elements yields: well-formed `<server>` elements,
/// in document order, without those whose identifier is ignored.
pub open spec fn spec_servers_of(elems: Seq<SpecElem>, loc: EarthLocation, ignore: Seq<u32>) -> Seq<
    SpecServer,
>
    decreases elems.len(),
{
    if elems.len() == 0 {
        Seq::empty()
    } else {
        let rest = spec_servers_of(elems.skip(1), loc, ignore);
        match spec_server_of(elems[0], loc) {
            Some(s) => if ignore.contains(s.id) {
                rest
            } else {
                seq![s] + rest
            },
            None => rest,
        }
    }
}

/// No entry the parser yields bears an ignored identifier.
pub proof fn lemma_servers_exclude_ignored(elems: Seq<SpecElem>, loc: EarthLocation, ignore: Seq<
    u32,
>)
    ensures
        forall|k: int|
            0 <= k < spec_servers_of(elems, loc, ignore).len() ==> !ignore.contains(
                #[trigger] spec_servers_of(elems, loc, ignore)[k].id,
            ),
    decreases elems.len(),
{
    if elems.len() > 0 {
        lemma_servers_exclude_ignored(elems.skip(1), loc, ignore);
    }
}

/// Every entry the parser yields lies at a valid location, with a distance.
#[verifier::rlimit(100)]
pub proof fn lemma_servers_well_placed(elems: Seq<SpecElem>, loc: EarthLocation, ignore: Seq<u32>)
    ensures
        forall|k: int|
            0 <= k < spec_servers_of(elems, loc, ignore).len() ==> valid_location(
                #[trigger] spec_servers_of(elems, loc, ignore)[k].location,
            ) && spec_servers_of(elems, loc, ignore)[k].distance is Some,
    decreases elems.len(),
{
    if elems.len() > 0 {
        lemma_servers_well_placed(elems.skip(1), loc, ignore);
        let rest = spec_servers_of(elems.skip(1), loc, ignore);
        match spec_server_of(elems[0], loc) {
            Some(s) => {
                assert(valid_location(s.location) && s.distance is Some);
                if !ignore.contains(s.id) {
                    assert(spec_servers_of(elems, loc, ignore) =~= seq![s] + rest);
                }
            },
            None => {},
        }
    }
}

/// Whether the list holds the value.
fn contains_u32(v: &Vec<u32>, x: u32) -> (r: bool)
    ensures
        r == v@.contains(x),
{
    let mut i: usize = 0;
    while i < v.len()
        invariant
            i <= v@.len(),
            forall|j: int| 0 <= j < i ==> v@[j] != x,
        decreases v@.len() - i,
    {
        if v[i] == x {
            assert(v@.contains(x));
            return true;
        }
        i = i + 1;
    }
    assert(!v@.contains(x));
    false
}

/// Reads one `<server>` element into an entry, if it is well formed.
fn server_of(e: &Element, loc: EarthLocation) -> (r: Option<SpeedTestServer>)
    requires
        valid_location(loc),
    ensures
        match r {
            Some(s) => spec_server_of(elem_view(*e), loc) == Some(server_view(s)),
            None => spec_server_of(elem_view(*e), loc) is None,
        },
{
    if !crate::textutil::str_eq_bytes(e.name.as_slice(), "server") {
        return None;
    }
    let lat = match get_attr(e, "lat") {
        Some(v) => v,
        None => {
            return None;
        },
    };
    let lon = match get_attr(e, "lon") {
        Some(v) => v,
        None => {
            return None;
        },
    };
    let id = match get_attr(e, "id") {
        Some(v) => v,
        None => {
            return None;
        },
    };
    let country = match get_attr(e, "country") {
        Some(v) => v,
        None => {
            return None;
        },
    };
    let host = match get_attr(e, "host") {
        Some(v) => v,
        None => {
            return None;
        },
    };
    let name = match get_attr(e, "name") {
        Some(v) => v,
        None => {
            return None;
        },
    };
    let sponsor = match get_attr(e, "sponsor") {
        Some(v) => v,
        None => {
            return None;
        },
    };
    let url = match get_attr(e, "url") {
        Some(v) => v,
        None => {
            return None;
        },
    };
    let lat_v = match parse_micro_deg(lat.as_slice(), 90_000_000) {
        Some(v) => v,
        None => {
            return None;
        },
    };
    let lon_v = match parse_micro_deg(lon.as_slice(), 180_000_000) {
        Some(v) => v,
        None => {
            return None;
        },
    };
    let id_v = match parse_u32(id.as_slice()) {
        Some(v) => v,
        None => {
            return None;
        },
    };
    let sloc = EarthLocation { latitude: lat_v, longitude: lon_v };
    let d = compute_distance(&loc, &sloc);
    Some(
        SpeedTestServer {
            country: bytes_to_string(country.as_slice()),
            host: bytes_to_string(host.as_slice()),
            id: id_v,
            location: sloc,
            distance: Some(d),
            name: bytes_to_string(name.as_slice()),
            sponsor: bytes_to_string(sponsor.as_slice()),
            url: bytes_to_string(url.as_slice()),
        },
    )
}

/// The ranking key of an entry: its great-circle distance from `loc`.
pub open spec fn server_key(loc: EarthLocation, s: SpecServer) -> int {
    spec_distance_m(loc, s.location)
}

impl SpeedTestServersConfig {
    /// Every entry of the directory lies at a valid location.
    pub open spec fn wf(&self) -> bool {
        forall|k: int|
            0 <= k < self.servers@.len() ==> valid_location(
                #[trigger] servers_view(self.servers@)[k].location,
            )
    }

    /// Parses the server-list document against the configuration: every
    /// well-formed `<server>` element whose identifier is not ignored
    /// becomes an entry, annotated with its distance from the client.
    /// The parse itself always succeeds.
    #[verifier::loop_isolation(false)]
    pub fn parse_with_config(server_config_xml: &str, config: &SpeedTestConfig) -> (r: Result<
        SpeedTestServersConfig,
        SpeedTestError,
    >)
        requires
            valid_location(config.location),
        ensures
            r is Ok,
            servers_view(r.unwrap().servers@) == spec_servers_of(
                spec_scan_elems(server_config_xml.spec_bytes(), 0),
                config.location,
                config.ignore_servers@,
            ),
            r.unwrap().wf(),
    {
        let doc = server_config_xml.as_bytes();
        let elems = scan_elements(doc);
        let ghost all = elems_view(elems@);
        let mut out: Vec<SpeedTestServer> = Vec::new();
        let mut i: usize = 0;
        assert(servers_view(out@) =~= Seq::<SpecServer>::empty());
        assert(all.skip(0) =~= all);
        while i < elems.len()
            invariant
                i <= elems@.len(),
                spec_servers_of(all, config.location, config.ignore_servers@) == servers_view(out@)
                    + spec_servers_of(all.skip(i as int), config.location, config.ignore_servers@),
                forall|k: int|
                    0 <= k < out@.len() ==> valid_location(
                        #[trigger] servers_view(out@)[k].location,
                    ),
            decreases elems@.len() - i,
        {
            proof {
                assert(all.skip(i as int)[0] == elem_view(elems@[i as int]));
                assert(all.skip(i as int).skip(1) =~= all.skip(i + 1 as int));
            }
            let ghost before = servers_view(out@);
            match server_of(&elems[i], config.location) {
                Some(s) => {
                    if !contains_u32(&config.ignore_servers, s.id) {
                        let ghost sv = server_view(s);
                        out.push(s);
                        proof {
                            assert(servers_view(out@) =~= before + seq![sv]);
                            assert((before + seq![sv]) + spec_servers_of(
                                all.skip(i + 1 as int),
                                config.location,
                                config.ignore_servers@,
                            ) =~= before + (seq![sv] + spec_servers_of(
                                all.skip(i + 1 as int),
                                config.location,
                                config.ignore_servers@,
                            )));
                        }
                    }
                },
                None => {},
            }
            i = i + 1;
        }
        proof {
            assert(all.skip(i as int) =~= Seq::<SpecElem>::empty());
            assert(servers_view(out@) + Seq::<SpecServer>::empty() =~= servers_view(out@));
        }
        Ok(SpeedTestServersConfig { servers: out })
    }

    /// The directory's entries, in non-decreasing order of great-circle
    /// distance from the configured client location. The result holds the
    /// same entries as the directory, and entries at equal distance keep
    /// their input order.
    #[verifier::loop_isolation(false)]
    pub fn servers_sorted_by_distance(&self, config: &SpeedTestConfig) -> (r: Vec<SpeedTestServer>)
        requires
            valid_location(config.location),
            self.wf(),
        ensures
            servers_view(r@).to_multiset() == servers_view(self.servers@).to_multiset(),
            r@.len() == self.servers@.len(),
            forall|a: int, b: int|
                0 <= a < b < r@.len() ==> server_key(config.location, servers_view(r@)[a])
                    <= server_key(config.location, servers_view(r@)[b]),
            exists|m: Seq<int>|
                stable_ranking(
                    m,
                    servers_view(r@),
                    servers_view(self.servers@),
                    config.location,
                ),
    {
        broadcast use vstd::seq_lib::group_to_multiset_ensures;

        let loc = config.location;
        let ghost inview = servers_view(self.servers@);
        let mut working: Vec<SpeedTestServer> = Vec::new();
        let ghost mut widx: Seq<int> = Seq::empty();
        let mut i: usize = 0;
        while i < self.servers.len()
            invariant
                i <= self.servers@.len(),
                servers_view(working@) =~= servers_view(self.servers@).take(i as int),
                widx.len() == i,
                forall|k: int| 0 <= k < i ==> widx[k] == k,
            decreases self.servers@.len() - i,
        {
            let ghost before = servers_view(working@);
            let s = self.servers[i].duplicate();
            let ghost sv = server_view(s);
            working.push(s);
            proof {
                widx = widx.push(i as int);
                assert(servers_view(working@) =~= before + seq![sv]);
                assert(servers_view(self.servers@).take(i + 1 as int) =~= servers_view(
                    self.servers@,
                ).take(i as int) + seq![servers_view(self.servers@)[i as int]]);
            }
            i = i + 1;
        }
        proof {
            assert(servers_view(self.servers@).take(self.servers@.len() as int) =~= servers_view(
                self.servers@,
            ));
        }
        let mut out: Vec<SpeedTestServer> = Vec::new();
        let ghost mut oidx: Seq<int> = Seq::empty();
        proof {
            assert(servers_view(out@) =~= Seq::<SpecServer>::empty());
            assert(servers_view(out@).to_multiset().add(servers_view(working@).to_multiset())
                =~= servers_view(working@).to_multiset());
        }
        while working.len() > 0
            invariant
                servers_view(out@).to_multiset().add(servers_view(working@).to_multiset())
                    == servers_view(self.servers@).to_multiset(),
                out@.len() + working@.len() == self.servers@.len(),
                forall|k: int|
                    0 <= k < working@.len() ==> valid_location(
                        #[trigger] servers_view(working@)[k].location,
                    ),
                forall|a: int, b: int|
                    0 <= a < b < out@.len() ==> server_key(loc, servers_view(out@)[a])
                        <= server_key(loc, servers_view(out@)[b]),
                forall|a: int, w: int|
                    0 <= a < out@.len() && 0 <= w < working@.len() ==> server_key(
                        loc,
                        servers_view(out@)[a],
                    ) <= server_key(loc, servers_view(working@)[w]),
                widx.len() == working@.len(),
                oidx.len() == out@.len(),
                forall|k: int|
                    0 <= k < widx.len() ==> 0 <= #[trigger] widx[k] < inview.len()
                        && servers_view(working@)[k] == inview[widx[k]],
                forall|a: int, b: int| 0 <= a < b < widx.len() ==> widx[a] < widx[b],
                forall|k: int|
                    0 <= k < oidx.len() ==> 0 <= #[trigger] oidx[k] < inview.len()
                        && servers_view(out@)[k] == inview[oidx[k]],
                forall|a: int, b: int| 0 <= a < b < oidx.len() ==> oidx[a] != oidx[b],
                forall|a: int, w: int|
                    0 <= a < oidx.len() && 0 <= w < widx.len() ==> oidx[a] != widx[w],
                forall|a: int, b: int|
                    0 <= a < b < oidx.len() && server_key(loc, servers_view(out@)[a])
                        == server_key(loc, servers_view(out@)[b]) ==> oidx[a] < oidx[b],
                forall|a: int, w: int|
                    0 <= a < oidx.len() && 0 <= w < widx.len() && server_key(
                        loc,
                        servers_view(out@)[a],
                    ) == server_key(loc, servers_view(working@)[w]) ==> oidx[a] < widx[w],
            decreases working@.len(),
        {
            let mut best: usize = 0;
            proof {
                assert(servers_view(working@)[0].location == working@[0].location);
            }
            let mut bestk: u64 = compute_distance(&loc, &working[0].location);
            let mut j: usize = 1;
            while j < working.len()
                invariant
                    1 <= j <= working@.len(),
                    best < j,
                    bestk == server_key(loc, servers_view(working@)[best as int]),
                    forall|k: int|
                        0 <= k < j ==> bestk <= server_key(loc, servers_view(working@)[k]),
                    forall|k: int|
                        0 <= k < best ==> bestk < server_key(loc, servers_view(working@)[k]),
                decreases working@.len() - j,
            {
                proof {
                    assert(servers_view(working@)[j as int].location == working@[j as int].location);
                }
                let k = compute_distance(&loc, &working[j].location);
                if k < bestk {
                    best = j;
                    bestk = k;
                }
                j = j + 1;
            }
            let ghost wbefore = servers_view(working@);
            let ghost widx_before = widx;
            let ghost obefore = servers_view(out@);
            let ghost ib: int = widx[best as int];
            let s = working.remove(best);
            let ghost sv = server_view(s);
            out.push(s);
            proof {
                widx = widx_before.remove(best as int);
                oidx = oidx.push(ib);
                assert(servers_view(working@) =~= wbefore.remove(best as int));
                assert(servers_view(out@) =~= obefore.push(sv));
                assert(wbefore.remove(best as int).to_multiset() =~= wbefore.to_multiset().remove(
                    sv,
                ));
                assert(obefore.push(sv).to_multiset() =~= obefore.to_multiset().insert(sv));
                assert(wbefore.to_multiset().count(sv) > 0);
                assert(obefore.to_multiset().insert(sv).add(wbefore.to_multiset().remove(sv))
                    =~= obefore.to_multiset().add(wbefore.to_multiset()));
                // The removed slot's neighbours keep their indices aligned.
                assert(forall|k: int|
                    0 <= k < widx.len() ==> widx[k] == if k < best {
                        widx_before[k]
                    } else {
                        widx_before[k + 1]
                    });
                assert(forall|k: int|
                    0 <= k < servers_view(working@).len() ==> servers_view(working@)[k] == (
                    if k < best {
                        wbefore[k]
                    } else {
                        wbefore[k + 1]
                    }));
            }
        }
        proof {
            assert(servers_view(working@) =~= Seq::<SpecServer>::empty());
            assert(servers_view(out@).to_multiset().add(
                Seq::<SpecServer>::empty().to_multiset(),
            ) =~= servers_view(out@).to_multiset());
            assert(stable_ranking(oidx, servers_view(out@), inview, loc));
        }
        out
    }
}

/// The entries of `sorted` are exactly entries of `input`, witnessed by an
/// injective index map `m` that keeps input order among entries lying at
/// the same distance from `loc`.
pub open spec fn stable_ranking(
    m: Seq<int>,
    sorted: Seq<SpecServer>,
    input: Seq<SpecServer>,
    loc: EarthLocation,
) -> bool {
    &&& m.len() == sorted.len()
    &&& forall|k: int|
        0 <= k < m.len() ==> 0 <= #[trigger] m[k] < input.len() && sorted[k] == input[m[k]]
    &&& forall|a: int, b: int| 0 <= a < b < m.len() ==> m[a] != m[b]
    &&& forall|a: int, b: int|
        0 <= a < b < m.len() && server_key(loc, sorted[a]) == server_key(loc, sorted[b])
            ==> m[a] < m[b]
}

} // verus!
