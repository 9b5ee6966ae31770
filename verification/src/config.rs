//! The probe configuration, its validation, and the targets it names.

use vstd::prelude::*;
use crate::hex::{hex_decoding, hex_to_bytes};
use crate::ids::{first_index, last_index, resolve_last};
use crate::text::{find_char, same_chars};
use crate::text::{chars_of, clone_opt, opt_text, push_chars, str_eq, trim_bounds, trimmed};

verus! {

/// The least length of the shared secret, in bytes.
pub const MIN_SECRET_LEN: usize = 16;

/// A UDP endpoint of known location. Coordinates are in micro-degrees.
#[derive(Clone, Debug)]
pub struct Endpoint {
    pub id: String,
    pub host: String,
    pub port: u16,
    pub region_hint: Option<String>,
    pub lat: Option<i64>,
    pub lon: Option<i64>,
}

/// An endpoint as contracts speak of it.
pub struct EndpointView {
    pub id: Seq<char>,
    pub host: Seq<char>,
    pub port: u16,
    pub region_hint: Option<Seq<char>>,
    pub lat: Option<i64>,
    pub lon: Option<i64>,
}

impl View for Endpoint {
    type V = EndpointView;

    open spec fn view(&self) -> EndpointView {
        EndpointView {
            id: self.id@,
            host: self.host@,
            port: self.port,
            region_hint: opt_text(self.region_hint),
            lat: self.lat,
            lon: self.lon,
        }
    }
}

/// A named way of binding the local end of a probe.
#[derive(Clone, Debug)]
pub struct ProbePath {
    pub id: String,
    pub bind_interface: Option<String>,
    pub bind_ip: Option<String>,
}

/// A probe path as contracts speak of it.
pub struct ProbePathView {
    pub id: Seq<char>,
    pub bind_interface: Option<Seq<char>>,
    pub bind_ip: Option<Seq<char>>,
}

impl View for ProbePath {
    type V = ProbePathView;

    open spec fn view(&self) -> ProbePathView {
        ProbePathView {
            id: self.id@,
            bind_interface: opt_text(self.bind_interface),
            bind_ip: opt_text(self.bind_ip),
        }
    }
}

/// The probe configuration. The mismatch threshold is in nanoseconds.
#[derive(Clone, Debug)]
pub struct Config {
    pub secret_hex: String,
    pub endpoints: Vec<Endpoint>,
    pub probe_paths: Vec<ProbePath>,
    pub samples_per_endpoint: usize,
    pub spacing_ms: u64,
    pub timeout_ms: u64,
    pub interval_seconds: u64,
    pub pacing_spin_us: u64,
    pub output_path: String,
    pub claimed_egress_region: Option<String>,
    pub physics_mismatch_threshold_ns: i64,
}

/// One endpoint probed along one path.
#[derive(Clone, Debug)]
pub struct ProbeTarget {
    /// The endpoint, under the id that its records carry.
    pub endpoint: Endpoint,
    pub path_id: String,
    pub bind_iface: Option<String>,
    pub bind_ip: Option<String>,
}

/// A target as contracts speak of it.
pub struct ProbeTargetView {
    pub endpoint: EndpointView,
    pub path_id: Seq<char>,
    pub bind_iface: Option<Seq<char>>,
    pub bind_ip: Option<Seq<char>>,
}

impl View for ProbeTarget {
    type V = ProbeTargetView;

    open spec fn view(&self) -> ProbeTargetView {
        ProbeTargetView {
            endpoint: self.endpoint@,
            path_id: self.path_id@,
            bind_iface: opt_text(self.bind_iface),
            bind_ip: opt_text(self.bind_ip),
        }
    }
}

/// The spin budget of the pacing sleep when the configuration names none,
/// in microseconds.
pub fn default_pacing_spin_us() -> (us: u64)
    ensures
        us == 200,
{
    200
}

/// Whether a text is empty but for whitespace.
pub open spec fn blank(s: Seq<char>) -> bool {
    trimmed(s).len() == 0
}

fn is_blank(s: &str) -> (b: bool)
    ensures
        b == blank(s@),
{
    let chars = chars_of(s);
    let (start, end) = trim_bounds(chars.as_slice());
    start == end
}

/// What is wrong with a configuration, if anything: the first of no
/// endpoints, no samples per burst, no timeout or no interval, a probe path
/// without a name.
pub open spec fn config_fault(cfg: Config) -> Option<Seq<char>> {
    if cfg.endpoints@.len() == 0 {
        Some("endpoints must not be empty"@)
    } else if cfg.samples_per_endpoint == 0 {
        Some("samplesPerEndpoint must be > 0"@)
    } else if cfg.timeout_ms == 0 || cfg.interval_seconds == 0 {
        Some("timeoutMs and intervalSeconds must be > 0"@)
    } else if exists|i: int| 0 <= i < cfg.probe_paths@.len() && blank(#[trigger] cfg.probe_paths@[i].id@) {
        Some("probePaths entries must include a non-empty id"@)
    } else {
        None
    }
}

/// Checks a configuration before any probe is sent.
pub fn validate_config(cfg: &Config) -> (r: Result<(), String>)
    ensures
        match r {
            Ok(_) => config_fault(*cfg) is None,
            Err(msg) => config_fault(*cfg) == Some(msg@),
        },
{
    if cfg.endpoints.len() == 0 {
        return Err("endpoints must not be empty".to_owned());
    }
    if cfg.samples_per_endpoint == 0 {
        return Err("samplesPerEndpoint must be > 0".to_owned());
    }
    if cfg.timeout_ms == 0 || cfg.interval_seconds == 0 {
        return Err("timeoutMs and intervalSeconds must be > 0".to_owned());
    }
    let mut i: usize = 0;
    while i < cfg.probe_paths.len()
        invariant
            i <= cfg.probe_paths@.len(),
            cfg.endpoints@.len() != 0,
            cfg.samples_per_endpoint != 0,
            cfg.timeout_ms != 0,
            cfg.interval_seconds != 0,
            forall|j: int| 0 <= j < i ==> !blank(#[trigger] cfg.probe_paths@[j].id@),
        decreases cfg.probe_paths@.len() - i,
    {
        if is_blank(cfg.probe_paths[i].id.as_str()) {
            return Err("probePaths entries must include a non-empty id".to_owned());
        }
        i += 1;
    }
    Ok(())
}

/// The secret that a hexadecimal text spells: its decoding, refused where it
/// is shorter than 16 bytes.
pub open spec fn secret_of(hex: Seq<char>) -> Result<Seq<u8>, Seq<char>> {
    match hex_decoding(hex) {
        Ok(bytes) => if bytes.len() < MIN_SECRET_LEN {
            Err("secretHex must be at least 16 bytes"@)
        } else {
            Ok(bytes)
        },
        Err(msg) => Err(msg),
    }
}

/// Decodes the shared secret of a configuration.
pub fn decode_secret(secret_hex: &str) -> (r: Result<Vec<u8>, String>)
    ensures
        match r {
            Ok(bytes) => secret_of(secret_hex@) == Ok::<Seq<u8>, Seq<char>>(bytes@),
            Err(msg) => secret_of(secret_hex@) == Err::<Seq<u8>, Seq<char>>(msg@),
        },
{
    match hex_to_bytes(secret_hex) {
        Ok(bytes) => {
            if bytes.len() < MIN_SECRET_LEN {
                Err("secretHex must be at least 16 bytes".to_owned())
            } else {
                Ok(bytes)
            }
        },
        Err(msg) => Err(msg),
    }
}

/// The path that is probed when the configuration names none.
pub open spec fn default_path() -> ProbePathView {
    ProbePathView { id: "default"@, bind_interface: None, bind_ip: None }
}

/// The paths that a configuration asks for.
pub open spec fn effective_paths(cfg: Config) -> Seq<ProbePathView> {
    if cfg.probe_paths@.len() == 0 {
        seq![default_path()]
    } else {
        Seq::new(cfg.probe_paths@.len(), |i: int| cfg.probe_paths@[i]@)
    }
}

/// The id under which an endpoint is recorded along a path: its own on the
/// default path, else its own, `@`, and the path's.
pub open spec fn target_id(endpoint_id: Seq<char>, path_id: Seq<char>) -> Seq<char> {
    if path_id == "default"@ {
        endpoint_id
    } else {
        endpoint_id + seq!['@'] + path_id
    }
}

/// The target that probes `endpoint` along `path`.
pub open spec fn target_of(path: ProbePathView, endpoint: EndpointView) -> ProbeTargetView {
    ProbeTargetView {
        endpoint: EndpointView { id: target_id(endpoint.id, path.id), ..endpoint },
        path_id: path.id,
        bind_iface: path.bind_interface,
        bind_ip: path.bind_ip,
    }
}

/// Builds the id under which an endpoint is recorded along a path.
pub fn composite_id(endpoint_id: &str, path_id: &str) -> (id: String)
    ensures
        id@ == target_id(endpoint_id@, path_id@),
{
    if str_eq(path_id, "default") {
        return endpoint_id.to_owned();
    }
    let mut id: String = endpoint_id.to_owned();
    id.push('@');
    let p = chars_of(path_id);
    push_chars(&mut id, p.as_slice(), 0, p.len());
    assert(p@.subrange(0, p@.len() as int) =~= path_id@);
    assert(id@ =~= endpoint_id@ + seq!['@'] + path_id@);
    id
}

fn target_for(path: &ProbePath, endpoint: &Endpoint) -> (t: ProbeTarget)
    ensures
        t@ == target_of(path@, endpoint@),
{
    ProbeTarget {
        endpoint: Endpoint {
            id: composite_id(endpoint.id.as_str(), path.id.as_str()),
            host: endpoint.host.clone(),
            port: endpoint.port,
            region_hint: clone_opt(&endpoint.region_hint),
            lat: endpoint.lat,
            lon: endpoint.lon,
        },
        path_id: path.id.clone(),
        bind_iface: clone_opt(&path.bind_interface),
        bind_ip: clone_opt(&path.bind_ip),
    }
}

/// Appends the targets of one path, one for each endpoint.
fn push_targets(out: &mut Vec<ProbeTarget>, path: &ProbePath, endpoints: &Vec<Endpoint>)
    ensures
        final(out)@.len() == old(out)@.len() + endpoints@.len(),
        forall|k: int| 0 <= k < old(out)@.len() ==> final(out)@[k] == old(out)@[k],
        forall|e: int|
            0 <= e < endpoints@.len() ==> (#[trigger] final(out)@[old(out)@.len() + e])@
                == target_of(path@, endpoints@[e]@),
{
    let ghost base = out@.len();
    let mut e: usize = 0;
    while e < endpoints.len()
        invariant
            e <= endpoints@.len(),
            base == old(out)@.len(),
            out@.len() == base + e,
            forall|k: int| 0 <= k < base ==> out@[k] == old(out)@[k],
            forall|j: int|
                0 <= j < e ==> (#[trigger] out@[base + j])@ == target_of(path@, endpoints@[j]@),
        decreases endpoints@.len() - e,
    {
        out.push(target_for(path, &endpoints[e]));
        e += 1;
    }
}

/// The targets of a configuration: every endpoint along every path, path by
/// path, the endpoints in their order.
pub fn expand_probe_targets(cfg: &Config) -> (out: Vec<ProbeTarget>)
    ensures
        out@.len() == effective_paths(*cfg).len() * cfg.endpoints@.len(),
        forall|p: int, e: int|
            0 <= p < effective_paths(*cfg).len() && 0 <= e < cfg.endpoints@.len() ==> (
            #[trigger] out@[p * cfg.endpoints@.len() + e])@ == target_of(
                effective_paths(*cfg)[p],
                cfg.endpoints@[e]@,
            ),
{
    let mut out: Vec<ProbeTarget> = Vec::new();
    let ghost width = cfg.endpoints@.len() as int;
    if cfg.probe_paths.len() == 0 {
        let path = ProbePath { id: "default".to_owned(), bind_interface: None, bind_ip: None };
        push_targets(&mut out, &path, &cfg.endpoints);
        assert(1 * width == width) by (nonlinear_arith);
        assert forall|p: int, e: int|
            0 <= p < effective_paths(*cfg).len() && 0 <= e < width implies (#[trigger] out@[p
                * width + e])@ == target_of(effective_paths(*cfg)[p], cfg.endpoints@[e]@) by {
            assert(p * width == 0) by (nonlinear_arith)
                requires
                    p == 0,
            ;
        }
        return out;
    }
    let mut p: usize = 0;
    while p < cfg.probe_paths.len()
        invariant
            p <= cfg.probe_paths@.len(),
            cfg.probe_paths@.len() > 0,
            width == cfg.endpoints@.len(),
            out@.len() == p * width,
            forall|q: int, e: int|
                0 <= q < p && 0 <= e < width ==> (#[trigger] out@[q * width + e])@ == target_of(
                    cfg.probe_paths@[q]@,
                    cfg.endpoints@[e]@,
                ),
        decreases cfg.probe_paths@.len() - p,
    {
        let ghost before = out@;
        push_targets(&mut out, &cfg.probe_paths[p], &cfg.endpoints);
        proof {
            assert((p + 1) * width == p * width + width) by (nonlinear_arith);
            assert forall|q: int, e: int| 0 <= q < p + 1 && 0 <= e < width implies (
            #[trigger] out@[q * width + e])@ == target_of(
                cfg.probe_paths@[q]@,
                cfg.endpoints@[e]@,
            ) by {
                if q < p {
                    assert(q * width + e < p * width) by (nonlinear_arith)
                        requires
                            0 <= q < p,
                            0 <= e < width,
                    ;
                    assert(out@[q * width + e] == before[q * width + e]);
                } else {
                    assert(out@[before.len() + e]@ == target_of(
                        cfg.probe_paths@[p as int]@,
                        cfg.endpoints@[e]@,
                    ));
                }
            }
        }
        p += 1;
    }
    out
}

/// The ids of endpoints, one for each endpoint.
pub open spec fn endpoint_ids(endpoints: Seq<Endpoint>) -> Seq<Seq<char>> {
    Seq::new(endpoints.len(), |i: int| endpoints[i].id@)
}

/// An index as a mathematical integer.
pub open spec fn as_index(r: Option<usize>) -> Option<int> {
    match r {
        Some(k) => Some(k as int),
        None => None,
    }
}

/// Index of the first endpoint with the id `id`.
pub fn find_endpoint(endpoints: &[Endpoint], id: &[char]) -> (r: Option<usize>)
    ensures
        as_index(r) == first_index(endpoint_ids(endpoints@), id@),
        r is Some ==> r->0 < endpoints@.len(),
{
    let mut i: usize = 0;
    assert(endpoint_ids(endpoints@).take(0) =~= Seq::<Seq<char>>::empty());
    while i < endpoints.len()
        invariant
            i <= endpoints@.len(),
            first_index(endpoint_ids(endpoints@).take(i as int), id@) is None,
        decreases endpoints@.len() - i,
    {
        let ghost keys = endpoint_ids(endpoints@);
        proof {
            assert(keys.take(i + 1).drop_last() =~= keys.take(i as int));
            assert(keys.take(i + 1).last() == endpoints@[i as int].id@);
        }
        let chars = chars_of(endpoints[i].id.as_str());
        if same_chars(chars.as_slice(), id) {
            proof {
                lemma_found_stays(keys, id@, i as int, keys.len() as int);
                assert(keys.take(keys.len() as int) =~= keys);
            }
            return Some(i);
        }
        i += 1;
    }
    assert(endpoint_ids(endpoints@).take(endpoints@.len() as int) =~= endpoint_ids(endpoints@));
    None
}

proof fn lemma_found_stays(keys: Seq<Seq<char>>, key: Seq<char>, i: int, n: int)
    requires
        0 <= i < n <= keys.len(),
        first_index(keys.take(i + 1), key) == Some(i),
    ensures
        first_index(keys.take(n), key) == Some(i),
    decreases n,
{
    if n > i + 1 {
        lemma_found_stays(keys, key, i, n - 1);
        assert(keys.take(n).drop_last() =~= keys.take(n - 1));
    }
}

/// Index of the last endpoint with the id `id`.
pub fn find_last_endpoint(endpoints: &[Endpoint], id: &[char]) -> (r: Option<usize>)
    ensures
        as_index(r) == last_index(endpoint_ids(endpoints@), id@),
        r is Some ==> r->0 < endpoints@.len(),
{
    let mut found: Option<usize> = None;
    let mut i: usize = 0;
    assert(endpoint_ids(endpoints@).take(0) =~= Seq::<Seq<char>>::empty());
    while i < endpoints.len()
        invariant
            i <= endpoints@.len(),
            as_index(found) == last_index(endpoint_ids(endpoints@).take(i as int), id@),
            found is Some ==> found->0 < i,
        decreases endpoints@.len() - i,
    {
        let ghost keys = endpoint_ids(endpoints@);
        proof {
            assert(keys.take(i + 1).drop_last() =~= keys.take(i as int));
            assert(keys.take(i + 1).last() == endpoints@[i as int].id@);
        }
        let chars = chars_of(endpoints[i].id.as_str());
        if same_chars(chars.as_slice(), id) {
            found = Some(i);
        }
        i += 1;
    }
    assert(endpoint_ids(endpoints@).take(endpoints@.len() as int) =~= endpoint_ids(endpoints@));
    found
}

/// Index of the endpoint that a target id speaks of: the last endpoint of
/// that very id, else the last endpoint of its base id.
pub fn resolve_endpoint(endpoints: &[Endpoint], id: &str) -> (r: Option<usize>)
    ensures
        as_index(r) == resolve_last(endpoint_ids(endpoints@), id@),
        r is Some ==> r->0 < endpoints@.len(),
{
    let chars = chars_of(id);
    match find_last_endpoint(endpoints, chars.as_slice()) {
        Some(k) => Some(k),
        None => {
            let cut: usize = find_char(chars.as_slice(), '@');
            let mut base: Vec<char> = Vec::new();
            let mut i: usize = 0;
            while i < cut
                invariant
                    i <= cut <= chars@.len(),
                    base@ == chars@.take(i as int),
                decreases cut - i,
            {
                base.push(chars[i]);
                i += 1;
                assert(chars@.take(i as int) == chars@.take(i - 1).push(chars@[i - 1]));
            }
            find_last_endpoint(endpoints, base.as_slice())
        },
    }
}

} // verus!
