use lattice::calibration::{
    adjust_by, adjust_rtt_ns, build_calibration, build_calibration_at, calibration_entry,
    reference_rtt_ns, Calibration, CalibrationEntry, EndpointCalibration,
};
use lattice::config::{Config, Endpoint};
use lattice::estimate::{estimate_location, Estimate, SolverParams, SolverStep};
use lattice::grid::GridPoint;
use lattice::report::{claim_checks, deltas, endpoint_reports};
use lattice::stats::{EndpointStats, StatsEntry};
use lattice::units::{signed_units, unsigned_units};

const DEFAULT_SPEED_KM_S: f64 = 200_000.0;
const DEFAULT_PATH_STRETCH: f64 = 1.0;
const DEFAULT_BAND_FACTOR: f64 = 0.10;
const DEFAULT_BAND_WINDOW_DEG: f64 = 2.0;
const MIN_JITTER_MS: f64 = 1.0;
const MS_PER_SEC: f64 = 1000.0;
const RTT_FACTOR: f64 = 2.0;
const EARTH_RADIUS_KM: f64 = 6371.0;

const TEST_GRID_DEG: f64 = 5.0;
const TEST_REFINE_DEG: f64 = 1.0;
const TEST_BIAS_MS: f64 = 1000.0;
const TEST_PATH_STRETCH: f64 = 1.0;
const TEST_EPSILON: f64 = 1e-6;
const TEST_SCALE: f64 = 2.0;
const TEST_EXPECTED_ADJ_MS: f64 = 2.0;

fn ns(ms: f64) -> u64 {
    unsigned_units(ms.to_bits(), 1_000_000).unwrap()
}

fn ms(ns: u64) -> f64 {
    ns as f64 / 1e6
}

fn micro(deg: f64) -> i64 {
    signed_units(deg.to_bits(), 1_000_000).unwrap()
}

fn ppm(ratio: f64) -> u64 {
    unsigned_units(ratio.to_bits(), 1_000_000).unwrap()
}

fn m_s(km_s: f64) -> u64 {
    unsigned_units(km_s.to_bits(), 1000).unwrap()
}

fn haversine_km(lat1: f64, lon1: f64, lat2: f64, lon2: f64) -> f64 {
    let dlat = (lat2 - lat1).to_radians();
    let dlon = (lon2 - lon1).to_radians();
    let a = (dlat / 2.0).sin().powi(2)
        + lat1.to_radians().cos() * lat2.to_radians().cos() * (dlon / 2.0).sin().powi(2);
    EARTH_RADIUS_KM * 2.0 * a.sqrt().asin()
}

fn distance_m(a: GridPoint, b: GridPoint) -> u32 {
    let km = haversine_km(a.lat as f64 / 1e6, a.lon as f64 / 1e6, b.lat as f64 / 1e6, b.lon as f64 / 1e6);
    (km * 1000.0).round() as u32
}

fn sample_config(endpoints: Vec<Endpoint>) -> Config {
    Config {
        secret_hex: "00".to_string(),
        endpoints,
        probe_paths: Vec::new(),
        samples_per_endpoint: 10,
        spacing_ms: 10,
        timeout_ms: 1000,
        interval_seconds: 10,
        pacing_spin_us: 0,
        output_path: "out.jsonl".to_string(),
        claimed_egress_region: None,
        physics_mismatch_threshold_ns: ns(50.0) as i64,
    }
}

fn endpoint(id: &str, lat: f64, lon: f64) -> Endpoint {
    Endpoint {
        id: id.to_string(),
        host: "127.0.0.1".to_string(),
        port: 9000,
        region_hint: None,
        lat: Some(micro(lat)),
        lon: Some(micro(lon)),
    }
}

fn stats_entry(id: &str, p05: f64, jitter: f64) -> StatsEntry {
    StatsEntry {
        id: id.to_string(),
        stats: EndpointStats {
            count: 10,
            min: Some(ns(p05)),
            p05: Some(ns(p05)),
            p50: Some(ns(p05)),
            p95: Some(ns(p05)),
            jitter_ns: Some(ns(jitter)),
        },
    }
}

fn stats_with_p05(id: &str, p05: f64) -> Vec<StatsEntry> {
    vec![stats_entry(id, p05, 0.0)]
}

fn calibration(entries: Vec<(&str, f64, f64)>) -> Calibration {
    Calibration {
        generated_at: "0".to_string(),
        calibration_lat: micro(0.0),
        calibration_lon: micro(0.0),
        speed_m_s: m_s(DEFAULT_SPEED_KM_S),
        path_stretch_ppm: ppm(DEFAULT_PATH_STRETCH),
        endpoints: entries
            .into_iter()
            .map(|(id, bias_ms, scale)| CalibrationEntry {
                id: id.to_string(),
                cal: EndpointCalibration {
                    bias_ns: signed_units(bias_ms.to_bits(), 1_000_000).unwrap(),
                    scale_ppm: signed_units(scale.to_bits(), 1_000_000).unwrap(),
                },
            })
            .collect(),
    }
}

fn params(grid: f64, refine: f64) -> SolverParams {
    SolverParams {
        speed_m_s: m_s(DEFAULT_SPEED_KM_S),
        grid_step: micro(grid),
        refine_step: micro(refine),
        band_factor_ppm: ppm(DEFAULT_BAND_FACTOR),
        band_window: micro(DEFAULT_BAND_WINDOW_DEG),
    }
}

fn solve(
    stats: &[StatsEntry],
    endpoints: &[Endpoint],
    params: SolverParams,
    cal: Option<&Calibration>,
) -> Option<Estimate> {
    let (mut solver, mut step) = estimate_location(stats, endpoints, params, cal);
    loop {
        match step {
            SolverStep::Done(estimate) => return estimate,
            SolverStep::Measure { grid, center } => {
                let n = grid.len().unwrap();
                let mut table = Vec::with_capacity(n);
                let mut center_dist = Vec::new();
                for k in 0..n {
                    let p = grid.point(k).unwrap();
                    let row: Vec<u32> = solver
                        .obs
                        .iter()
                        .map(|o| distance_m(p, GridPoint { lat: o.lat, lon: o.lon }))
                        .collect();
                    table.push(row);
                    if let Some(c) = center {
                        center_dist.push(distance_m(p, c));
                    }
                }
                step = solver.advance(&table, &center_dist);
            }
        }
    }
}

#[test]
fn calibration_entry_resolves_base_id() {
    let cal = calibration(vec![("nyc", 5.0, 1.0)]);
    let entry = calibration_entry(Some(&cal), "nyc@vpn");
    assert!(entry.is_some());
    assert_eq!(ms(entry.unwrap().bias_ns as u64), 5.0);
}

#[test]
fn adjust_rtt_applies_bias_and_scale() {
    let cal = calibration(vec![("a", 5.0, TEST_SCALE)]);
    let adj = ms(adjust_rtt_ns(ns(9.0), "a", Some(&cal)));
    assert!((adj - TEST_EXPECTED_ADJ_MS).abs() < TEST_EPSILON);
    let adj2 = ms(adjust_rtt_ns(ns(3.0), "a", Some(&cal)));
    assert_eq!(adj2, 0.0);
}

#[test]
fn build_calibration_uses_known_location() {
    let cfg = sample_config(vec![endpoint("a", 0.0, 0.0)]);
    let stats = stats_with_p05("a", 12.5);
    let origin = GridPoint { lat: micro(0.0), lon: micro(0.0) };
    let dist: Vec<u32> = cfg
        .endpoints
        .iter()
        .map(|e| distance_m(origin, GridPoint { lat: e.lat.unwrap(), lon: e.lon.unwrap() }))
        .collect();
    let cal = build_calibration(
        &cfg,
        &stats,
        micro(0.0),
        micro(0.0),
        m_s(DEFAULT_SPEED_KM_S),
        ppm(TEST_PATH_STRETCH),
        &dist,
    );
    let entry = cal.endpoints.iter().find(|e| e.id == "a").unwrap();
    assert!((ms(entry.cal.bias_ns as u64) - 12.5).abs() < TEST_EPSILON);
    assert_eq!(entry.cal.scale_ppm as f64 / 1e6, 1.0);
}

#[test]
fn claim_checks_resolve_base_endpoint() {
    let stats = vec![stats_entry("a@vpn", 10.0, 0.0)];
    let endpoints = vec![endpoint("a", 0.0, 0.0)];
    let cal = calibration(vec![("a", 5.0, 1.0)]);
    let claim = GridPoint { lat: micro(0.0), lon: micro(0.0) };
    let dist: Vec<u32> = endpoints
        .iter()
        .map(|e| distance_m(claim, GridPoint { lat: e.lat.unwrap(), lon: e.lon.unwrap() }))
        .collect();
    let checks = claim_checks(&stats, &endpoints, &dist, m_s(DEFAULT_SPEED_KM_S), Some(&cal));
    assert_eq!(checks.len(), 1);
    assert_eq!(checks[0].id, "a@vpn");
    let expected = (DEFAULT_SPEED_KM_S / MS_PER_SEC) * (5.0 / RTT_FACTOR);
    assert!((checks[0].max_tight_m.unwrap() as f64 / 1000.0 - expected).abs() < TEST_EPSILON);
}

#[test]
fn estimate_location_respects_calibration() {
    let stats = vec![
        stats_entry("a", 10.0, MIN_JITTER_MS),
        stats_entry("b", 10.0, MIN_JITTER_MS),
        stats_entry("c", 10.0, MIN_JITTER_MS),
    ];
    let endpoints =
        vec![endpoint("a", 0.0, 0.0), endpoint("b", 0.0, 1.0), endpoint("c", 1.0, 0.0)];
    let est = solve(&stats, &endpoints, params(TEST_GRID_DEG, TEST_REFINE_DEG), None);
    assert!(est.is_some());

    let cal = calibration(vec![
        ("a", TEST_BIAS_MS, 1.0),
        ("b", TEST_BIAS_MS, 1.0),
        ("c", TEST_BIAS_MS, 1.0),
    ]);
    let est2 = solve(&stats, &endpoints, params(TEST_GRID_DEG, TEST_REFINE_DEG), Some(&cal));
    assert!(est2.is_none());
}

#[test]
fn estimate_lies_near_the_endpoints() {
    let stats = vec![
        stats_entry("a", 10.0, MIN_JITTER_MS),
        stats_entry("b", 10.0, MIN_JITTER_MS),
        stats_entry("c", 10.0, MIN_JITTER_MS),
    ];
    let endpoints =
        vec![endpoint("a", 0.0, 0.0), endpoint("b", 0.0, 1.0), endpoint("c", 1.0, 0.0)];
    let est = solve(&stats, &endpoints, params(TEST_GRID_DEG, TEST_REFINE_DEG), None).unwrap();
    println!("{:?}", est);
    assert_eq!(est.points, 3);
    assert!(est.lat.abs() <= micro(10.0) && est.lon.abs() <= micro(10.0));
    // At most the round trip to the nearest endpoint is unexplained.
    assert!(est.bias_ns <= ns(10.0));
    let band = est.band.unwrap();
    assert!(band.points >= 1);
    assert!(band.min_lat <= est.lat && est.lat <= band.max_lat);
    assert!(band.min_lon <= est.lon && est.lon <= band.max_lon);
    assert!(band.sse_threshold >= est.sse);
}

#[test]
fn fewer_than_three_observations_give_no_estimate() {
    let stats = vec![stats_entry("a", 10.0, 1.0), stats_entry("b", 10.0, 1.0)];
    let endpoints = vec![endpoint("a", 0.0, 0.0), endpoint("b", 0.0, 1.0)];
    let (_, step) = estimate_location(&stats, &endpoints, params(5.0, 1.0), None);
    assert_eq!(step, SolverStep::Done(None));
    // A third target without coordinates does not count.
    let mut stats3 = stats.clone();
    stats3.push(stats_entry("c", 10.0, 1.0));
    let mut eps3 = endpoints.clone();
    let mut c = endpoint("c", 1.0, 0.0);
    c.lon = None;
    eps3.push(c);
    let (_, step) = estimate_location(&stats3, &eps3, params(5.0, 1.0), None);
    assert_eq!(step, SolverStep::Done(None));
    // Nor does one without a round-trip time.
    eps3[2].lon = Some(0);
    stats3[2].stats.p05 = None;
    stats3[2].stats.min = Some(0);
    let (_, step) = estimate_location(&stats3, &eps3, params(5.0, 1.0), None);
    assert_eq!(step, SolverStep::Done(None));
    stats3[2].stats.min = Some(1);
    let (solver, step) = estimate_location(&stats3, &eps3, params(5.0, 1.0), None);
    assert!(matches!(step, SolverStep::Measure { center: None, .. }));
    assert_eq!(solver.obs.len(), 3);
    assert_eq!(solver.obs[2].rtt_ns, 1);
    assert_eq!(solver.obs[2].jitter_ns, ns(1.0));
}

#[test]
fn non_positive_grid_step_gives_no_estimate() {
    let stats = vec![
        stats_entry("a", 10.0, 1.0),
        stats_entry("b", 10.0, 1.0),
        stats_entry("c", 10.0, 1.0),
    ];
    let endpoints =
        vec![endpoint("a", 0.0, 0.0), endpoint("b", 0.0, 1.0), endpoint("c", 1.0, 0.0)];
    assert_eq!(solve(&stats, &endpoints, params(0.0, 1.0), None), None);
    assert_eq!(solve(&stats, &endpoints, params(-5.0, 1.0), None), None);
    assert_eq!(solve(&stats, &endpoints, params(30.0, 0.0), None), None);
}

#[test]
fn lookup_prefers_the_composite_entry() {
    let cal = calibration(vec![("nyc", 5.0, 1.0), ("nyc@vpn", 7.0, 1.0)]);
    assert_eq!(calibration_entry(Some(&cal), "nyc@vpn").unwrap().bias_ns, 7_000_000);
    assert_eq!(calibration_entry(Some(&cal), "nyc@lte").unwrap().bias_ns, 5_000_000);
    assert_eq!(calibration_entry(Some(&cal), "nyc").unwrap().bias_ns, 5_000_000);
    assert_eq!(calibration_entry(Some(&cal), "lax@vpn"), None);
    assert_eq!(calibration_entry(Some(&cal), "ny"), None);
    assert_eq!(calibration_entry(None, "nyc"), None);
}

#[test]
fn composite_id_lookup_applies_the_base_entry() {
    let cal = calibration(vec![("nyc", 5.0, 1.0)]);
    assert_eq!(adjust_rtt_ns(ns(9.0), "nyc@vpn", Some(&cal)), ns(4.0));
    assert_eq!(adjust_rtt_ns(ns(3.0), "nyc@vpn", Some(&cal)), 0);
    assert_eq!(adjust_rtt_ns(ns(9.0), "lax", Some(&cal)), ns(9.0));
    assert_eq!(adjust_rtt_ns(ns(9.0), "nyc", None), ns(9.0));
}

#[test]
fn adjustment_clamps_and_inverts() {
    let c = EndpointCalibration { bias_ns: 5_000_000, scale_ppm: 2_000_000 };
    assert_eq!(adjust_by(5_000_000, Some(c)), 0);
    assert_eq!(adjust_by(0, Some(c)), 0);
    // 2 * r + bias comes back as r.
    for r in [0u64, 1, 17, 3_000_000, 999_999_999] {
        assert_eq!(adjust_by(2 * r + 5_000_000, Some(c)), r);
    }
    // A scale that is not positive counts as 1.
    let zero = EndpointCalibration { bias_ns: 1, scale_ppm: 0 };
    let negative = EndpointCalibration { bias_ns: 1, scale_ppm: -3_000_000 };
    assert_eq!(adjust_by(10, Some(zero)), 9);
    assert_eq!(adjust_by(10, Some(negative)), 9);
    // A negative bias adds.
    let ahead = EndpointCalibration { bias_ns: -4, scale_ppm: 1_000_000 };
    assert_eq!(adjust_by(10, Some(ahead)), 14);
    assert_eq!(adjust_by(u64::MAX, Some(ahead)), u64::MAX);
    let tiny = EndpointCalibration { bias_ns: 0, scale_ppm: 1 };
    assert_eq!(adjust_by(3, Some(tiny)), 3_000_000);
    assert_eq!(adjust_by(u64::MAX, Some(tiny)), u64::MAX);
    // Parts of a nanosecond are dropped.
    let third = EndpointCalibration { bias_ns: 0, scale_ppm: 3_000_000 };
    assert_eq!(adjust_by(10, Some(third)), 3);
    assert_eq!(adjust_by(10, None), 10);
}

#[test]
fn reference_time_is_p05_else_min() {
    let mut st = stats_entry("a", 10.0, 0.0).stats;
    st.min = Some(3);
    assert_eq!(reference_rtt_ns(&st), Some(ns(10.0)));
    st.p05 = None;
    assert_eq!(reference_rtt_ns(&st), Some(3));
    st.min = Some(0);
    assert_eq!(reference_rtt_ns(&st), None);
    st.min = None;
    assert_eq!(reference_rtt_ns(&st), None);
    st.p05 = Some(0);
    st.min = Some(5);
    assert_eq!(reference_rtt_ns(&st), None);
}

#[test]
fn calibration_takes_off_the_expected_round_trip() {
    let mut far = endpoint("far", 0.0, 9.0);
    far.id = "far".to_string();
    let mut blind = endpoint("blind", 0.0, 0.0);
    blind.lat = None;
    let cfg = sample_config(vec![endpoint("a", 0.0, 0.0), far, blind]);
    let mut silent = stats_entry("a@lte", 1.0, 0.0);
    silent.stats.p05 = None;
    silent.stats.min = None;
    let stats = vec![
        stats_entry("far@vpn", 12.0, 0.0),
        stats_entry("a", 12.5, 0.0),
        stats_entry("blind", 5.0, 0.0),
        stats_entry("gone", 5.0, 0.0),
        silent,
        stats_entry("far", 5.0, 0.0),
    ];
    // 1000 km to `far`: 10 ms there and back at 200 000 km/s, 20 ms at half
    // the speed.
    let dist = vec![0u32, 1_000_000, 0];
    let cal = build_calibration_at(
        &cfg,
        &stats,
        micro(1.5),
        micro(-2.5),
        m_s(DEFAULT_SPEED_KM_S),
        ppm(0.5),
        &dist,
        1_700_000_000_123,
    );
    assert_eq!(cal.generated_at, "1700000000123");
    assert_eq!(cal.calibration_lat, 1_500_000);
    assert_eq!(cal.calibration_lon, -2_500_000);
    assert_eq!(cal.speed_m_s, 200_000_000);
    assert_eq!(cal.path_stretch_ppm, 500_000);
    let got: Vec<(&str, i64, i64)> =
        cal.endpoints.iter().map(|e| (e.id.as_str(), e.cal.bias_ns, e.cal.scale_ppm)).collect();
    assert_eq!(
        got,
        vec![
            ("far@vpn", 2_000_000, 1_000_000),
            ("a", 12_500_000, 1_000_000),
            ("far", 0, 1_000_000),
        ]
    );
    let stretched = build_calibration_at(&cfg, &stats, 0, 0, 200_000_000, 2_000_000, &dist, -5);
    assert_eq!(stretched.generated_at, "-5");
    assert_eq!(stretched.endpoints[0].cal.bias_ns, 0);
    let short = build_calibration_at(&cfg, &stats, 0, 0, 200_000_000, 1_000_000, &[0], 0);
    let ids: Vec<&str> = short.endpoints.iter().map(|e| e.id.as_str()).collect();
    assert_eq!(ids, vec!["a"]);
    let now = build_calibration(&cfg, &stats, 0, 0, 200_000_000, 1_000_000, &dist);
    let stamp: i64 = now.generated_at.parse().unwrap();
    assert!(stamp > 1_577_836_800_000);
}

#[test]
fn reports_are_listed_by_id() {
    let stats = vec![
        stats_entry("nyc@vpn", 10.0, 1.0),
        stats_entry("ams", 30.0, 2.0),
        stats_entry("nyc", 8.0, 0.5),
        stats_entry("Zrh", 1.0, 0.0),
    ];
    let mut nyc = endpoint("nyc", 40.0, -74.0);
    nyc.host = "nyc.example.org".to_string();
    let eps = vec![nyc];
    let cal = calibration(vec![("nyc", 5.0, 1.0)]);
    let rows = endpoint_reports(&stats, &eps, m_s(DEFAULT_SPEED_KM_S), Some(&cal));
    let ids: Vec<&str> = rows.iter().map(|r| r.id.as_str()).collect();
    assert_eq!(ids, vec!["Zrh", "ams", "nyc", "nyc@vpn"]);
    assert_eq!(rows[0].host, "?");
    assert_eq!(rows[1].host, "?");
    assert_eq!(rows[2].host, "nyc.example.org");
    assert_eq!(rows[3].host, "nyc.example.org");
    assert_eq!(rows[3].count, 10);
    assert_eq!(rows[3].p05_ns, Some(ns(10.0)));
    assert_eq!(rows[3].p95_ns, Some(ns(10.0)));
    assert_eq!(rows[3].jitter_ns, Some(ns(1.0)));
    assert_eq!(rows[3].p05_adj_ns, Some(ns(5.0)));
    assert_eq!(rows[3].p50_adj_ns, Some(ns(5.0)));
    assert_eq!(rows[3].max_dist_m_tight, Some(500_000));
    assert_eq!(rows[3].max_dist_m_loose, Some(500_000));
    assert_eq!(rows[1].p05_adj_ns, Some(ns(30.0)));
    assert_eq!(rows[1].max_dist_m_tight, Some(3_000_000));
    assert_eq!(rows[0].max_dist_m_tight, Some(100_000));
}

#[test]
fn claim_is_refuted_beyond_the_bound() {
    let mut entry = stats_entry("a", 10.0, 0.0);
    entry.stats.p50 = Some(ns(20.0));
    let mut silent = stats_entry("c", 10.0, 0.0);
    silent.stats.p05 = None;
    silent.stats.min = None;
    silent.stats.p50 = None;
    let mut by_min = stats_entry("d", 10.0, 0.0);
    by_min.stats.p05 = None;
    let stats = vec![
        entry,
        stats_entry("nowhere", 10.0, 0.0),
        stats_entry("b", 0.0, 0.0),
        silent,
        by_min,
    ];
    let mut unplaced = endpoint("nowhere", 0.0, 0.0);
    unplaced.lon = None;
    let eps = vec![
        endpoint("a", 0.0, 0.0),
        unplaced,
        endpoint("b", 0.0, 0.0),
        endpoint("c", 0.0, 0.0),
        endpoint("d", 0.0, 0.0),
    ];
    // 10 ms allow 1000 km, 20 ms allow 2000 km. The targets without
    // coordinates or without a reference round-trip time have no row.
    let rows = claim_checks(&stats, &eps, &[1_500_000, 5, 9, 9, 7], 200_000_000, None);
    let ids: Vec<&str> = rows.iter().map(|r| r.id.as_str()).collect();
    assert_eq!(ids, vec!["a", "d"]);
    assert_eq!(rows[0].dist_m, 1_500_000);
    assert_eq!(rows[0].max_tight_m, Some(1_000_000));
    assert_eq!(rows[0].max_loose_m, Some(2_000_000));
    assert_eq!(rows[0].falsify_tight, Some(true));
    assert_eq!(rows[0].falsify_loose, Some(false));
    assert_eq!(rows[1].dist_m, 7);
    assert_eq!(rows[1].max_tight_m, None);
    assert_eq!(rows[1].falsify_tight, None);
    assert_eq!(rows[1].max_loose_m, Some(1_000_000));
    assert_eq!(rows[1].falsify_loose, Some(false));
    let at = claim_checks(&stats, &eps, &[1_000_000, 5, 9, 9, 7], 200_000_000, None);
    assert_eq!(at[0].falsify_tight, Some(false));
}

#[test]
fn physics_falsifies_a_distant_claim() {
    // The claimed place is 8000 km from the endpoint; 20 ms allow 2000 km.
    let stats = vec![stats_entry("us-east", 20.0, 0.0)];
    let eps = vec![endpoint("us-east", 39.0, -77.0)];
    let rows = claim_checks(&stats, &eps, &[8_000_000], 200_000_000, None);
    assert_eq!(rows[0].max_tight_m, Some(2_000_000));
    assert_eq!(rows[0].falsify_tight, Some(true));
    assert_eq!(rows[0].falsify_loose, Some(true));
}

#[test]
fn deltas_against_a_baseline() {
    let base = vec![stats_entry("b", 10.0, 0.0), stats_entry("a", 12.0, 0.0), stats_entry("c", 1.0, 0.0)];
    let mut lost = stats_entry("c", 5.0, 0.0);
    lost.stats.p05 = None;
    let session = vec![stats_entry("a", 9.5, 0.0), lost, stats_entry("b", 40.0, 0.0), stats_entry("d", 1.0, 0.0)];
    let rows = deltas(&base, &session);
    assert_eq!(rows.len(), 2);
    assert_eq!(rows[0].id, "a");
    assert_eq!(rows[0].delta_p05_ns, -2_500_000);
    assert_eq!(rows[0].baseline_p05_ns, 12_000_000);
    assert_eq!(rows[0].session_p05_ns, 9_500_000);
    assert_eq!(rows[1].id, "b");
    assert_eq!(rows[1].delta_p05_ns, 30_000_000);
    assert!(deltas(&base, &[]).is_empty());
    assert!(deltas(&[], &session).is_empty());
}
