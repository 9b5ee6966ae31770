use lattice::config::{
    composite_id, default_pacing_spin_us, expand_probe_targets, find_endpoint,
    find_last_endpoint, resolve_endpoint, validate_config, Config, Endpoint, ProbePath,
};
use lattice::ids::base_id_of;

fn endpoint(id: &str, host: &str) -> Endpoint {
    Endpoint {
        id: id.to_string(),
        host: host.to_string(),
        port: 9000,
        region_hint: Some("eu".to_string()),
        lat: Some(1_000_000),
        lon: None,
    }
}

fn path(id: &str) -> ProbePath {
    ProbePath { id: id.to_string(), bind_interface: Some("wg0".to_string()), bind_ip: None }
}

fn config(endpoints: Vec<Endpoint>, probe_paths: Vec<ProbePath>) -> Config {
    Config {
        secret_hex: "00".to_string(),
        endpoints,
        probe_paths,
        samples_per_endpoint: 10,
        spacing_ms: 10,
        timeout_ms: 1000,
        interval_seconds: 10,
        pacing_spin_us: default_pacing_spin_us(),
        output_path: "out.jsonl".to_string(),
        claimed_egress_region: None,
        physics_mismatch_threshold_ns: 50_000_000,
    }
}

#[test]
fn default_spin_budget() {
    assert_eq!(default_pacing_spin_us(), 200);
}

#[test]
fn valid_config_passes() {
    assert_eq!(validate_config(&config(vec![endpoint("a", "h")], vec![])), Ok(()));
    assert_eq!(validate_config(&config(vec![endpoint("a", "h")], vec![path("vpn")])), Ok(()));
}

#[test]
fn config_faults_in_order() {
    let mut cfg = config(vec![], vec![path(" ")]);
    cfg.samples_per_endpoint = 0;
    cfg.timeout_ms = 0;
    assert_eq!(validate_config(&cfg).unwrap_err(), "endpoints must not be empty");
    cfg.endpoints.push(endpoint("a", "h"));
    assert_eq!(validate_config(&cfg).unwrap_err(), "samplesPerEndpoint must be > 0");
    cfg.samples_per_endpoint = 1;
    assert_eq!(validate_config(&cfg).unwrap_err(), "timeoutMs and intervalSeconds must be > 0");
    cfg.timeout_ms = 1;
    cfg.interval_seconds = 0;
    assert_eq!(validate_config(&cfg).unwrap_err(), "timeoutMs and intervalSeconds must be > 0");
    cfg.interval_seconds = 1;
    assert_eq!(
        validate_config(&cfg).unwrap_err(),
        "probePaths entries must include a non-empty id"
    );
    cfg.probe_paths = vec![path("ok"), path("")];
    assert_eq!(
        validate_config(&cfg).unwrap_err(),
        "probePaths entries must include a non-empty id"
    );
    cfg.probe_paths = vec![path("ok")];
    assert_eq!(validate_config(&cfg), Ok(()));
}

#[test]
fn composite_ids() {
    assert_eq!(composite_id("nyc", "default"), "nyc");
    assert_eq!(composite_id("nyc", "vpn"), "nyc@vpn");
    assert_eq!(composite_id("nyc", "Default"), "nyc@Default");
    assert_eq!(composite_id("", "x"), "@x");
    assert_eq!(base_id_of("nyc@vpn"), "nyc");
    assert_eq!(base_id_of("nyc"), "nyc");
    assert_eq!(base_id_of("a@b@c"), "a");
    assert_eq!(base_id_of("@b"), "");
    assert_eq!(base_id_of(""), "");
}

#[test]
fn targets_without_paths_use_the_default_path() {
    let cfg = config(vec![endpoint("a", "ha"), endpoint("b", "hb")], vec![]);
    let targets = expand_probe_targets(&cfg);
    assert_eq!(targets.len(), 2);
    assert_eq!(targets[0].endpoint.id, "a");
    assert_eq!(targets[0].path_id, "default");
    assert_eq!(targets[0].bind_iface, None);
    assert_eq!(targets[0].bind_ip, None);
    assert_eq!(targets[1].endpoint.id, "b");
    assert_eq!(targets[1].endpoint.host, "hb");
}

#[test]
fn targets_cover_every_endpoint_along_every_path() {
    let mut direct = path("default");
    direct.bind_interface = None;
    let mut vpn = path("vpn");
    vpn.bind_ip = Some("10.8.0.2".to_string());
    let cfg = config(vec![endpoint("a", "ha"), endpoint("b", "hb")], vec![direct, vpn]);
    let targets = expand_probe_targets(&cfg);
    let ids: Vec<&str> = targets.iter().map(|t| t.endpoint.id.as_str()).collect();
    assert_eq!(ids, vec!["a", "b", "a@vpn", "b@vpn"]);
    assert_eq!(targets[2].path_id, "vpn");
    assert_eq!(targets[2].bind_iface, Some("wg0".to_string()));
    assert_eq!(targets[2].bind_ip, Some("10.8.0.2".to_string()));
    assert_eq!(targets[3].endpoint.host, "hb");
    assert_eq!(targets[3].endpoint.port, 9000);
    assert_eq!(targets[3].endpoint.region_hint, Some("eu".to_string()));
    assert_eq!(targets[3].endpoint.lat, Some(1_000_000));
    assert_eq!(targets[3].endpoint.lon, None);
    assert_eq!(targets[0].bind_iface, None);
}

#[test]
fn endpoints_are_found_by_id_and_by_base_id() {
    let eps = vec![endpoint("a", "first"), endpoint("b", "hb"), endpoint("a", "second")];
    let a: Vec<char> = "a".chars().collect();
    let z: Vec<char> = "z".chars().collect();
    assert_eq!(find_endpoint(&eps, &a), Some(0));
    assert_eq!(find_last_endpoint(&eps, &a), Some(2));
    assert_eq!(find_endpoint(&eps, &z), None);
    assert_eq!(find_last_endpoint(&eps, &z), None);
    assert_eq!(resolve_endpoint(&eps, "b"), Some(1));
    assert_eq!(resolve_endpoint(&eps, "b@vpn"), Some(1));
    assert_eq!(resolve_endpoint(&eps, "a@vpn@x"), Some(2));
    assert_eq!(resolve_endpoint(&eps, "c@vpn"), None);
    let with_composite = vec![endpoint("a", "plain"), endpoint("a@vpn", "own")];
    assert_eq!(resolve_endpoint(&with_composite, "a@vpn"), Some(1));
    assert_eq!(resolve_endpoint(&with_composite, "a@lte"), Some(0));
}
