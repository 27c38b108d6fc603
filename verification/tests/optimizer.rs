use edgesteer::config::{OptimizerConfig, PluginConfig, PluginType, PreferredConfig};
use edgesteer::net::{parse_network, IpAddress, Network};
use edgesteer::optimizer::{
    compatibility_body_prefix_limit, expand_candidates, next_round_delay_secs, probe_request,
    random_address_in_network, random_addresses_in_network, round_action, score_probe_samples,
    selectable_address_count, validate_cloudflare_probe_response,
    validate_compatibility_probe_response, BestProbes, ProbeResult, RoundAction,
};
use edgesteer::state::PreferredIps;

const MS: u128 = 1_000_000;

fn settings() -> OptimizerConfig {
    OptimizerConfig {
        enabled: true,
        candidates: vec!["104.16.0.0/24".to_owned(), "198.51.100.1".to_owned()],
        samples_per_cidr: 4,
        max_candidates: 8,
        ..OptimizerConfig::default()
    }
}

fn ranges() -> Vec<Network> {
    vec![parse_network("104.16.0.0/13").unwrap()]
}

#[test]
fn expands_only_cloudflare_candidates() {
    let ranges = ranges();
    let candidates = match expand_candidates(&settings(), &ranges) {
        Ok(candidates) => candidates,
        Err(_) => panic!("candidates expand"),
    };
    assert_eq!(candidates.len(), 4);
    assert!(candidates.iter().all(|candidate| ranges[0].contains(*candidate)));
}

#[test]
fn does_not_duplicate_cidr_samples() {
    let mut settings = settings();
    settings.candidates = vec!["104.16.0.0/30".to_owned()];
    settings.samples_per_cidr = 4;
    let ranges = ranges();

    let candidates = match expand_candidates(&settings, &ranges) {
        Ok(candidates) => candidates,
        Err(_) => panic!("candidates expand"),
    };

    assert_eq!(candidates.len(), 2);
    assert_ne!(candidates[0], candidates[1]);
}

#[test]
fn excludes_configured_candidate_ranges() {
    let mut settings = settings();
    settings.candidates = vec!["104.16.0.0/30".to_owned()];
    settings.samples_per_cidr = 4;
    settings.excluded_candidates = vec!["104.16.0.1".to_owned()];
    let ranges = ranges();

    let candidates = match expand_candidates(&settings, &ranges) {
        Ok(candidates) => candidates,
        Err(_) => panic!("candidates expand"),
    };

    assert_eq!(candidates, vec![IpAddress::v4(104, 16, 0, 2)]);
}

#[test]
fn validates_cloudflare_probe_header() {
    assert!(
        validate_cloudflare_probe_response(b"HTTP/1.1 200 OK\r\nServer: cloudflare\r\n\r\n")
            .is_ok()
    );
    assert!(
        validate_cloudflare_probe_response(b"HTTP/1.1 200 OK\r\nServer: nginx\r\n\r\n").is_err()
    );
}

#[test]
fn trace_probe_uses_get() {
    let settings = OptimizerConfig::default();
    let request = probe_request(&settings.test_host, &settings.test_path);
    assert!(request.starts_with("GET /cdn-cgi/trace HTTP/1.1\r\n"));
    assert!(request.contains("Accept-Encoding: identity\r\n"));
}

#[test]
fn compatibility_probe_reads_an_unframed_body_prefix() {
    let header = b"HTTP/1.1 200 OK\r\n\r\n";

    assert_eq!(
        compatibility_body_prefix_limit(header, header.len()),
        header.len() + 4 * 1024
    );
}

#[test]
fn stable_score_penalizes_slow_tail() {
    let mut stable = vec![400 * MS, 410 * MS, 420 * MS];
    let mut spiky = vec![190 * MS, 250 * MS, 1_970 * MS];

    let stable_timing = score_probe_samples(&mut stable);
    let spiky_timing = score_probe_samples(&mut spiky);

    assert_eq!(stable_timing.score, 415 * MS);
    assert_eq!(spiky_timing.score, 1_110 * MS);
    assert!(stable_timing.score < spiky_timing.score);
}

#[test]
fn compatibility_probe_accepts_redirects_and_rejects_1034() {
    assert!(validate_compatibility_probe_response(b"HTTP/1.1 302 Found\r\n\r\n").is_ok());
    assert!(validate_compatibility_probe_response(
        b"HTTP/1.1 403 Forbidden\r\nServer: cloudflare\r\n\r\nerror code: 1034"
    )
    .is_err());
    assert!(validate_compatibility_probe_response(
        b"HTTP/1.1 200 OK\r\nServer: cloudflare\r\n\r\nPlease enable cookies. Error 1034 Edge IP Restricted"
    )
    .is_err());
}

#[test]
fn scoring_sorts_the_samples_and_takes_the_median() {
    let mut samples = vec![30 * MS, 10 * MS, 20 * MS, 40 * MS];
    let timing = score_probe_samples(&mut samples);
    assert_eq!(samples, vec![10 * MS, 20 * MS, 30 * MS, 40 * MS]);
    assert_eq!(timing.median_latency, 25 * MS);
    assert_eq!(timing.worst_latency, 40 * MS);
    assert_eq!(timing.score, 32_500_000);
}

#[test]
fn selectable_counts_skip_network_and_broadcast() {
    assert_eq!(selectable_address_count(parse_network("104.16.0.0/30").unwrap()), 2);
    assert_eq!(selectable_address_count(parse_network("104.16.0.0/31").unwrap()), 2);
    assert_eq!(selectable_address_count(parse_network("104.16.0.1/32").unwrap()), 1);
    assert_eq!(selectable_address_count(parse_network("2606:4700::/120").unwrap()), 256);
}

#[test]
fn random_addresses_stay_inside_their_network() {
    let network = parse_network("104.16.0.0/24").unwrap();
    for _ in 0..64 {
        let address = random_address_in_network(network);
        assert!(network.contains(address));
        assert_ne!(address, IpAddress::v4(104, 16, 0, 0));
        assert_ne!(address, IpAddress::v4(104, 16, 0, 255));
    }
    let sample = random_addresses_in_network(parse_network("104.16.0.0/30").unwrap(), 10);
    assert_eq!(sample.len(), 2);
}

fn probe(address: IpAddress, score: u128, median: u128, worst: u128) -> ProbeResult {
    ProbeResult { address, score, median_latency: median, worst_latency: worst }
}

#[test]
fn the_fastest_probe_of_each_family_is_kept() {
    let mut best = BestProbes::new();
    best.offer(probe(IpAddress::v4(104, 16, 0, 1), 300, 300, 300));
    best.offer(probe(IpAddress::V6(7), 500, 500, 500));
    best.offer(probe(IpAddress::v4(104, 16, 0, 2), 200, 250, 400));
    best.offer(probe(IpAddress::v4(104, 16, 0, 3), 200, 250, 300));
    best.offer(probe(IpAddress::v4(104, 16, 0, 4), 200, 260, 100));
    assert_eq!(
        best.preferred(),
        PreferredIps { ipv4: Some(u32::from_be_bytes([104, 16, 0, 3])), ipv6: Some(7) }
    );
}

#[test]
fn a_round_updates_clears_or_keeps() {
    let selected = PreferredIps { ipv4: Some(1), ipv6: None };
    let none = PreferredIps { ipv4: None, ipv6: None };
    assert_eq!(round_action(true, Some(selected)), RoundAction::Update(selected));
    assert_eq!(round_action(true, Some(none)), RoundAction::Clear);
    assert_eq!(round_action(true, None), RoundAction::Clear);
    assert_eq!(round_action(false, None), RoundAction::Keep);
    assert_eq!(round_action(false, Some(none)), RoundAction::Keep);
}

#[test]
fn the_next_round_waits_for_the_shortest_enabled_interval() {
    let plugin = |enabled: bool, interval: u64| PluginConfig {
        tag: "p".to_owned(),
        kind: PluginType::CloudflarePreferred,
        rewrite_ttl_secs: 60,
        preferred: PreferredConfig { ipv4: None, ipv6: None },
        optimizer: OptimizerConfig { enabled, interval_secs: interval, ..OptimizerConfig::default() },
    };
    assert_eq!(next_round_delay_secs(&vec![]), 60);
    assert_eq!(next_round_delay_secs(&vec![plugin(false, 5)]), 60);
    assert_eq!(next_round_delay_secs(&vec![plugin(true, 600), plugin(true, 300)]), 300);
    assert_eq!(next_round_delay_secs(&vec![plugin(true, 0)]), 1);
}
