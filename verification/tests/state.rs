use edgesteer::compatibility::{
    probe_host, result_lifetime_nanos, CheckOutcome, CompatibilityCache, GatedPreferred, ProbeKey,
    ProbeStatus,
};
use edgesteer::net::IpAddress;
use edgesteer::config::{
    default_request_timeout_ms, CloudflareConfig, FileConfig, ListenerConfig, OptimizerConfig,
    PluginConfig, PluginType, PreferredConfig,
};
use edgesteer::state::{PreferredEntry, PreferredIps, RuntimeConfig};

fn v4(a: u8, b: u8, c: u8, d: u8) -> u32 {
    u32::from_be_bytes([a, b, c, d])
}

fn strict_plugin(hosts: &[&str]) -> PluginConfig {
    PluginConfig {
        tag: "cloudflare-preferred".to_owned(),
        kind: PluginType::CloudflarePreferred,
        rewrite_ttl_secs: 60,
        preferred: PreferredConfig { ipv4: Some(v4(172, 67, 231, 26)), ipv6: None },
        optimizer: OptimizerConfig {
            enabled: true,
            compatibility_hosts: hosts.iter().map(|host| (*host).to_owned()).collect(),
            candidates: vec!["172.67.0.0/16".to_owned()],
            ..OptimizerConfig::default()
        },
    }
}

fn config(plugin: PluginConfig) -> FileConfig {
    FileConfig {
        listener: ListenerConfig::default_listener(),
        cloudflare: CloudflareConfig::default_config(),
        request_timeout_ms: default_request_timeout_ms(),
        entry: String::new(),
        plugins: vec![plugin],
        rule_sets: Vec::new(),
        layers: Vec::new(),
    }
}

#[test]
fn strict_optimizer_ignores_static_preferred_addresses() {
    let plugin = strict_plugin(&["blog.qoop.top"]);
    let runtime = RuntimeConfig::new(config(plugin));

    assert!(runtime.preferred("cloudflare-preferred").is_some_and(|p| p.is_empty()));
}

#[test]
fn compatibility_policy_change_drops_dynamic_preferred_addresses() {
    let plugin = strict_plugin(&["blog.qoop.top"]);
    let mut previous = RuntimeConfig::new(config(plugin.clone()));
    previous.preferred_ips = vec![PreferredEntry {
        tag: plugin.tag.clone(),
        preferred: PreferredIps { ipv4: Some(v4(172, 67, 231, 26)), ipv6: None },
    }];
    let replacement = strict_plugin(&["another-zone.example"]);

    let reloaded = RuntimeConfig::with_reloaded_config(config(replacement), &previous);

    assert!(reloaded.preferred("cloudflare-preferred").is_some_and(|p| p.is_empty()));
}

#[test]
fn strict_optimizer_clears_old_families_after_a_failed_round() {
    let plugin = strict_plugin(&["blog.qoop.top"]);
    let mut runtime = RuntimeConfig::new(config(plugin.clone()));
    let selected = PreferredIps { ipv4: Some(v4(172, 67, 231, 26)), ipv6: Some(1) };

    runtime
        .update_preferred(&plugin, selected)
        .expect("strict probe selection is accepted");
    runtime
        .clear_preferred(&plugin)
        .expect("strict failed round clears the selection");

    assert!(runtime.preferred("cloudflare-preferred").is_some_and(|p| p.is_empty()));
}

#[test]
fn an_unchanged_plugin_keeps_its_addresses_across_a_reload() {
    let plugin = strict_plugin(&["blog.qoop.top"]);
    let mut previous = RuntimeConfig::new(config(plugin.clone()));
    let selected = PreferredIps { ipv4: Some(v4(172, 67, 1, 1)), ipv6: None };
    previous.update_preferred(&plugin, selected).expect("selection accepted");
    let reloaded = RuntimeConfig::with_reloaded_config(config(plugin.clone()), &previous);
    assert_eq!(reloaded.preferred("cloudflare-preferred"), Some(selected));
}

#[test]
fn a_lenient_round_keeps_the_family_it_did_not_produce() {
    let mut plugin = strict_plugin(&[]);
    plugin.preferred = PreferredConfig { ipv4: None, ipv6: Some(9) };
    let mut runtime = RuntimeConfig::new(config(plugin.clone()));
    assert_eq!(
        runtime.preferred("cloudflare-preferred"),
        Some(PreferredIps { ipv4: None, ipv6: Some(9) })
    );
    let next = runtime.update_preferred(&plugin, PreferredIps { ipv4: Some(5), ipv6: None });
    assert_eq!(next, Some(PreferredIps { ipv4: Some(5), ipv6: Some(9) }));
    assert!(runtime.clear_preferred(&plugin).is_none());
    assert_eq!(
        runtime.preferred("cloudflare-preferred"),
        Some(PreferredIps { ipv4: Some(5), ipv6: Some(9) })
    );
}

#[test]
fn a_round_for_a_changed_plugin_is_ignored() {
    let plugin = strict_plugin(&["blog.qoop.top"]);
    let mut runtime = RuntimeConfig::new(config(plugin));
    let stale = strict_plugin(&["other.example"]);
    assert!(runtime.update_preferred(&stale, PreferredIps { ipv4: Some(1), ipv6: None }).is_none());
    assert!(runtime.preferred("cloudflare-preferred").is_some_and(|p| p.is_empty()));
}


fn key() -> ProbeKey {
    ProbeKey {
        plugin_tag: "cloudflare-preferred".to_owned(),
        host: "blog.qoop.top".to_owned(),
        address: IpAddress::v4(104, 16, 1, 1),
    }
}

#[test]
fn a_strict_address_is_handed_out_only_after_its_probe_passed() {
    let mut cache = CompatibilityCache::new();
    assert_eq!(cache.check(key(), 0, true), CheckOutcome::Scheduled);
    assert_eq!(cache.check(key(), 1, true), CheckOutcome::NotYet);
    let epoch = cache.epoch();
    cache.complete(key(), epoch, ProbeStatus::VerifiedUntil(100));
    assert_eq!(cache.check(key(), 50, true), CheckOutcome::Verified);
    assert_eq!(cache.check(key(), 100, false), CheckOutcome::NotYet);
    assert_eq!(cache.check(key(), 101, true), CheckOutcome::Scheduled);
}

#[test]
fn a_reset_makes_running_probes_stale() {
    let mut cache = CompatibilityCache::new();
    assert_eq!(cache.check(key(), 0, true), CheckOutcome::Scheduled);
    let epoch = cache.epoch();
    cache.reset();
    cache.complete(key(), epoch, ProbeStatus::VerifiedUntil(100));
    assert_eq!(cache.check(key(), 50, false), CheckOutcome::NotYet);
    assert_eq!(probe_host(" Blog.Qoop.Top. ").as_deref(), Some("blog.qoop.top"));
    assert_eq!(probe_host(" . "), None);
    assert_eq!(result_lifetime_nanos(60, true), 60_000_000_000);
    assert_eq!(result_lifetime_nanos(60, false), 30_000_000_000);
    assert_eq!(result_lifetime_nanos(10, false), 10_000_000_000);
}

fn both_families() -> PreferredIps {
    PreferredIps { ipv4: Some(v4(104, 16, 1, 1)), ipv6: Some(0x2606_4700_0000_0000_0000_0000_0000_0001) }
}

#[test]
fn lenient_plugin_hands_out_its_addresses_unprobed() {
    let plugin = strict_plugin(&[]);
    let mut cache = CompatibilityCache::new();
    let gated: GatedPreferred =
        cache.compatible_preferred(&plugin, Some("blog.qoop.top"), &both_families(), 0, 4);
    assert_eq!(gated.preferred, both_families());
    assert!(gated.probes.is_empty());
}

#[test]
fn strict_plugin_hands_out_nothing_without_a_host() {
    let plugin = strict_plugin(&["blog.qoop.top"]);
    let mut cache = CompatibilityCache::new();
    let gated = cache.compatible_preferred(&plugin, None, &both_families(), 0, 4);
    assert!(gated.preferred.is_empty());
    assert!(gated.probes.is_empty());
    let gated = cache.compatible_preferred(&plugin, Some(" . "), &both_families(), 0, 4);
    assert!(gated.preferred.is_empty());
    assert!(gated.probes.is_empty());
}

#[test]
fn strict_plugin_probes_before_handing_out_an_address() {
    let plugin = strict_plugin(&["blog.qoop.top"]);
    let mut cache = CompatibilityCache::new();
    let first = cache.compatible_preferred(&plugin, Some(" Blog.Qoop.Top. "), &both_families(), 10, 4);
    assert!(first.preferred.is_empty());
    assert_eq!(first.probes.len(), 2);
    assert_eq!(first.probes[0].host, "blog.qoop.top");
    assert_eq!(first.probes[0].plugin_tag, "cloudflare-preferred");
    assert_eq!(first.probes[0].address, IpAddress::V4(v4(104, 16, 1, 1)));
    assert_eq!(first.probes[1].address, IpAddress::V6(0x2606_4700_0000_0000_0000_0000_0000_0001));

    // While the probes run, nothing goes out and nothing more is probed.
    let waiting = cache.compatible_preferred(&plugin, Some("blog.qoop.top"), &both_families(), 20, 4);
    assert!(waiting.preferred.is_empty());
    assert!(waiting.probes.is_empty());

    let epoch = cache.epoch();
    let ipv4_key = ProbeKey {
        plugin_tag: "cloudflare-preferred".to_owned(),
        host: "blog.qoop.top".to_owned(),
        address: IpAddress::V4(v4(104, 16, 1, 1)),
    };
    cache.complete(ipv4_key, epoch, ProbeStatus::VerifiedUntil(1_000));
    let ipv6_key = ProbeKey {
        plugin_tag: "cloudflare-preferred".to_owned(),
        host: "blog.qoop.top".to_owned(),
        address: IpAddress::V6(0x2606_4700_0000_0000_0000_0000_0000_0001),
    };
    cache.complete(ipv6_key, epoch, ProbeStatus::RejectedUntil(1_000));

    let proven = cache.compatible_preferred(&plugin, Some("blog.qoop.top"), &both_families(), 30, 4);
    assert_eq!(proven.preferred, PreferredIps { ipv4: Some(v4(104, 16, 1, 1)), ipv6: None });
    assert!(proven.probes.is_empty());

    // Once the proof has expired, the address is probed afresh.
    let expired = cache.compatible_preferred(&plugin, Some("blog.qoop.top"), &both_families(), 1_000, 4);
    assert!(expired.preferred.is_empty());
    assert_eq!(expired.probes.len(), 2);
}

#[test]
fn strict_plugin_starts_no_more_probes_than_permits() {
    let plugin = strict_plugin(&["blog.qoop.top"]);
    let mut cache = CompatibilityCache::new();
    let gated = cache.compatible_preferred(&plugin, Some("blog.qoop.top"), &both_families(), 0, 1);
    assert_eq!(gated.probes.len(), 1);
    assert_eq!(gated.probes[0].address, IpAddress::V4(v4(104, 16, 1, 1)));
    let none = cache.compatible_preferred(&plugin, Some("www.qoop.top"), &both_families(), 0, 0);
    assert!(none.preferred.is_empty());
    assert!(none.probes.is_empty());
}
