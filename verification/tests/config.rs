use std::sync::Arc;

use edgesteer::config::{
    default_request_timeout_ms, default_rewrite_ttl_secs, CloudflareConfig, FileConfig,
    KeywordMatch, KeywordMatchMode, LayerConfig, LayerType, ListenerConfig, OptimizerConfig,
    PluginConfig, PluginType, PreferredConfig, RuleSetConfig, RuleSetType,
};
use edgesteer::dns::{LayerWalk, StoreMatcher, WalkStep};
use edgesteer::net::{IpAddress, SocketAddress};
use edgesteer::rule_sets::{DomainRuleSet, LoadedRuleSet, RuleExpression, RuleSetStore};

/// A store whose rule set of `tag` (from the configuration's source of that
/// tag) holds exactly the domain given.
fn store_with(config: &FileConfig, tag: &str, domain: &str) -> RuleSetStore {
    let source = config.rule_set(tag).expect("the tag is configured").clone();
    let mut store = RuleSetStore::new();
    store.insert(LoadedRuleSet {
        tag: tag.to_owned(),
        source,
        rules: Arc::new(DomainRuleSet {
            rules: vec![RuleExpression::DomainKeyword(vec![domain.to_owned()])],
        }),
    });
    store
}

fn socket(a: u8, b: u8, c: u8, d: u8, port: u16) -> SocketAddress {
    SocketAddress { ip: IpAddress::v4(a, b, c, d), port }
}

fn matcher(mode: KeywordMatchMode, keywords: &[&str], rule_sets: &[&str]) -> KeywordMatch {
    KeywordMatch {
        mode,
        keywords: keywords.iter().map(|k| (*k).to_owned()).collect(),
        rule_sets: rule_sets.iter().map(|r| (*r).to_owned()).collect(),
    }
}

fn layer(tag: &str, kind: LayerType, fallback: Option<&str>, matcher: KeywordMatch) -> LayerConfig {
    LayerConfig {
        tag: tag.to_owned(),
        kind,
        fallback: fallback.map(str::to_owned),
        matcher,
        address: None,
        timeout_ms: None,
        refresh_secs: None,
        url: None,
        server_name: None,
        plugin: None,
    }
}

fn remote(tag: &str, url: &str) -> RuleSetConfig {
    RuleSetConfig {
        tag: tag.to_owned(),
        kind: RuleSetType::Remote,
        path: None,
        url: Some(url.to_owned()),
        update_interval_secs: None,
        timeout_ms: None,
    }
}

/// The configuration of the JSON fixture: keyword and rule-set routing in
/// front of a DoH fallback chain that ends in dynamic local DNS.
fn fixture() -> FileConfig {
    let none = || matcher(KeywordMatchMode::Label, &[], &[]);
    let mut local_keyword = layer(
        "local-keyword",
        LayerType::Local,
        None,
        matcher(KeywordMatchMode::Contains, &["b2c", "mi", "local"], &[]),
    );
    local_keyword.refresh_secs = Some(30);
    let mut cn = layer(
        "cn-preferred",
        LayerType::Interceptor,
        Some("tencent"),
        matcher(KeywordMatchMode::Label, &[], &["cn"]),
    );
    cn.plugin = Some("cloudflare-preferred".to_owned());
    let mut overseas = layer(
        "overseas-preferred",
        LayerType::Interceptor,
        Some("cf"),
        matcher(KeywordMatchMode::Label, &[], &["overseas"]),
    );
    overseas.plugin = Some("cloudflare-preferred".to_owned());
    let mut preferred = layer("preferred", LayerType::Interceptor, Some("tencent"), none());
    preferred.plugin = Some("cloudflare-preferred".to_owned());
    let mut tencent = layer("tencent", LayerType::Doh, Some("cf"), none());
    tencent.address = Some(socket(120, 53, 53, 53, 443));
    tencent.url = Some("https://doh.pub/dns-query".to_owned());
    let mut cf = layer("cf", LayerType::Doh, Some("local-fallback"), none());
    cf.address = Some(socket(1, 1, 1, 1, 443));
    cf.url = Some("https://cloudflare-dns.com/dns-query".to_owned());
    let mut local_fallback = layer("local-fallback", LayerType::Local, None, none());
    local_fallback.refresh_secs = Some(30);
    FileConfig {
        listener: ListenerConfig { address: socket(127, 0, 0, 1, 53535), allow_remote: false },
        cloudflare: CloudflareConfig::default_config(),
        request_timeout_ms: default_request_timeout_ms(),
        entry: "preferred".to_owned(),
        plugins: vec![PluginConfig {
            tag: "cloudflare-preferred".to_owned(),
            kind: PluginType::CloudflarePreferred,
            rewrite_ttl_secs: default_rewrite_ttl_secs(),
            preferred: PreferredConfig { ipv4: None, ipv6: None },
            optimizer: OptimizerConfig::default(),
        }],
        rule_sets: vec![
            remote("cn", "https://example.com/geosite-cn.srs"),
            remote("overseas", "https://example.com/geosite-geolocation-not-cn.srs"),
        ],
        layers: vec![local_keyword, cn, overseas, preferred, tencent, cf, local_fallback],
    }
}

fn layer_mut<'config>(config: &'config mut FileConfig, tag: &str) -> &'config mut LayerConfig {
    config.layers.iter_mut().find(|layer| layer.tag == tag).expect("fixture layer exists")
}

#[test]
fn parses_the_json_layer_chain() {
    let config = fixture();
    assert!(config.validate().is_ok(), "configuration validates");
    assert_eq!(config.select_layer(Some("printer.b2c.example.")), "local-keyword");
    let cn = store_with(&config, "cn", "www.example.cn");
    assert_eq!(
        config.select_layer_with_rule_sets(Some("www.example.cn."), &StoreMatcher::new(&cn, &config)),
        "cn-preferred"
    );
    let overseas = store_with(&config, "overseas", "www.example.com");
    assert_eq!(
        config.select_layer_with_rule_sets(
            Some("www.example.com."),
            &StoreMatcher::new(&overseas, &config)
        ),
        "overseas-preferred"
    );
    assert_eq!(config.select_layer(Some("www.example.test.")), "preferred");
    assert_eq!(config.select_layer(Some("www.cloudflare.com.")), "preferred");
}

#[test]
fn rejects_a_fallback_cycle() {
    let mut config = fixture();
    layer_mut(&mut config, "local-fallback").fallback = Some("preferred".to_owned());
    assert!(config.validate().is_err());
}

#[test]
fn rejects_doh_with_a_mismatched_bootstrap_port() {
    let mut config = fixture();
    layer_mut(&mut config, "cf").address = Some(socket(1, 1, 1, 1, 8443));
    assert!(config.validate().is_err());
}

#[test]
fn rejects_an_empty_keyword() {
    let mut config = fixture();
    layer_mut(&mut config, "local-keyword").matcher.keywords.push(" ".to_owned());
    assert!(config.validate().is_err());
}

#[test]
fn rejects_a_fixed_address_for_a_local_layer() {
    let mut config = fixture();
    layer_mut(&mut config, "local-fallback").address = Some(socket(10, 0, 0, 53, 53));
    assert!(config.validate().is_err());
}

#[test]
fn rejects_a_zero_local_refresh_interval() {
    let mut config = fixture();
    layer_mut(&mut config, "local-fallback").refresh_secs = Some(0);
    assert!(config.validate().is_err());
}

#[test]
fn supports_explicit_literal_contains_matching() {
    let mut config = fixture();
    let matcher = &mut layer_mut(&mut config, "local-keyword").matcher;
    matcher.mode = KeywordMatchMode::Contains;
    matcher.keywords = vec!["video".to_owned()];

    assert_eq!(config.select_layer(Some("my-video.example.")), "local-keyword");
}

#[test]
fn selects_the_first_matching_sing_box_rule_set_layer() {
    let config = fixture();
    let cn = store_with(&config, "cn", "www.example.cn");
    assert_eq!(
        config.select_layer_with_rule_sets(Some("www.example.cn."), &StoreMatcher::new(&cn, &config)),
        "cn-preferred"
    );
}

#[test]
fn rejects_a_layer_that_references_an_unknown_rule_set() {
    let mut config = fixture();
    layer_mut(&mut config, "local-keyword").matcher.rule_sets.push("missing".to_owned());

    assert!(config.validate().is_err());
}

#[test]
fn rejects_non_canonical_compatibility_hosts() {
    let mut config = fixture();
    let optimizer = &mut config.plugins[0].optimizer;
    optimizer.enabled = true;
    optimizer.candidates = vec!["104.16.0.0/13".to_owned()];
    optimizer.compatibility_hosts = vec![" blog.qoop.top ".to_owned()];

    assert!(config.validate().is_err());
}

#[test]
fn rejects_enabled_optimizer_without_compatibility_hosts() {
    let mut config = fixture();
    let optimizer = &mut config.plugins[0].optimizer;
    optimizer.enabled = true;
    optimizer.candidates = vec!["104.16.0.0/13".to_owned()];

    assert!(config.validate().is_err());
}

#[test]
fn rejects_invalid_excluded_candidate() {
    let mut config = fixture();
    let optimizer = &mut config.plugins[0].optimizer;
    optimizer.enabled = true;
    optimizer.candidates = vec!["104.16.0.0/13".to_owned()];
    optimizer.compatibility_hosts = vec!["blog.qoop.top".to_owned()];
    optimizer.excluded_candidates = vec!["not-an-address".to_owned()];

    assert!(config.validate().is_err());
}

#[test]
fn an_enabled_optimizer_with_hosts_and_candidates_is_accepted() {
    let mut config = fixture();
    let optimizer = &mut config.plugins[0].optimizer;
    optimizer.enabled = true;
    optimizer.candidates = vec!["104.16.0.0/13".to_owned()];
    optimizer.compatibility_hosts = vec!["blog.qoop.top".to_owned()];
    assert!(config.validate().is_ok());
    assert!(config.plugins[0].optimizer.requires_compatibility_gate());
}

#[test]
fn a_remote_listener_needs_an_explicit_opt_in() {
    let mut config = fixture();
    config.listener.address = socket(0, 0, 0, 0, 53);
    assert!(config.validate().is_err());
    config.listener.allow_remote = true;
    assert!(config.validate().is_ok());
}

#[test]
fn layer_lookups_and_keyword_matching() {
    let config = fixture();
    assert_eq!(
        config.layer("cn-preferred").and_then(|layer| layer.fallback.as_deref()),
        Some("tencent")
    );
    assert!(config.layer("missing").is_none());
    let label = matcher(KeywordMatchMode::Label, &["mi"], &[]);
    assert!(label.matches("work.MI.com."));
    assert!(!label.matches("miami.example"));
    let contains = matcher(KeywordMatchMode::Contains, &["mi"], &[]);
    assert!(contains.matches("miami.example"));
}

#[test]
fn rule_set_defaults() {
    let remote = remote("cn", "https://example.com/cn.srs");
    assert_eq!(remote.update_interval_secs(), 86_400);
    assert_eq!(remote.timeout_ms(), 10_000);
}

#[test]
fn a_walk_falls_back_only_on_failure_and_rewrites_through_the_interceptors_passed() {
    let config = fixture();
    let start = config.layer_index("preferred").expect("fixture layer exists");
    let tencent = config.layer_index("tencent").unwrap();
    let cf = config.layer_index("cf").unwrap();
    let local = config.layer_index("local-fallback").unwrap();

    let mut walk = LayerWalk::start(&config, start);
    assert!(matches!(walk.on_outcome(&config, false), WalkStep::Next(l) if l == tencent));
    assert!(matches!(walk.on_outcome(&config, false), WalkStep::Next(l) if l == cf));
    match walk.on_outcome(&config, true) {
        WalkStep::Answer(interceptors) => assert_eq!(interceptors, vec![start]),
        _ => panic!("an answer ends the walk"),
    }

    let mut failing = LayerWalk::start(&config, start);
    assert!(matches!(failing.on_outcome(&config, false), WalkStep::Next(l) if l == tencent));
    assert!(matches!(failing.on_outcome(&config, false), WalkStep::Next(l) if l == cf));
    assert!(matches!(failing.on_outcome(&config, false), WalkStep::Next(l) if l == local));
    assert!(matches!(failing.on_outcome(&config, false), WalkStep::Exhausted));
}
