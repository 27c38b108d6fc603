use edgesteer::config::{
    default_request_timeout_ms, CloudflareConfig, FileConfig, KeywordMatch, KeywordMatchMode,
    LayerConfig, LayerType, ListenerConfig, OptimizerConfig, PluginConfig, PluginType,
    PreferredConfig,
};
use edgesteer::net::{parse_network, IpAddress, Network, SocketAddress};
use edgesteer::state::RuntimeConfig;
use edgesteer::watcher::{prepare_reload, validate_preferred_ranges, ReloadError};

fn socket(a: u8, b: u8, c: u8, d: u8, port: u16) -> SocketAddress {
    SocketAddress { ip: IpAddress::v4(a, b, c, d), port }
}

fn config(upstream: SocketAddress) -> FileConfig {
    FileConfig {
        listener: ListenerConfig::default_listener(),
        cloudflare: CloudflareConfig::default_config(),
        request_timeout_ms: default_request_timeout_ms(),
        entry: "local".to_owned(),
        plugins: Vec::new(),
        rule_sets: Vec::new(),
        layers: vec![LayerConfig {
            tag: "local".to_owned(),
            kind: LayerType::Udp,
            fallback: None,
            matcher: KeywordMatch {
                mode: KeywordMatchMode::Label,
                keywords: Vec::new(),
                rule_sets: Vec::new(),
            },
            address: Some(upstream),
            timeout_ms: Some(1_000),
            refresh_secs: None,
            url: None,
            server_name: None,
            plugin: None,
        }],
    }
}

fn preferred_plugin(ipv4: Option<u32>) -> PluginConfig {
    PluginConfig {
        tag: "preferred".to_owned(),
        kind: PluginType::CloudflarePreferred,
        rewrite_ttl_secs: 60,
        preferred: PreferredConfig { ipv4, ipv6: None },
        optimizer: OptimizerConfig::default(),
    }
}

fn ranges() -> Vec<Network> {
    vec![parse_network("104.16.0.0/13").unwrap()]
}

#[test]
fn reload_replaces_layers_without_rebinding_listener() {
    let current = config(socket(1, 1, 1, 1, 53));
    let plan = match prepare_reload(&current, config(socket(8, 8, 8, 8, 53)), &ranges()) {
        Ok(plan) => plan,
        Err(_) => panic!("the reload is accepted"),
    };

    assert!(!plan.listener_restart_needed);
    assert!(plan.layers_changed);
    assert_eq!(plan.config.layers[0].address(), socket(8, 8, 8, 8, 53));
}

#[test]
fn reload_keeps_bound_listener_when_config_changes_it() {
    let current = config(socket(1, 1, 1, 1, 53));
    let mut replacement = config(socket(8, 8, 8, 8, 53));
    replacement.listener = ListenerConfig { address: socket(127, 0, 0, 1, 5353), allow_remote: false };

    let plan = match prepare_reload(&current, replacement, &ranges()) {
        Ok(plan) => plan,
        Err(_) => panic!("the reload is accepted"),
    };
    assert!(plan.listener_restart_needed);
    assert_eq!(plan.config.listener, ListenerConfig::default_listener());
}

#[test]
fn rejects_non_cloudflare_static_preferred_ip() {
    let current = config(socket(1, 1, 1, 1, 53));
    let mut replacement = config(socket(8, 8, 8, 8, 53));
    replacement.plugins.push(preferred_plugin(Some(u32::from_be_bytes([198, 51, 100, 1]))));

    assert!(matches!(
        prepare_reload(&current, replacement, &ranges()),
        Err(ReloadError::Preferred(_))
    ));
}

#[test]
fn reload_can_clear_static_preferred_ips() {
    let mut initial = config(socket(1, 1, 1, 1, 53));
    initial.plugins.push(preferred_plugin(Some(u32::from_be_bytes([104, 16, 99, 1]))));
    assert!(validate_preferred_ranges(&initial, &ranges()).is_ok());
    let previous = RuntimeConfig::new(initial.clone());

    let plan = match prepare_reload(&initial, config(socket(8, 8, 8, 8, 53)), &ranges()) {
        Ok(plan) => plan,
        Err(_) => panic!("the reload is accepted"),
    };
    let reloaded = RuntimeConfig::with_reloaded_config(plan.config, &previous);

    assert!(reloaded.preferred("preferred").is_none());
}

#[test]
fn an_invalid_configuration_is_not_applied() {
    let current = config(socket(1, 1, 1, 1, 53));
    let mut broken = config(socket(8, 8, 8, 8, 53));
    broken.entry = "missing".to_owned();
    assert!(matches!(
        prepare_reload(&current, broken, &ranges()),
        Err(ReloadError::Invalid(_))
    ));
}
