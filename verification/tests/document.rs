use edgesteer::config::{
    default_request_timeout_ms, CloudflareConfig, FileConfig, KeywordMatch, KeywordMatchMode,
    LayerConfig, LayerType, ListenerConfig, OptimizerConfig, PluginConfig, PluginType,
    PreferredConfig, RuleSetConfig, RuleSetType,
};
use edgesteer::document::{
    object_list, object_number, object_string, string_list_json, ConfigDocument,
    JsonMember, JsonValue, LayerKind, MatchMode, RuleSetKind,
};
use edgesteer::net::{IpAddress, SocketAddress};
use edgesteer::ui::{AppearanceMode, Language, Page, RegistrationAction, UiPreferences};

fn text(s: &str) -> JsonValue {
    JsonValue::Text(s.to_owned())
}

fn member(key: &str, value: JsonValue) -> JsonMember {
    JsonMember { key: key.to_owned(), value }
}

fn object(members: Vec<JsonMember>) -> JsonValue {
    JsonValue::Object(members)
}

fn checked_config(port: u16) -> FileConfig {
    FileConfig {
        listener: ListenerConfig {
            address: SocketAddress { ip: IpAddress::V4(0x7f00_0001), port },
            allow_remote: false,
        },
        cloudflare: CloudflareConfig::default_config(),
        request_timeout_ms: default_request_timeout_ms(),
        entry: "tencent-doh".to_owned(),
        plugins: Vec::new(),
        rule_sets: Vec::new(),
        layers: Vec::new(),
    }
}

/// A configuration object with a DoH layer, a local rule set and one plugin.
fn sample_root() -> Vec<JsonMember> {
    vec![
        member("listener", object(vec![member("address", text("127.0.0.1:53535"))])),
        member("entry", text("tencent-doh")),
        member(
            "layers",
            JsonValue::Array(vec![object(vec![
                member("tag", text("tencent-doh")),
                member("type", text("doh")),
                member("address", text("1.12.12.12:443")),
                member("url", text("https://doh.pub/dns-query")),
                member("timeout_ms", JsonValue::Integer(2500)),
                member(
                    "match",
                    object(vec![member(
                        "keywords",
                        JsonValue::Array(vec![text("qq"), text("wechat")]),
                    )]),
                ),
            ])]),
        ),
        member(
            "rule_sets",
            JsonValue::Array(vec![object(vec![
                member("tag", text("cn")),
                member("type", text("local")),
                member("path", text("/etc/edgesteer/cn.srs")),
            ])]),
        ),
        member(
            "plugins",
            JsonValue::Array(vec![object(vec![
                member("tag", text("cloudflare-preferred")),
                member("type", text("cloudflare_preferred")),
            ])]),
        ),
    ]
}

fn sample_document() -> ConfigDocument {
    ConfigDocument::from_parsed(
        "edgesteer.json".to_owned(),
        sample_root(),
        Ok(checked_config(53535)),
    )
    .unwrap_or_else(|_| panic!("a checked configuration is a document"))
}

#[test]
fn a_checked_document_starts_saved() {
    let document = sample_document();
    assert!(document.is_valid());
    assert!(!document.is_dirty());
    assert_eq!(document.validation_summary(Language::English), "Valid and saved");
    assert_eq!(
        document.listener_address(),
        SocketAddress { ip: IpAddress::V4(0x7f00_0001), port: 53535 }
    );
    assert_eq!(document.config_path(), "edgesteer.json");
}

#[test]
fn a_document_that_fails_the_check_is_refused_with_its_message() {
    let refused = ConfigDocument::from_parsed(
        "edgesteer.json".to_owned(),
        sample_root(),
        Err("layer \"x\" fallback \"y\" does not exist".to_owned()),
    );
    match refused {
        Err(message) => assert_eq!(message, "layer \"x\" fallback \"y\" does not exist"),
        Ok(_) => panic!("a failed check refuses the document"),
    }
}

#[test]
fn switching_a_doh_layer_to_local_drops_its_network_fields() {
    let mut document = sample_document();
    document.set_layer_type(0, LayerKind::Local);

    let layer = document.layer(0).expect("edited layer");
    assert_eq!(object_string(layer, "type"), Some("local"));
    assert_eq!(object_string(layer, "address"), None);
    assert_eq!(object_string(layer, "url"), None);
    assert_eq!(object_number(layer, "timeout_ms", 0), 2500);
    assert_eq!(object_number(layer, "refresh_secs", 0), 30);
    assert_eq!(object_list(layer.iter().find(|m| m.key == "match").map(|m| match &m.value {
        JsonValue::Object(o) => o,
        _ => panic!("the match stays an object"),
    }).expect("match kept"), "keywords"), "qq, wechat");
    assert!(document.is_dirty());
    assert_eq!(document.validation_summary(Language::English), "Valid draft, not saved");
}

#[test]
fn a_new_layer_takes_the_first_free_tag_and_its_kind_defaults() {
    let mut document = sample_document();
    let first = document.add_layer(LayerKind::Local);
    let second = document.add_layer(LayerKind::Dot);
    assert_eq!((first, second), (1, 2));
    assert_eq!(
        document.layer_tags(),
        vec!["tencent-doh".to_owned(), "new-layer-1".to_owned(), "new-layer-2".to_owned()]
    );
    let dot = document.layer(2).expect("new layer");
    assert_eq!(object_string(dot, "address"), Some("1.1.1.1:853"));
    assert_eq!(object_string(dot, "server_name"), Some("cloudflare-dns.com"));
    assert_eq!(object_number(dot, "timeout_ms", 0), 3000);

    document.set_layer_type(first, LayerKind::Doh);
    document.set_layer_string(first, "address", "1.1.1.1:443".to_owned());
    let doh = document.layer(first).expect("edited layer");
    assert_eq!(object_string(doh, "type"), Some("doh"));
    assert_eq!(object_string(doh, "url"), Some("https://cloudflare-dns.com/dns-query"));
    assert_eq!(object_number(doh, "refresh_secs", 0), 0);
}

#[test]
fn an_interceptor_layer_gets_empty_plugin_and_fallback() {
    let mut document = sample_document();
    document.set_layer_type(0, LayerKind::Interceptor);
    let layer = document.layer(0).expect("edited layer");
    assert_eq!(object_string(layer, "plugin"), Some(""));
    assert_eq!(object_string(layer, "fallback"), Some(""));
    assert_eq!(object_string(layer, "address"), None);
    assert_eq!(object_number(layer, "timeout_ms", 7), 7);
}

#[test]
fn layers_move_within_the_list_and_can_be_removed() {
    let mut document = sample_document();
    document.add_layer(LayerKind::Udp);
    document.move_layer(1, true);
    assert_eq!(document.layer_tags(), vec!["new-layer-1".to_owned(), "tencent-doh".to_owned()]);
    document.move_layer(1, false);
    assert_eq!(document.layer_tags(), vec!["new-layer-1".to_owned(), "tencent-doh".to_owned()]);
    document.move_layer(0, true);
    assert_eq!(document.layer_tags(), vec!["new-layer-1".to_owned(), "tencent-doh".to_owned()]);
    document.remove_layer(0);
    assert_eq!(document.layer_tags(), vec!["tencent-doh".to_owned()]);
    document.remove_layer(5);
    assert_eq!(document.layers().len(), 1);
}

#[test]
fn a_blank_optional_layer_field_is_removed() {
    let mut document = sample_document();
    document.set_layer_optional_string(0, "fallback", "cloudflare-doh".to_owned());
    assert_eq!(object_string(document.layer(0).unwrap(), "fallback"), Some("cloudflare-doh"));
    document.set_layer_optional_string(0, "fallback", "   ".to_owned());
    assert_eq!(object_string(document.layer(0).unwrap(), "fallback"), None);
}

#[test]
fn layer_numbers_that_do_not_read_change_nothing() {
    let mut document = sample_document();
    document.set_layer_number(0, "timeout_ms", "fast".to_owned());
    assert!(!document.is_dirty());
    assert_eq!(object_number(document.layer(0).unwrap(), "timeout_ms", 0), 2500);
    document.set_layer_number(0, "timeout_ms", " 4000 ".to_owned());
    assert!(document.is_dirty());
    assert_eq!(object_number(document.layer(0).unwrap(), "timeout_ms", 0), 4000);
}

#[test]
fn keyword_match_edits_write_the_match_object() {
    let mut document = sample_document();
    document.set_layer_match_mode(0, MatchMode::Contains);
    document.set_layer_match_list(0, "keywords", " mi, local, mi, LOCAL ".to_owned());
    let layer = document.layer(0).unwrap();
    let matcher = match &layer.iter().find(|m| m.key == "match").unwrap().value {
        JsonValue::Object(o) => o,
        _ => panic!("the match is an object"),
    };
    assert_eq!(object_string(matcher, "mode"), Some("contains"));
    assert_eq!(object_list(matcher, "keywords"), "mi, local");
}

#[test]
fn structured_rule_set_and_plugin_edits_land_in_their_objects() {
    let mut document = sample_document();
    let rule_set = document.add_rule_set(RuleSetKind::Local);
    document.set_rule_set_string(rule_set, "tag", "local-test".to_owned());
    let plugin = document.add_plugin();
    document.set_plugin_preferred(plugin, "ipv4", "104.16.0.1".to_owned());
    document.set_optimizer_bool(plugin, "enabled", false);

    assert_eq!(document.rule_sets().len(), 2);
    assert_eq!(document.plugins().len(), 2);
    assert_eq!(document.rule_set_tags(), vec!["cn".to_owned(), "local-test".to_owned()]);
    assert_eq!(
        document.plugin_tags(),
        vec!["cloudflare-preferred".to_owned(), "cloudflare-preferred-1".to_owned()]
    );
    let new_rule_set = document.rule_set(rule_set).unwrap();
    assert_eq!(object_string(new_rule_set, "path"), Some("/path/to/rules.srs"));
    assert_eq!(object_number(new_rule_set, "update_interval_secs", 0), 60);
    let new_plugin = document.plugin(plugin).unwrap();
    let preferred = match &new_plugin.iter().find(|m| m.key == "preferred").unwrap().value {
        JsonValue::Object(o) => o,
        _ => panic!("preferred is an object"),
    };
    assert_eq!(object_string(preferred, "ipv4"), Some("104.16.0.1"));
    assert_eq!(object_number(new_plugin, "rewrite_ttl_secs", 0), 60);
}

#[test]
fn a_rule_set_source_goes_to_its_kinds_field() {
    let mut document = sample_document();
    document.set_rule_set_source(0, "/srv/cn.srs".to_owned());
    assert_eq!(object_string(document.rule_set(0).unwrap(), "path"), Some("/srv/cn.srs"));
    document.set_rule_set_type(0, RuleSetKind::Remote);
    let remote = document.rule_set(0).unwrap();
    assert_eq!(object_string(remote, "path"), None);
    assert_eq!(object_string(remote, "url"), Some("https://example.com/rules.srs"));
    assert_eq!(object_number(remote, "timeout_ms", 0), 10000);
    document.set_rule_set_source(0, "https://rules.example/cn.srs".to_owned());
    assert_eq!(
        object_string(document.rule_set(0).unwrap(), "url"),
        Some("https://rules.example/cn.srs")
    );
}

#[test]
fn optimizer_fields_take_texts_or_whole_numbers() {
    let mut document = sample_document();
    document.set_optimizer_field(0, "interval_secs", "soon".to_owned());
    assert!(!document.is_dirty());
    document.set_optimizer_field(0, "test_host", "www.example.com".to_owned());
    assert!(document.is_dirty());
    document.set_optimizer_field(0, "interval_secs", "600".to_owned());
    document.set_optimizer_list(0, "candidates", "104.16.0.0/13, 104.16.0.0/13".to_owned());
    let plugin = document.plugin(0).unwrap();
    let optimizer = match &plugin.iter().find(|m| m.key == "optimizer").unwrap().value {
        JsonValue::Object(o) => o,
        _ => panic!("the optimizer is an object"),
    };
    assert_eq!(object_string(optimizer, "test_host"), Some("www.example.com"));
    assert_eq!(object_number(optimizer, "interval_secs", 0), 600);
    assert_eq!(object_list(optimizer, "candidates"), "104.16.0.0/13");
}

#[test]
fn a_failed_check_is_reported_until_the_next_one() {
    let mut document = sample_document();
    document.set_top_string("entry", "missing".to_owned());
    document.revalidate(Err("entry layer \"missing\" does not exist".to_owned()));
    assert!(!document.is_valid());
    assert_eq!(
        document.validation_summary(Language::English),
        "Schema invalid: entry layer \"missing\" does not exist"
    );
    assert_eq!(
        document.listener_address(),
        SocketAddress { ip: IpAddress::V4(0x7f00_0001), port: 53 }
    );
    document.set_top_string("entry", "tencent-doh".to_owned());
    document.revalidate(Ok(checked_config(5353)));
    assert!(document.is_valid());
    assert_eq!(document.listener_address().port, 5353);
    document.mark_saved();
    assert!(!document.is_dirty());
}

#[test]
fn root_settings_edits_write_their_objects() {
    let mut document = sample_document();
    document.set_listener_address("127.0.0.1:53".to_owned());
    document.set_listener_allow_remote(true);
    document.set_top_number("request_timeout_ms", "9000".to_owned());
    document.set_cloudflare_number("range_refresh_secs", "3600".to_owned());
    let root = document.root();
    let listener = match &root.iter().find(|m| m.key == "listener").unwrap().value {
        JsonValue::Object(o) => o,
        _ => panic!("the listener is an object"),
    };
    assert_eq!(object_string(listener, "address"), Some("127.0.0.1:53"));
    assert_eq!(object_number(root, "request_timeout_ms", 0), 9000);
    let cloudflare = match &root.iter().find(|m| m.key == "cloudflare").unwrap().value {
        JsonValue::Object(o) => o,
        _ => panic!("the Cloudflare settings are an object"),
    };
    assert_eq!(object_number(cloudflare, "range_refresh_secs", 0), 3600);
}

#[test]
fn comma_separated_field_becomes_a_json_array_without_duplicates() {
    match string_list_json(" mi, local, mi, LOCAL ") {
        JsonValue::Array(items) => {
            let texts: Vec<&str> = items
                .iter()
                .map(|item| match item {
                    JsonValue::Text(t) => t.as_str(),
                    _ => panic!("only texts"),
                })
                .collect();
            assert_eq!(texts, vec!["mi", "local"]);
        },
        _ => panic!("a list field is an array"),
    }
}

#[test]
fn kinds_read_back_from_their_wire_names() {
    for kind in LayerKind::all() {
        assert_eq!(LayerKind::from_value(Some(kind.wire_name())), kind);
    }
    for mode in MatchMode::all() {
        assert_eq!(MatchMode::from_value(Some(mode.wire_name())), mode);
    }
    for kind in RuleSetKind::all() {
        assert_eq!(RuleSetKind::from_value(Some(kind.wire_name())), kind);
    }
    assert_eq!(LayerKind::from_value(Some("quic")), LayerKind::Local);
    assert_eq!(LayerKind::from_value(None), LayerKind::Local);
    assert_eq!(RuleSetKind::from_value(None), RuleSetKind::Remote);
    assert_eq!(LayerKind::Doh.label(Language::English), "DoH");
}

#[test]
fn ui_preferences_default_to_menu_bar_continuity() {
    let preferences = UiPreferences::default();
    assert_eq!(preferences.language, Language::Chinese);
    assert_eq!(preferences.appearance, AppearanceMode::Dark);
    assert!(preferences.close_to_menu_bar);
}

#[test]
fn window_labels_follow_the_language() {
    assert_eq!(Page::Preview.label(Language::English), "JSON preview");
    assert_eq!(Page::Overview.label(Language::Chinese), "概览");
    assert_eq!(AppearanceMode::Light.label(Language::Chinese), "白");
    assert_eq!(Language::Chinese.label(), "简体中文");
    assert_eq!(
        RegistrationAction::DisableSystemDns.label(Language::English),
        "Restore automatic DNS"
    );
    assert_eq!(Language::English.translate("Overview"), "Overview");
    assert_eq!(Language::Chinese.translate("Overview"), "概览");
    assert_eq!(Page::all().len(), 7);
}

/// The outcome of checking a configuration, as the document records it.
fn check(config: FileConfig) -> Result<FileConfig, String> {
    match config.validate() {
        Ok(()) => Ok(config),
        Err(error) => Err(format!("{error:?}")),
    }
}

fn layer_config(tag: &str, kind: LayerType) -> LayerConfig {
    LayerConfig {
        tag: tag.to_owned(),
        kind,
        fallback: None,
        matcher: KeywordMatch { mode: KeywordMatchMode::Label, keywords: Vec::new(), rule_sets: Vec::new() },
        address: None,
        timeout_ms: None,
        refresh_secs: None,
        url: None,
        server_name: None,
        plugin: None,
    }
}

/// The configuration the sample document describes.
fn sample_config() -> FileConfig {
    let mut tencent = layer_config("tencent-doh", LayerType::Doh);
    tencent.address = Some(SocketAddress { ip: IpAddress::v4(1, 12, 12, 12), port: 443 });
    tencent.url = Some("https://doh.pub/dns-query".to_owned());
    tencent.timeout_ms = Some(2500);
    tencent.matcher.keywords = vec!["qq".to_owned(), "wechat".to_owned()];
    FileConfig {
        layers: vec![tencent],
        rule_sets: vec![RuleSetConfig {
            tag: "cn".to_owned(),
            kind: RuleSetType::Local,
            path: Some("/etc/edgesteer/cn.srs".to_owned()),
            url: None,
            update_interval_secs: None,
            timeout_ms: None,
        }],
        plugins: vec![PluginConfig {
            tag: "cloudflare-preferred".to_owned(),
            kind: PluginType::CloudflarePreferred,
            rewrite_ttl_secs: 60,
            preferred: PreferredConfig { ipv4: None, ipv6: None },
            optimizer: OptimizerConfig::default(),
        }],
        ..checked_config(53535)
    }
}

#[test]
fn structured_layer_edit_uses_the_same_validation_boundary() {
    let mut document = sample_document();
    let index = document.add_layer(LayerKind::Local);
    document.set_layer_type(index, LayerKind::Doh);
    document.set_layer_string(index, "address", "1.1.1.1:443".to_owned());
    document.set_layer_string(index, "url", "https://cloudflare-dns.com/dns-query".to_owned());

    let mut config = sample_config();
    let mut added = layer_config("new-layer-1", LayerType::Doh);
    added.address = Some(SocketAddress { ip: IpAddress::v4(1, 1, 1, 1), port: 443 });
    added.url = Some("https://cloudflare-dns.com/dns-query".to_owned());
    added.timeout_ms = Some(default_request_timeout_ms());
    config.layers.push(added);
    document.revalidate(check(config));

    assert!(document.is_valid());
    assert_eq!(document.layer(index).and_then(|layer| object_string(layer, "type")), Some("doh"));
}

#[test]
fn structured_rule_set_and_plugin_edits_round_trip() {
    let mut document = sample_document();
    let rule_set = document.add_rule_set(RuleSetKind::Local);
    document.set_rule_set_string(rule_set, "tag", "local-test".to_owned());
    let plugin = document.add_plugin();
    document.set_plugin_preferred(plugin, "ipv4", "104.16.0.1".to_owned());
    document.set_optimizer_bool(plugin, "enabled", false);

    let mut config = sample_config();
    config.rule_sets.push(RuleSetConfig {
        tag: "local-test".to_owned(),
        kind: RuleSetType::Local,
        path: Some("/path/to/rules.srs".to_owned()),
        url: None,
        update_interval_secs: Some(60),
        timeout_ms: None,
    });
    config.plugins.push(PluginConfig {
        tag: "new-plugin-1".to_owned(),
        kind: PluginType::CloudflarePreferred,
        rewrite_ttl_secs: 60,
        preferred: PreferredConfig { ipv4: Some(u32::from_be_bytes([104, 16, 0, 1])), ipv6: None },
        optimizer: OptimizerConfig::default(),
    });
    document.revalidate(check(config));

    assert!(document.is_valid());
    assert_eq!(document.rule_sets().len(), 2);
    assert_eq!(document.plugins().len(), 2);
    let preferred = document
        .plugin(plugin)
        .and_then(|plugin| plugin.iter().find(|m| m.key == "preferred"))
        .and_then(|m| match &m.value {
            JsonValue::Object(o) => Some(o),
            _ => None,
        });
    assert_eq!(preferred.and_then(|preferred| object_string(preferred, "ipv4")), Some("104.16.0.1"));
}

#[test]
fn changing_a_network_layer_to_local_removes_network_fields() {
    let mut document = sample_document();
    let index = document
        .layers()
        .iter()
        .position(|layer| match layer {
            JsonValue::Object(layer) => object_string(layer, "tag") == Some("tencent-doh"),
            _ => false,
        })
        .expect("the Tencent resolver layer");

    document.set_layer_type(index, LayerKind::Local);

    let mut config = sample_config();
    config.layers[0].kind = LayerType::Local;
    config.layers[0].address = None;
    config.layers[0].url = None;
    config.layers[0].refresh_secs = Some(30);
    document.revalidate(check(config));

    let layer = document.layer(index).expect("edited layer");
    assert_eq!(object_string(layer, "type"), Some("local"));
    assert!(!layer.iter().any(|m| m.key == "address"));
    assert!(!layer.iter().any(|m| m.key == "url"));
    assert!(document.is_valid());
}
