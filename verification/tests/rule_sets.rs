use std::io::Write;
use std::sync::Arc;

use edgesteer::config::{RuleSetConfig, RuleSetType};
use edgesteer::rule_sets::{
    parse_sing_box_srs, DomainRuleSet, LoadedRuleSet, RefreshWorker, RuleExpression, RuleSetStore,
    SrsError, DOMAIN_ROOT_LABEL, RULE_ITEM_DOMAIN, RULE_ITEM_FINAL,
};
use flate2::write::ZlibEncoder;
use flate2::Compression;

#[test]
fn parses_and_matches_domain_and_suffix_rules() {
    let binary = make_srs(&[
        make_domain_rule("example.com", false),
        make_domain_rule("internal.test", true),
    ]);
    let rule_set = match parse_sing_box_srs(&binary) {
        Ok(set) => set,
        Err(_) => panic!("SRS parses"),
    };

    assert!(rule_set.matches("example.com"));
    assert!(!rule_set.matches("www.example.com"));
    assert!(rule_set.matches("internal.test"));
    assert!(rule_set.matches("api.internal.test"));
    assert!(!rule_set.matches("internal.testing"));
}

#[test]
fn rejects_non_domain_srs_rules_without_silent_misrouting() {
    let binary = make_srs(&[vec![0, 5, 0, RULE_ITEM_FINAL, 0]]);
    let error = match parse_sing_box_srs(&binary) {
        Ok(_) => panic!("port rule must be rejected"),
        Err(error) => error,
    };
    assert!(error.message().contains("not domain-based"));
}

#[test]
fn store_does_not_use_a_same_tag_rule_set_from_a_replaced_source() {
    let source = remote_source("https://example.com/old.srs");
    let replacement = remote_source("https://example.com/new.srs");
    let rules = Arc::new(DomainRuleSet {
        rules: vec![RuleExpression::DomainKeyword(vec!["private".to_owned()])],
    });
    let mut store = RuleSetStore::new();
    store.insert(LoadedRuleSet { tag: "private".to_owned(), source: source.clone(), rules });

    assert!(store.matches("private", Some(&source), "host.private"));
    assert!(!store.matches("private", Some(&replacement), "host.private"));
}

#[test]
fn srs_headers_are_checked() {
    assert_eq!(parse_sing_box_srs(b"SR").err(), Some(SrsError::ShortHeader));
    assert_eq!(parse_sing_box_srs(b"XYZ\x01").err(), Some(SrsError::BadMagic));
    assert_eq!(
        parse_sing_box_srs(b"SRS\x09").err(),
        Some(SrsError::UnsupportedVersion { version: 9 })
    );
    assert_eq!(
        SrsError::UnsupportedVersion { version: 9 }.message(),
        "unsupported sing-box SRS version 9"
    );
}

#[test]
fn a_failed_read_of_a_changed_source_serves_nothing() {
    let source = remote_source("https://example.com/old.srs");
    let replacement = remote_source("https://example.com/new.srs");
    let rules = Arc::new(DomainRuleSet {
        rules: vec![RuleExpression::DomainKeyword(vec!["private".to_owned()])],
    });
    let mut worker = RefreshWorker::new();
    assert!(worker.needs_refresh(&source, 0));
    worker.record(source.clone(), Some(rules), 60_000);
    assert!(!worker.needs_refresh(&source, 1_000));
    assert!(worker.needs_refresh(&source, 60_000));
    assert!(worker.needs_refresh(&replacement, 1_000));
    assert!(worker.active_store().matches("private", Some(&source), "host.private"));

    worker.record(source.clone(), None, 120_000);
    assert!(worker.active_store().matches("private", Some(&source), "host.private"));

    worker.record(replacement.clone(), None, 120_000);
    let store = worker.active_store();
    assert!(!store.matches("private", Some(&replacement), "host.private"));
    assert!(!store.matches("private", Some(&source), "host.private"));
}

#[test]
fn unconfigured_rule_sets_are_dropped() {
    let source = remote_source("https://example.com/old.srs");
    let rules = Arc::new(DomainRuleSet {
        rules: vec![RuleExpression::DomainKeyword(vec!["private".to_owned()])],
    });
    let mut worker = RefreshWorker::new();
    worker.record(source.clone(), Some(rules), 60_000);
    worker.retain_configured(&Vec::new());
    assert!(worker.entry_index("private").is_none());
    assert_eq!(worker.next_delay_ms(0), 60_000);
}

fn remote_source(url: &str) -> RuleSetConfig {
    RuleSetConfig {
        tag: "private".to_owned(),
        kind: RuleSetType::Remote,
        path: None,
        url: Some(url.to_owned()),
        update_interval_secs: Some(60),
        timeout_ms: Some(1_000),
    }
}

fn make_srs(rules: &[Vec<u8>]) -> Vec<u8> {
    let mut payload = Vec::new();
    write_uvarint(&mut payload, rules.len() as u64);
    for rule in rules {
        payload.extend_from_slice(rule);
    }

    let mut compressed = ZlibEncoder::new(Vec::new(), Compression::best());
    compressed.write_all(&payload).unwrap();
    let compressed = compressed.finish().unwrap();
    let mut result = b"SRS\x01".to_vec();
    result.extend_from_slice(&compressed);
    result
}

fn make_domain_rule(domain: &str, suffix: bool) -> Vec<u8> {
    let mut result = vec![0, RULE_ITEM_DOMAIN];
    let mut key = domain.chars().rev().collect::<String>().into_bytes();
    if suffix {
        key.push(DOMAIN_ROOT_LABEL);
    }
    write_matcher(&mut result, &key);
    result.extend_from_slice(&[RULE_ITEM_FINAL, 0]);
    result
}

fn write_matcher(output: &mut Vec<u8>, key: &[u8]) {
    // A single key is a one-child-per-node trie. Each node contributes a
    // zero edge bit then a one terminator bit; the final node is a leaf.
    output.push(0);
    write_uvarint(output, 1);
    output.extend_from_slice(&(1_u64 << key.len()).to_be_bytes());
    write_uvarint(output, 1);
    let bitmap = (0..key.len()).fold(1_u64 << (key.len() * 2), |bitmap, node| {
        bitmap | (1_u64 << (node * 2 + 1))
    });
    output.extend_from_slice(&bitmap.to_be_bytes());
    write_uvarint(output, key.len() as u64);
    output.extend_from_slice(key);
}

fn write_uvarint(output: &mut Vec<u8>, mut value: u64) {
    while value >= 0x80 {
        output.push(value as u8 | 0x80);
        value >>= 7;
    }
    output.push(value as u8);
}
