use edgesteer::config::{OptimizerConfig, PluginConfig, PluginType, PreferredConfig};
use edgesteer::net::{parse_network, Network};
use edgesteer::plugins::{
    clear_dnssec, intercept_message, intercept_response, AnswerRecord, DnssecView, RecordData, SvcParam, SvcValue,
};
use edgesteer::state::PreferredIps;

fn v4(a: u8, b: u8, c: u8, d: u8) -> u32 {
    u32::from_be_bytes([a, b, c, d])
}

fn ranges() -> Vec<Network> {
    vec![parse_network("104.16.0.0/13").unwrap()]
}

fn plugin() -> PluginConfig {
    PluginConfig {
        tag: "preferred".to_owned(),
        kind: PluginType::CloudflarePreferred,
        rewrite_ttl_secs: 60,
        preferred: PreferredConfig { ipv4: None, ipv6: None },
        optimizer: OptimizerConfig::default(),
    }
}

fn a(address: u32) -> AnswerRecord {
    AnswerRecord { data: RecordData::A(address), ttl: 300 }
}

#[test]
fn rewrites_only_all_cloudflare_a_records() {
    let mut answers = vec![a(v4(104, 16, 1, 1)), a(v4(104, 16, 1, 2))];
    let preferred = PreferredIps { ipv4: Some(v4(104, 16, 99, 1)), ipv6: None };

    assert!(intercept_response(&plugin(), &mut answers, &ranges(), Some(preferred)));
    for record in &answers {
        assert_eq!(record.ttl, 60);
        assert!(matches!(record.data, RecordData::A(address) if address == v4(104, 16, 99, 1)));
    }
}

#[test]
fn leaves_mixed_a_records_unchanged() {
    let mut answers = vec![a(v4(104, 16, 1, 1)), a(v4(198, 51, 100, 1))];
    let preferred = PreferredIps { ipv4: Some(v4(104, 16, 99, 1)), ipv6: None };

    assert!(!intercept_response(&plugin(), &mut answers, &ranges(), Some(preferred)));
    assert!(matches!(answers[0].data, RecordData::A(address) if address == v4(104, 16, 1, 1)));
    assert!(matches!(answers[1].data, RecordData::A(address) if address == v4(198, 51, 100, 1)));
    assert_eq!(answers[0].ttl, 300);
}

#[test]
fn rewrites_https_ipv4_hints() {
    let mut answers = vec![AnswerRecord {
        data: RecordData::Https(vec![SvcParam {
            key: 4,
            value: SvcValue::Ipv4Hint(vec![v4(104, 16, 1, 1)]),
        }]),
        ttl: 300,
    }];
    let preferred = PreferredIps { ipv4: Some(v4(104, 16, 99, 1)), ipv6: None };

    assert!(intercept_response(&plugin(), &mut answers, &ranges(), Some(preferred)));
    match &answers[0].data {
        RecordData::Https(params) => match &params[0].value {
            SvcValue::Ipv4Hint(addresses) => {
                assert_eq!(addresses.len(), 1);
                assert_eq!(addresses[0], v4(104, 16, 99, 1));
            }
            _ => panic!("unexpected SVCB value"),
        },
        _ => panic!("unexpected record data"),
    }
}

#[test]
fn no_preferred_address_is_a_successful_no_op() {
    let mut answers: Vec<AnswerRecord> = Vec::new();
    assert!(!intercept_response(&plugin(), &mut answers, &ranges(), None));
}

#[test]
fn mixed_ipv4_answers_do_not_stop_an_ipv6_rewrite() {
    let preferred6 = 0x2606_4700_0000_0000_0000_0000_0000_0099u128;
    let mut answers = vec![
        a(v4(198, 51, 100, 1)),
        AnswerRecord { data: RecordData::Aaaa(0x2606_4700_0000_0000_0000_0000_0000_0001), ttl: 300 },
    ];
    let ranges = vec![
        parse_network("104.16.0.0/13").unwrap(),
        parse_network("2606:4700::/32").unwrap(),
    ];
    let preferred = PreferredIps { ipv4: Some(v4(104, 16, 99, 1)), ipv6: Some(preferred6) };
    assert!(intercept_response(&plugin(), &mut answers, &ranges, Some(preferred)));
    assert!(matches!(answers[0].data, RecordData::A(address) if address == v4(198, 51, 100, 1)));
    assert!(matches!(answers[1].data, RecordData::Aaaa(address) if address == preferred6));
}

#[test]
fn answers_without_addresses_are_left_alone() {
    let mut answers = vec![AnswerRecord { data: RecordData::Other, ttl: 300 }];
    let preferred = PreferredIps { ipv4: Some(v4(104, 16, 99, 1)), ipv6: None };
    assert!(!intercept_response(&plugin(), &mut answers, &ranges(), Some(preferred)));
    assert_eq!(answers[0].ttl, 300);
}

#[test]
fn a_rewritten_answer_loses_its_dnssec_state() {
    let view = DnssecView {
        answers: vec![1, 46, 1],
        name_servers: vec![46],
        additionals: vec![41, 28],
        has_edns: true,
    };
    let clearing = clear_dnssec(&view);
    assert_eq!(clearing.keep_answers, vec![true, false, true]);
    assert_eq!(clearing.keep_name_servers, vec![false]);
    assert_eq!(clearing.keep_additionals, vec![true, true]);
    assert!(!clearing.authentic_data);
    assert_eq!(clearing.dnssec_ok, Some(false));
    let plain = DnssecView { answers: vec![], name_servers: vec![], additionals: vec![], has_edns: false };
    assert_eq!(clear_dnssec(&plain).dnssec_ok, None);
}

#[test]
fn intercepting_drops_dnssec_only_when_the_answer_is_rewritten() {
    let view = DnssecView { answers: vec![1, 46], name_servers: vec![], additionals: vec![41], has_edns: true };
    let preferred = PreferredIps { ipv4: Some(v4(104, 16, 99, 1)), ipv6: None };

    let mut rewritten = vec![a(v4(104, 16, 1, 1))];
    let clearing = intercept_message(&plugin(), &mut rewritten, &view, &ranges(), Some(preferred))
        .expect("a Cloudflare answer is rewritten");
    assert!(matches!(rewritten[0].data, RecordData::A(address) if address == v4(104, 16, 99, 1)));
    assert_eq!(clearing.keep_answers, vec![true, false]);
    assert_eq!(clearing.keep_additionals, vec![true]);
    assert!(!clearing.authentic_data);
    assert_eq!(clearing.dnssec_ok, Some(false));

    let mut outside = vec![a(v4(198, 51, 100, 1))];
    assert!(intercept_message(&plugin(), &mut outside, &view, &ranges(), Some(preferred)).is_none());
    assert!(matches!(outside[0].data, RecordData::A(address) if address == v4(198, 51, 100, 1)));
    assert_eq!(outside[0].ttl, 300);
}
