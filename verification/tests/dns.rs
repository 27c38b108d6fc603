use std::str::FromStr;

use edgesteer::dns::{accept_request, is_dns_message_content_type, validate_upstream_response};
use hickory_proto::op::{Message, MessageType, Query};
use hickory_proto::rr::{Name, RecordType};
use hickory_proto::serialize::binary::BinEncodable;

fn request() -> Message {
    let mut message = Message::new();
    message.set_id(42);
    message.add_query(Query::query(
        Name::from_str("www.example.test.").unwrap(),
        RecordType::A,
    ));
    message
}

fn response_for(request: &Message) -> Message {
    let mut response = Message::new();
    response.set_id(request.id());
    response.set_message_type(MessageType::Response);
    response.add_queries(request.queries().iter().cloned());
    response
}

#[test]
fn validates_matched_upstream_response() {
    let request = request();
    let accepted = accept_request(request.to_bytes().unwrap()).expect("a query is accepted");
    let response = response_for(&request).to_bytes().unwrap();
    assert!(validate_upstream_response(&accepted, response).is_ok());
}

#[test]
fn rejects_wrong_dns_response_id() {
    let request = request();
    let accepted = accept_request(request.to_bytes().unwrap()).expect("a query is accepted");
    let mut response = response_for(&request);
    response.set_id(43);
    assert!(validate_upstream_response(&accepted, response.to_bytes().unwrap()).is_err());
}

#[test]
fn rejects_dns_query_as_response() {
    let request = request();
    let accepted = accept_request(request.to_bytes().unwrap()).expect("a query is accepted");
    assert!(validate_upstream_response(&accepted, request.to_bytes().unwrap()).is_err());
}

#[test]
fn accepts_doh_dns_message_content_type() {
    assert!(is_dns_message_content_type("application/dns-message"));
    assert!(is_dns_message_content_type(
        "Application/Dns-Message; charset=binary"
    ));
    assert!(!is_dns_message_content_type("application/json"));
}

#[test]
fn the_listener_drops_responses_and_malformed_packets() {
    let request = request();
    let response = response_for(&request).to_bytes().unwrap();
    assert!(accept_request(response).is_none());
    assert!(accept_request(vec![0, 1]).is_none());
    let accepted = accept_request(request.to_bytes().unwrap()).unwrap();
    assert_eq!(accepted.bytes(), request.to_bytes().unwrap().as_slice());
}

#[test]
fn a_response_to_another_question_is_rejected() {
    let request = request();
    let accepted = accept_request(request.to_bytes().unwrap()).unwrap();
    let mut other = Message::new();
    other.set_id(42);
    other.set_message_type(MessageType::Response);
    other.add_query(Query::query(
        Name::from_str("other.example.test.").unwrap(),
        RecordType::A,
    ));
    assert!(validate_upstream_response(&accepted, other.to_bytes().unwrap()).is_err());
}
