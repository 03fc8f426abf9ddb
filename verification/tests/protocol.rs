//! The admin protocol read off raw wire text, and written back to it.

use ctlplane::codec::{encode_config_message, parse_config_message};
use ctlplane::data::{ConfigCommand, ConfigMessage, HttpFront, Order, ProtocolError};

#[test]
fn config_message_test() {
    let raw_json = r#"{ "id": "ID_TEST", "version": 0, "type": "PROXY", "proxy": "HTTP", "data":{"type": "ADD_HTTP_FRONT", "data": {"app_id": "xxx", "hostname": "yyy", "path_begin": "xxx"}} }"#;
    let message: ConfigMessage = parse_config_message(raw_json).unwrap();
    println!("{:?}", message);
    assert_eq!(message.proxy, Some(String::from("HTTP")));
    assert_eq!(
        message.data,
        ConfigCommand::ProxyConfiguration(Order::AddHttpFront(HttpFront {
            app_id: String::from("xxx"),
            hostname: String::from("yyy"),
            path_begin: String::from("xxx"),
        }))
    );
}

#[test]
fn save_state_test() {
    let raw_json = r#"{ "id": "ID_TEST", "version": 0, "type": "SAVE_STATE", "data":{ "path": "./config_dump.json"} }"#;
    let message: ConfigMessage = parse_config_message(raw_json).unwrap();
    println!("{:?}", message);
    assert_eq!(message.proxy, None);
    assert_eq!(message.data, ConfigCommand::SaveState(String::from("./config_dump.json")));
}

#[test]
fn dump_state_test() {
    println!("A");
    let raw_json = "{ \"id\": \"ID_TEST\", \"version\": 0, \"type\": \"DUMP_STATE\" }";
    println!("B");
    let message: ConfigMessage = parse_config_message(raw_json).unwrap();
    println!("C");
    println!("{:?}", message);
    assert_eq!(message.proxy, None);
    println!("D");
    assert_eq!(message.data, ConfigCommand::DumpState);
}

#[test]
fn encode_dump_state_exact_text() {
    let m = ConfigMessage::new(String::from("r4"), ConfigCommand::DumpState, None, None);
    assert_eq!(encode_config_message(&m), "{\"id\":\"r4\",\"version\":0,\"type\":\"DUMP_STATE\"}");
}

#[test]
fn encode_parse_roundtrip_proxy_order() {
    let m = ConfigMessage::new(
        String::from("r1"),
        ConfigCommand::ProxyConfiguration(Order::AddHttpFront(HttpFront {
            app_id: String::from("xxx"),
            hostname: String::from("yyy"),
            path_begin: String::from("/"),
        })),
        Some(String::from("tag-a")),
        Some(2),
    );
    let text = encode_config_message(&m);
    let back = parse_config_message(text.as_str()).unwrap();
    assert_eq!(back, m);
}

#[test]
fn unknown_command_is_an_error() {
    let raw_json = r#"{"id":"r6","version":0,"type":"NOPE"}"#;
    match parse_config_message(raw_json) {
        Err(ProtocolError::UnrecognizedCommand) => {}
        other => panic!("{:?}", other),
    }
}

#[test]
fn missing_fields_are_named() {
    match parse_config_message(r#"{"version":0,"type":"DUMP_STATE"}"#) {
        Err(ProtocolError::MissingField(f)) => assert_eq!(f, "id"),
        other => panic!("{:?}", other),
    }
    match parse_config_message(r#"{"id":"a","version":0}"#) {
        Err(ProtocolError::MissingField(f)) => assert_eq!(f, "type"),
        other => panic!("{:?}", other),
    }
    match parse_config_message(r#"{"id":"a","type":"DUMP_STATE"}"#) {
        Err(ProtocolError::MissingField(f)) => assert_eq!(f, "version"),
        other => panic!("{:?}", other),
    }
    match parse_config_message(r#"{"id":"a","version":0,"type":"PROXY"}"#) {
        Err(ProtocolError::MissingField(f)) => assert_eq!(f, "data"),
        other => panic!("{:?}", other),
    }
}

#[test]
fn wrong_version_is_refused() {
    match parse_config_message(r#"{"id":"a","version":1,"type":"DUMP_STATE"}"#) {
        Err(ProtocolError::BadVersion) => {}
        other => panic!("{:?}", other),
    }
}

#[test]
fn malformed_text_is_a_decode_error() {
    match parse_config_message("{\"id\": ") {
        Err(ProtocolError::Decode) => {}
        other => panic!("{:?}", other),
    }
}

#[test]
fn last_field_occurrence_wins() {
    let raw = r#"{"id":"first","id":"second","version":0,"type":"LIST_WORKERS"}"#;
    let m = parse_config_message(raw).unwrap();
    assert_eq!(m.id, "second");
    assert_eq!(m.data, ConfigCommand::ListWorkers);
}

#[test]
fn unknown_members_are_rejected() {
    let raw = r#"{"id":"a","version":0,"type":"DUMP_STATE","junk":1}"#;
    match parse_config_message(raw) {
        Err(ProtocolError::Decode) => {}
        other => panic!("{:?}", other),
    }
}

#[test]
fn malformed_filters_are_rejected() {
    match parse_config_message(r#"{"id":"a","version":0,"type":"DUMP_STATE","proxy_id":-1}"#) {
        Err(ProtocolError::Decode) => {}
        other => panic!("{:?}", other),
    }
    match parse_config_message(r#"{"id":"a","version":0,"type":"DUMP_STATE","proxy_id":"x"}"#) {
        Err(ProtocolError::Decode) => {}
        other => panic!("{:?}", other),
    }
    match parse_config_message(r#"{"id":"a","version":0,"type":"DUMP_STATE","proxy":7}"#) {
        Err(ProtocolError::Decode) => {}
        other => panic!("{:?}", other),
    }
}

#[test]
fn order_envelope_roundtrip() {
    let order = Order::AddHttpFront(HttpFront {
        app_id: String::from("app"),
        hostname: String::from("h.test"),
        path_begin: String::from("/"),
    });
    let text = ctlplane::codec::encode_order_envelope("r9", &order);
    let (id, back) = ctlplane::codec::parse_order_envelope(&text).unwrap();
    assert_eq!(id, "r9");
    assert_eq!(back, order);
}
