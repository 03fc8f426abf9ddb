//! The framed channel end to end, the state store's laws on concrete
//! values, and the persisted document round trip.

use ctlplane::channel::Channel;
use ctlplane::codec::{encode_server_message, parse_server_message};
use ctlplane::data::{
    ChannelError, ConfigCommand, ConfigMessage, ConfigMessageStatus, HttpFront, Instance, Order,
    ServerMessage,
};
use ctlplane::data::{ProxyType, RunState, WorkerInfo};
use ctlplane::state::ProxyState;
use ctlplane::store::{ConfigState, ProxyDeserializer, StateStore};
use ctlplane::upgrade::{encode_upgrade_data, parse_upgrade_data, UpgradeData, WorkerHandle};

#[test]
fn channel_roundtrip_config_message() {
    let m = ConfigMessage::new(
        String::from("r1"),
        ConfigCommand::LaunchWorker(String::from("tag-a")),
        None,
        None,
    );
    let mut sender = Channel::new(10000, 20000, false);
    let mut receiver = Channel::new(10000, 20000, false);
    sender.write_message(&m).unwrap();
    let wire = sender.take_write();
    receiver.fill_read(&wire);
    let got = receiver.read_config_message().unwrap().unwrap();
    assert_eq!(got, m);
    match receiver.read_config_message() {
        Err(ChannelError::WouldBlock) => {}
        other => panic!("{:?}", other.is_ok()),
    }
}

#[test]
fn channel_keeps_frame_order() {
    let a = ConfigMessage::new(String::from("a"), ConfigCommand::DumpState, None, None);
    let b = ConfigMessage::new(String::from("b"), ConfigCommand::ListWorkers, None, None);
    let mut sender = Channel::new(10000, 20000, false);
    let mut receiver = Channel::new(10000, 20000, false);
    sender.write_message(&a).unwrap();
    sender.write_message(&b).unwrap();
    let wire = sender.take_write();
    receiver.fill_read(&wire);
    assert_eq!(receiver.read_config_message().unwrap().unwrap(), a);
    assert_eq!(receiver.read_config_message().unwrap().unwrap(), b);
}

#[test]
fn channel_backpressure_past_max() {
    let m = ConfigMessage::new(String::from("r1"), ConfigCommand::DumpState, None, None);
    let mut tiny = Channel::new(4, 8, false);
    match tiny.write_message(&m) {
        Err(ChannelError::BackPressure) => {}
        other => panic!("{:?}", other.is_ok()),
    }
}

#[test]
fn server_message_roundtrip() {
    let m = ServerMessage {
        id: String::from("r1"),
        status: ConfigMessageStatus::Okay,
        message: String::new(),
    };
    let text = encode_server_message(&m);
    assert_eq!(text, "{\"id\":\"r1\",\"status\":\"Ok\",\"message\":\"\"}");
    assert_eq!(parse_server_message(text.as_str()).unwrap(), m);
}

fn front(a: &str, h: &str, p: &str) -> HttpFront {
    HttpFront {
        app_id: String::from(a),
        hostname: String::from(h),
        path_begin: String::from(p),
    }
}

#[test]
fn add_twice_is_idempotent() {
    let mut s = ProxyState::empty();
    let o = Order::AddHttpFront(front("app", "example.test", "/"));
    s.apply(&o, false);
    let once = s.clone();
    s.apply(&o, false);
    assert_eq!(s, once);
    assert_eq!(s.fronts.len(), 1);
}

#[test]
fn remove_absent_is_a_noop() {
    let mut s = ProxyState::empty();
    s.apply(&Order::AddHttpFront(front("app", "example.test", "/")), false);
    let before = s.clone();
    s.apply(&Order::RemoveHttpFront(front("other", "example.test", "/")), false);
    assert_eq!(s, before);
}

#[test]
fn orders_rebuild_the_state() {
    let mut s = ProxyState::empty();
    s.apply(&Order::AddHttpFront(front("app", "one.test", "/")), true);
    s.apply(&Order::AddHttpFront(front("app", "two.test", "/api")), true);
    s.apply(
        &Order::AddInstance(Instance {
            app_id: String::from("app"),
            ip_address: String::from("127.0.0.1"),
            port: 1026,
        }),
        true,
    );
    s.apply(&Order::AddCertificate(String::from("PEM")), true);
    let mut rebuilt = ProxyState::empty();
    for o in s.orders() {
        rebuilt.apply(&o, true);
    }
    assert_eq!(rebuilt, s);
}

#[test]
fn save_load_roundtrip() {
    let mut s = ProxyState::empty();
    s.apply(&Order::AddHttpFront(front("xxx", "yyy", "/")), false);
    let store = StateStore {
        entries: vec![
            ProxyDeserializer { tag: String::from("tag-a"), state: ConfigState::Http(s) },
            ProxyDeserializer { tag: String::from("tag-b"), state: ConfigState::Tcp },
        ],
    };
    let doc = store.dump_string();
    let back = StateStore::load_string(doc.as_str()).unwrap();
    assert_eq!(back.entries, store.entries);
}

#[test]
fn load_tolerates_blank_lines_and_missing_final_newline() {
    let text = "\n{\"tag\":\"t\",\"proxy_type\":\"TCP\",\"state\":{}}";
    let back = StateStore::load_string(text).unwrap();
    assert_eq!(back.entries.len(), 1);
    assert_eq!(back.entries[0].tag, "t");
    assert_eq!(back.entries[0].state, ConfigState::Tcp);
}

#[test]
fn entry_with_unknown_member_is_rejected() {
    let line = "{\"tag\":\"t\",\"proxy_type\":\"TCP\",\"state\":{},\"junk\":0}";
    assert!(ctlplane::store::parse_state_entry(line).is_err());
}

#[test]
fn listener_spec_roundtrip() {
    let spec = ctlplane::spawn::ListenerSpec {
        proxy_type: ctlplane::data::ProxyType::HTTP,
        address: String::from("127.0.0.1"),
        port: 8080,
        worker_count: 2,
        channel_buffer_size: 10000,
        channel_max_buffer_size: 20000,
        log_target: String::from("stdout"),
        log_level: String::from("info"),
        state: ProxyState::empty(),
    };
    let text = ctlplane::spawn::encode_listener_spec(&spec);
    let back = ctlplane::spawn::parse_listener_spec(&text).unwrap();
    assert_eq!(back.address, spec.address);
    assert_eq!(back.port, spec.port);
    assert_eq!(back.worker_count, spec.worker_count);
    assert_eq!(back.channel_buffer_size, spec.channel_buffer_size);
    assert_eq!(back.state, spec.state);
}

#[test]
fn reader_takes_backspace_and_formfeed_escapes() {
    match ctlplane::json::json_parse("\"a\\bz\\f\"") {
        Some(ctlplane::json::Json::Text(s)) => assert_eq!(s, "a\u{8}z\u{c}"),
        other => panic!("{}", other.is_some()),
    }
}

#[test]
fn upgrade_payload_roundtrip() {
    let payload = UpgradeData {
        entries: vec![ProxyDeserializer { tag: String::from("tag-a"), state: ConfigState::Tcp }],
        workers: vec![WorkerHandle {
            info: WorkerInfo {
                id: 0,
                pid: 4242,
                tag: String::from("tag-a"),
                proxy_type: ProxyType::HTTP,
                run_state: RunState::Running,
            },
            fd: 7,
        }],
        admin_fd: 5,
    };
    let text = encode_upgrade_data(&payload);
    let back = parse_upgrade_data(&text).unwrap();
    assert_eq!(back.admin_fd, 5);
    assert_eq!(back.entries, payload.entries);
    assert_eq!(back.workers.len(), 1);
    assert_eq!(back.workers[0].fd, 7);
    assert_eq!(back.workers[0].info, payload.workers[0].info);
}

#[test]
fn unknown_proxy_kind_names_the_expected_kinds() {
    let line = "{\"tag\":\"t\",\"proxy_type\":\"SMTP\",\"state\":{}}";
    match ctlplane::store::parse_state_entry(line) {
        Err(e) => assert_eq!(e.describe(), "expected HTTP, HTTPS or TCP proxy type"),
        other => panic!("{}", other.is_ok()),
    }
}

#[test]
fn reader_takes_surrogate_pair_escapes() {
    match ctlplane::json::json_parse("\"\\uD83D\\uDE00\"") {
        Some(ctlplane::json::Json::Text(s)) => assert_eq!(s, "\u{1F600}"),
        other => panic!("{}", other.is_some()),
    }
    assert!(ctlplane::json::json_parse("\"\\uD83Dx\"").is_none());
    assert!(ctlplane::json::json_parse("\"\\uDE00\"").is_none());
}
