use robustmq::command::{record_qos, Command, ConnectReason, DisconnectReason, MQTTPacket, PubAckReason};
use robustmq::connection::{ConnectionManager, NetworkConnectionType, ResponseOutcome};
use robustmq::security::{Login, MQTTUser};
use robustmq::share_sub::{MqttProtocol, QoS};
use robustmq::storage::MemoryStorageAdapter;

fn command() -> Command {
    let users = vec![MQTTUser { username: "admin".to_string(), password: "pwd123".to_string(), is_superuser: true }];
    Command::new(MemoryStorageAdapter::new(), users, false, 1)
}

fn connect(user: &str, pass: &str) -> MQTTPacket {
    MQTTPacket::Connect {
        client_id: "c1".to_string(),
        login: Some(Login { username: user.to_string(), password: pass.to_string() }),
        protocol: MqttProtocol::Mqtt5,
    }
}

fn publish(qos: QoS, pkid: u16, dup: bool, payload: &[u8]) -> MQTTPacket {
    MQTTPacket::Publish {
        topic: "t/a".to_string(),
        qos,
        pkid,
        dup,
        retain: false,
        payload: payload.to_vec(),
    }
}

fn shard_len(c: &Command, shard: &str) -> usize {
    c.storage.shard_data.get(shard).map(|v| v.len()).unwrap_or(0)
}

#[test]
fn connect_publish_qos0_disconnect() {
    let mut c = command();
    let mut conns = ConnectionManager::new(10);
    let id = conns.add_connection("127.0.0.1:5000".to_string(), NetworkConnectionType::Tcp).unwrap();
    conns.add_write(id).unwrap();
    conns.set_connect_protocol(id, MqttProtocol::Mqtt5).unwrap();

    match c.apply(id, connect("admin", "pwd123")) {
        Some(MQTTPacket::ConnAck { session_present, reason }) => {
            assert!(!session_present);
            assert_eq!(reason, ConnectReason::Success);
        }
        _ => panic!("expected a ConnAck"),
    }
    assert!(c.apply(id, publish(QoS::AtMostOnce, 0, false, b"hi")).is_none());
    assert_eq!(shard_len(&c, "t/a"), 1);
    assert_eq!(c.storage.stream_read_by_offset("t/a".to_string(), 0).unwrap().data, b"hi".to_vec());

    let resp = c.apply(id, MQTTPacket::Disconnect { reason: DisconnectReason::NormalDisconnection });
    assert!(matches!(resp, Some(MQTTPacket::Disconnect { reason: DisconnectReason::NormalDisconnection })));
    assert!(c.sessions.is_empty());
    assert_eq!(conns.dispatch_response(id, vec![0xe0, 0x00], true), ResponseOutcome::QueuedThenClose);
    assert!(conns.close_connect(id));
    assert!(conns.get_connect(id).is_none());
}

#[test]
fn qos1_duplicate_is_acked_and_stored_once() {
    let mut c = command();
    c.apply(7, connect("admin", "pwd123"));
    match c.apply(7, publish(QoS::AtLeastOnce, 7, false, b"x")) {
        Some(MQTTPacket::PubAck { pkid, reason }) => {
            assert_eq!(pkid, 7);
            assert_eq!(reason, PubAckReason::Success);
        }
        _ => panic!("expected a PubAck"),
    }
    match c.apply(7, publish(QoS::AtLeastOnce, 7, true, b"x")) {
        Some(MQTTPacket::PubAck { pkid, reason }) => {
            assert_eq!(pkid, 7);
            assert_eq!(reason, PubAckReason::Success);
        }
        _ => panic!("expected a PubAck"),
    }
    assert_eq!(shard_len(&c, "t/a"), 1);
    assert!(matches!(c.apply(7, publish(QoS::ExactlyOnce, 8, false, b"y")), Some(MQTTPacket::PubRec { pkid: 8, .. })));
    assert_eq!(shard_len(&c, "t/a"), 2);
}

#[test]
fn wrong_password_is_refused_and_publish_without_session_dropped() {
    let mut c = command();
    match c.apply(1, connect("admin", "nope")) {
        Some(MQTTPacket::ConnAck { reason, .. }) => assert_eq!(reason, ConnectReason::BadUserNameOrPassword),
        _ => panic!("expected a ConnAck"),
    }
    match c.apply(1, connect("ghost", "pwd123")) {
        Some(MQTTPacket::ConnAck { reason, .. }) => assert_eq!(reason, ConnectReason::BadUserNameOrPassword),
        _ => panic!("expected a ConnAck"),
    }
    assert!(c.apply(1, publish(QoS::AtLeastOnce, 1, false, b"x")).is_none());
    assert_eq!(shard_len(&c, "t/a"), 0);
    assert!(matches!(c.apply(1, MQTTPacket::PingReq), Some(MQTTPacket::PingResp)));
    assert!(c.apply(1, MQTTPacket::PingResp).is_none());
}

#[test]
fn shared_subscribe_joins_and_unsubscribe_leaves_the_group() {
    let mut c = command();
    c.apply(3, connect("admin", "pwd123"));
    let sub = MQTTPacket::Subscribe {
        pkid: 4,
        filters: vec![("$share/g/t/x".to_string(), QoS::AtLeastOnce), ("plain/topic".to_string(), QoS::AtMostOnce)],
    };
    match c.apply(3, sub) {
        Some(MQTTPacket::SubAck { pkid, granted }) => {
            assert_eq!(pkid, 4);
            assert_eq!(granted, vec![QoS::AtLeastOnce, QoS::AtMostOnce]);
        }
        _ => panic!("expected a SubAck"),
    }
    assert_eq!(c.share_subs.member_count(&"t/x".to_string()), 1);
    assert_eq!(c.share_subs.groups[0].members[0].client_id, "c1".to_string());
    assert_eq!(c.share_subs.groups[0].members[0].connection_id, Some(3));
    let unsub = MQTTPacket::Unsubscribe { pkid: 5, filters: vec!["$share/g/t/x".to_string()] };
    assert!(matches!(c.apply(3, unsub), Some(MQTTPacket::UnsubAck { pkid: 5 })));
    assert_eq!(c.share_subs.member_count(&"t/x".to_string()), 0);
    assert!(matches!(c.apply(3, MQTTPacket::PubRel { pkid: 9 }), Some(MQTTPacket::PubComp { pkid: 9 })));
    let stray = MQTTPacket::Subscribe { pkid: 1, filters: vec![("a".to_string(), QoS::AtMostOnce)] };
    assert!(c.apply(99, stray).is_none());
}

#[test]
fn unknown_user_is_fetched_then_checked() {
    let mut c = Command::new(MemoryStorageAdapter::new(), Vec::new(), false, 1);
    let packet = connect("admin", "pwd123");
    assert_eq!(c.user_to_fetch(&packet), Some("admin".to_string()));
    assert_eq!(c.user_to_fetch(&MQTTPacket::PingReq), None);
    let fetched = Some(MQTTUser { username: "admin".to_string(), password: "pwd123".to_string(), is_superuser: false });
    match c.finish_connect(1, "c1".to_string(), Login { username: "admin".to_string(), password: "pwd123".to_string() }, MqttProtocol::Mqtt5, fetched) {
        MQTTPacket::ConnAck { session_present, reason } => {
            assert!(!session_present);
            assert_eq!(reason, ConnectReason::Success);
        }
        _ => panic!("expected a ConnAck"),
    }
    assert!(c.sessions.contains_key(&1));
    assert_eq!(c.users.len(), 1);
    // the user is cached now: a second Connect is decided without a fetch
    assert_eq!(c.user_to_fetch(&connect("admin", "pwd123")), None);
    match c.finish_connect(2, "c2".to_string(), Login { username: "ghost".to_string(), password: "x".to_string() }, MqttProtocol::Mqtt4, None) {
        MQTTPacket::ConnAck { reason, .. } => assert_eq!(reason, ConnectReason::BadUserNameOrPassword),
        _ => panic!("expected a ConnAck"),
    }
    assert!(!c.sessions.contains_key(&2));
    let secret_free = Command::new(MemoryStorageAdapter::new(), Vec::new(), true, 1);
    assert_eq!(secret_free.user_to_fetch(&connect("admin", "pwd123")), None);
}

#[test]
fn stored_publishes_keep_their_qos() {
    let mut c = command();
    c.apply(1, connect("admin", "pwd123"));
    c.apply(1, publish(QoS::AtLeastOnce, 3, false, b"x"));
    c.apply(1, publish(QoS::AtMostOnce, 0, false, b"y"));
    let first = c.storage.stream_read_by_offset("t/a".to_string(), 0).unwrap();
    let second = c.storage.stream_read_by_offset("t/a".to_string(), 1).unwrap();
    assert_eq!(record_qos(&first), Some(QoS::AtLeastOnce));
    assert_eq!(record_qos(&second), Some(QoS::AtMostOnce));
    assert_eq!(record_qos(&robustmq::storage::Record::build_b(vec![1])), None);
}

#[test]
fn disconnect_leaves_share_groups() {
    let mut c = command();
    c.apply(1, connect("admin", "pwd123"));
    c.apply(1, MQTTPacket::Subscribe { pkid: 1, filters: vec![("$share/g/t/x".to_string(), QoS::AtMostOnce)] });
    assert_eq!(c.share_subs.member_count(&"t/x".to_string()), 1);
    c.apply(1, MQTTPacket::Disconnect { reason: DisconnectReason::NormalDisconnection });
    assert_eq!(c.share_subs.member_count(&"t/x".to_string()), 0);
    assert!(!c.close_session(1));
}
