use robustmq::connection::{ConnectionError, ConnectionManager, NetworkConnectionType, ResponseOutcome};
use robustmq::dispatch::{DispatchStep, FanOut};
use robustmq::share_sub::MqttProtocol;

#[test]
fn child_seq_wraps_round() {
    assert_eq!(FanOut::child_seq(1, 3), 1);
    assert_eq!(FanOut::child_seq(3, 3), 3);
    assert_eq!(FanOut::child_seq(4, 3), 1);
    assert_eq!(FanOut::child_seq(8, 3), 2);
}

#[test]
fn fan_out_rotates_then_drops_when_every_child_is_full() {
    let mut f = FanOut::new(3);
    assert_eq!(f.target(), Some(1));
    assert!(matches!(f.on_rejected(), DispatchStep::Retry(2)));
    assert!(matches!(f.on_rejected(), DispatchStep::Retry(3)));
    assert!(matches!(f.on_rejected(), DispatchStep::Drop));
    assert_eq!(f.dropped, 1);
    assert_eq!(f.target(), Some(1));
    // the next packet goes through at the first child; the one after starts at the second
    f.on_delivered();
    assert_eq!(f.target(), Some(2));
    assert_eq!(f.dropped, 1);
}

#[test]
fn fan_out_without_children_drops() {
    let mut f = FanOut::new(0);
    assert_eq!(f.target(), None);
    assert!(matches!(f.on_rejected(), DispatchStep::Drop));
    assert_eq!(f.dropped, 1);
}

#[test]
fn connection_ceiling_refuses_the_next_client() {
    let mut m = ConnectionManager::new(2);
    let a = m.add_connection("127.0.0.1:1".to_string(), NetworkConnectionType::Tcp).unwrap();
    let b = m.add_connection("127.0.0.1:2".to_string(), NetworkConnectionType::Tcps).unwrap();
    assert_ne!(a, b);
    assert_eq!(
        m.add_connection("127.0.0.1:3".to_string(), NetworkConnectionType::Tcp),
        Err(ConnectionError::TooManyConnections)
    );
    assert_eq!(m.connection_count(), 2);
    assert!(m.close_connect(a));
    assert!(m.add_connection("127.0.0.1:3".to_string(), NetworkConnectionType::Tcp).is_ok());
}

#[test]
fn frames_leave_in_submission_order() {
    let mut m = ConnectionManager::new(10);
    let id = m.add_connection("a".to_string(), NetworkConnectionType::Tcp).unwrap();
    assert_eq!(m.write_tcp_frame(id, vec![1]), Err(ConnectionError::NoWriteSink(id)));
    m.add_write(id).unwrap();
    m.write_tcp_frame(id, vec![1]).unwrap();
    m.write_tcp_frame(id, vec![2]).unwrap();
    m.write_tcp_frame(id, vec![3]).unwrap();
    assert_eq!(m.take_outbound(id), vec![vec![1], vec![2], vec![3]]);
    assert!(m.take_outbound(id).is_empty());
    assert_eq!(m.add_write(999), Err(ConnectionError::NotFound(999)));
}

#[test]
fn write_failure_closes_and_later_responses_drop() {
    let mut m = ConnectionManager::new(10);
    let id = m.add_connection("a".to_string(), NetworkConnectionType::Websocket).unwrap();
    m.add_write(id).unwrap();
    assert_eq!(m.dispatch_response(id, vec![9], false), ResponseOutcome::Dropped);
    m.set_connect_protocol(id, MqttProtocol::Mqtt5).unwrap();
    assert_eq!(m.get_connect_protocol(id), Some(MqttProtocol::Mqtt5));
    assert_eq!(m.dispatch_response(id, vec![9], false), ResponseOutcome::Queued);
    // the peer closed: the writer reports failure and the connection is closed
    assert!(m.close_connect(id));
    assert!(m.get_connect(id).is_none());
    assert_eq!(m.dispatch_response(id, vec![10], false), ResponseOutcome::Dropped);
    assert_eq!(m.write_tcp_frame(id, vec![10]), Err(ConnectionError::NoWriteSink(id)));
    assert!(!m.close_connect(id));
    assert_eq!(m.set_connect_protocol(id, MqttProtocol::Mqtt4), Err(ConnectionError::NotFound(id)));
}

#[test]
fn disconnect_asks_for_teardown() {
    let mut m = ConnectionManager::new(10);
    let id = m.add_connection("a".to_string(), NetworkConnectionType::Quic).unwrap();
    m.add_write(id).unwrap();
    m.set_connect_protocol(id, MqttProtocol::Mqtt4).unwrap();
    assert_eq!(m.dispatch_response(id, vec![0xe0, 0], true), ResponseOutcome::QueuedThenClose);
    let c = m.get_connect(id).unwrap();
    assert_eq!(c.addr, "a".to_string());
    assert_eq!(c.connection_type, NetworkConnectionType::Quic);
}

#[test]
fn sink_stays_until_close() {
    let mut m = ConnectionManager::new(10);
    let a = m.add_connection("a".to_string(), NetworkConnectionType::Tcp).unwrap();
    let b = m.add_connection("b".to_string(), NetworkConnectionType::Tcp).unwrap();
    m.add_write(a).unwrap();
    m.add_write(b).unwrap();
    m.close_connect(b);
    assert!(m.write_tcp_frame(a, vec![1]).is_ok());
    assert!(m.write_tcp_frame(b, vec![1]).is_err());
}

#[test]
fn connection_ids_can_run_out() {
    let mut m = ConnectionManager::new(10);
    m.next_id = u64::MAX - 1;
    assert_eq!(m.add_connection("a".to_string(), NetworkConnectionType::Tcp), Ok(u64::MAX - 1));
    assert_eq!(
        m.add_connection("b".to_string(), NetworkConnectionType::Tcp),
        Err(ConnectionError::ConnectionIdExhausted)
    );
}

#[test]
fn fan_out_with_five_children_tries_each_once() {
    let mut f = FanOut::new(5);
    f.on_delivered();
    f.on_delivered();
    let mut tried = vec![f.target().unwrap()];
    loop {
        match f.on_rejected() {
            DispatchStep::Retry(c) => tried.push(c),
            DispatchStep::Drop => break,
        }
    }
    assert_eq!(tried, vec![3, 4, 5, 1, 2]);
    assert_eq!(f.dropped, 1);
    assert_eq!(f.target(), Some(3));
}
