use robustmq::client_pool::{ClientPool, CommonError, ServiceTag, module_name, pool_key};
use robustmq::retry::{retry_sleep_time, retry_times, RetryAction, RetryState, MAX_RETRY_SLEEP_SECONDS};

#[test]
fn heartbeat_retries_twice_then_succeeds() {
    let mut st = RetryState::new();
    let mut sleeps = Vec::new();
    let results = [false, false, true];
    let mut attempts = 0;
    for ok in results {
        attempts += 1;
        if ok {
            break;
        }
        match st.on_error(false) {
            RetryAction::Sleep(s) => sleeps.push(s),
            _ => panic!("gave up too early"),
        }
    }
    assert_eq!(attempts, 3);
    assert_eq!(sleeps, vec![retry_sleep_time(1), retry_sleep_time(2)]);
    assert_eq!(sleeps, vec![1, 2]);
}

#[test]
fn persistent_failure_surfaces_after_retry_times_plus_one_attempts() {
    assert_eq!(retry_times(), 5);
    let mut st = RetryState::new();
    let mut attempts = 0;
    loop {
        attempts += 1;
        match st.on_error(false) {
            RetryAction::Sleep(_) => continue,
            RetryAction::Fail => break,
            RetryAction::Cancelled => panic!("not cancelled"),
        }
    }
    assert_eq!(attempts, 6);
}

#[test]
fn cancel_stops_before_sleeping() {
    let mut st = RetryState::new();
    assert!(matches!(st.on_error(true), RetryAction::Cancelled));
}

#[test]
fn sleep_time_is_capped_and_monotonic() {
    assert_eq!(retry_sleep_time(0), 0);
    assert_eq!(retry_sleep_time(3), 3);
    assert_eq!(retry_sleep_time(1000), MAX_RETRY_SLEEP_SECONDS);
    let mut prev = 0;
    for t in 0..50 {
        let s = retry_sleep_time(t);
        assert!(s >= prev);
        prev = s;
    }
}

#[test]
fn pool_keys_name_server_module_and_address() {
    let a = "127.0.0.1:1228".to_string();
    assert_eq!(pool_key(ServiceTag::PlacementInner, &a), "PlacementServer_PlacementService_127.0.0.1:1228");
    assert_eq!(pool_key(ServiceTag::PlacementJournal, &a), "JournalServer_JournalService_127.0.0.1:1228");
    assert_eq!(pool_key(ServiceTag::PlacementKv, &a), "PlacementCenter_KvServices_127.0.0.1:1228");
    assert_eq!(pool_key(ServiceTag::PlacementMqtt, &a), "PlacementCenter_MqttServices_127.0.0.1:1228");
    assert_eq!(pool_key(ServiceTag::BrokerMqtt, &a), "MQTTBroker_BrokerMqttServices_127.0.0.1:1228");
    assert_eq!(module_name(ServiceTag::PlacementKv), "KvServices".to_string());
}

#[test]
fn one_pool_per_key() {
    let mut p = ClientPool::new(1);
    let a = "127.0.0.1:1228".to_string();
    let (k1, created1) = p.get_or_register(ServiceTag::PlacementInner, &a);
    let (k2, created2) = p.get_or_register(ServiceTag::PlacementInner, &a);
    let (_, created3) = p.get_or_register(ServiceTag::PlacementKv, &a);
    assert!(created1);
    assert!(!created2);
    assert!(created3);
    assert_eq!(k1, k2);
    assert_eq!(p.pool_keys.len(), 2);
    assert!(p.has_pool(&k1));
    assert_eq!(p.max_open_connection, 1);
}

#[test]
fn no_channel_error_names_module() {
    match ClientPool::no_available_channel(ServiceTag::PlacementJournal, "timeout".to_string()) {
        CommonError::NoAvailableGrpcConnection(m, why) => {
            assert_eq!(m, "JournalService".to_string());
            assert_eq!(why, "timeout".to_string());
        }
    }
}
