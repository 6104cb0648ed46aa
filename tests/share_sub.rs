use robustmq::share_sub::{
    after_stop, build_share_publish, decode_share_info, is_share_sub, min_qos, parse_strategy,
    pull_group_id, pull_step, response_queue_for, scan_topic, LeaderSlots, MqttProtocol,
    PullAction, QoS, ResponseQueue, ScanAction, ShareSelector, ShareStrategy, ShareSubscriber,
    PULL_MAX_WAIT_MS, shared_topic_name, ShareSubRegistry,
};

#[test]
fn is_share_sub_test() {
    let sub1 = "$share/consumer1/sport/tennis/+".to_string();
    let sub2 = "$share/consumer2/sport/tennis/+".to_string();
    let sub3 = "$share/consumer1/sport/#".to_string();
    let sub4 = "$share/comsumer1/finance/#".to_string();

    assert!(is_share_sub(sub1));
    assert!(is_share_sub(sub2));
    assert!(is_share_sub(sub3));
    assert!(is_share_sub(sub4));

    let sub5 = "/comsumer1/$share/finance/#".to_string();
    let sub6 = "/comsumer1/$share/finance/$share".to_string();

    assert!(!is_share_sub(sub5));
    assert!(!is_share_sub(sub6));
}

#[test]
fn decode_share_info_test() {
    let sub1 = "$share/consumer1/sport/tennis/+".to_string();
    let sub2 = "$share/consumer2/sport/tennis/+".to_string();
    let sub3 = "$share/consumer1/sport/#".to_string();
    let sub4 = "$share/comsumer1/finance/#".to_string();

    let (group_name, topic_name) = decode_share_info(sub1);
    assert_eq!(group_name, "consumer1".to_string());
    assert_eq!(topic_name, "/sport/tennis/+".to_string());

    let (group_name, topic_name) = decode_share_info(sub2);
    assert_eq!(group_name, "consumer2".to_string());
    assert_eq!(topic_name, "/sport/tennis/+".to_string());

    let (group_name, topic_name) = decode_share_info(sub3);
    assert_eq!(group_name, "consumer1".to_string());
    assert_eq!(topic_name, "/sport/#".to_string());

    let (group_name, topic_name) = decode_share_info(sub4);
    assert_eq!(group_name, "comsumer1".to_string());
    assert_eq!(topic_name, "/finance/#".to_string());
}

#[test]
fn short_paths_are_not_shared() {
    assert!(!is_share_sub("$sha".to_string()));
    assert!(!is_share_sub(String::new()));
    let (g, t) = decode_share_info("$share/g".to_string());
    assert_eq!(g, "g".to_string());
    assert_eq!(t, "/".to_string());
}

fn sub(name: &str, conn: Option<u64>, node: u64) -> ShareSubscriber {
    ShareSubscriber {
        client_id: name.to_string(),
        connection_id: conn,
        node_id: node,
        qos: QoS::AtLeastOnce,
        packet_identifier: 3,
        subscription_identifier: Some(11),
        protocol: MqttProtocol::Mqtt5,
    }
}

#[test]
fn round_robin_spreads_six_messages_over_three_members() {
    let subs = vec![sub("A", Some(1), 0), sub("B", Some(2), 0), sub("C", Some(3), 0)];
    let mut sel = ShareSelector::new(ShareStrategy::RoundRobin, 1, 0);
    let mut received: Vec<Vec<u32>> = vec![vec![], vec![], vec![]];
    for msg in 0..6u32 {
        let i = sel.select(&subs, 0, 0).unwrap();
        received[i].push(msg);
    }
    assert_eq!(received, vec![vec![0, 3], vec![1, 4], vec![2, 5]]);
}

#[test]
fn round_robin_skips_members_without_connection() {
    let subs = vec![sub("A", Some(1), 0), sub("B", None, 0), sub("C", Some(3), 0)];
    let mut sel = ShareSelector::new(ShareStrategy::RoundRobin, 1, 0);
    let picks: Vec<usize> = (0..4).map(|_| sel.select(&subs, 0, 0).unwrap()).collect();
    assert_eq!(picks, vec![0, 2, 0, 2]);
    let none = vec![sub("A", None, 0)];
    assert_eq!(sel.select(&none, 0, 0), None);
    assert_eq!(sel.select(&vec![], 0, 0), None);
}

#[test]
fn random_and_hash_pick_by_modulo() {
    let subs = vec![sub("A", Some(1), 0), sub("B", None, 0), sub("C", Some(3), 0)];
    let mut r = ShareSelector::new(ShareStrategy::Random, 1, 0);
    assert_eq!(r.select(&subs, 5, 0), Some(2));
    assert_eq!(r.select(&subs, 4, 0), None);
    let mut h = ShareSelector::new(ShareStrategy::Hash, 1, 0);
    assert_eq!(h.select(&subs, 0, 9), Some(0));
    assert_eq!(h.select(&subs, 0, 7), None);
}

#[test]
fn sticky_keeps_a_member_for_a_batch() {
    let subs = vec![sub("A", Some(1), 0), sub("B", Some(2), 0)];
    let mut s = ShareSelector::new(ShareStrategy::Sticky, 2, 0);
    let picks: Vec<usize> = (0..5).map(|_| s.select(&subs, 0, 0).unwrap()).collect();
    assert_eq!(picks, vec![0, 0, 1, 1, 0]);
}

#[test]
fn local_prefers_the_same_node() {
    let subs = vec![sub("A", Some(1), 1), sub("B", Some(2), 7), sub("C", Some(3), 7)];
    let mut l = ShareSelector::new(ShareStrategy::Local, 1, 7);
    assert_eq!(l.select(&subs, 0, 0), Some(1));
    let mut far = ShareSelector::new(ShareStrategy::Local, 1, 9);
    assert_eq!(far.select(&subs, 0, 0), Some(0));
    assert_eq!(far.select(&subs, 0, 0), Some(1));
}

#[test]
fn strategies_parse_by_name() {
    assert_eq!(parse_strategy(&"round_robin".to_string()), Some(ShareStrategy::RoundRobin));
    assert_eq!(parse_strategy(&"random".to_string()), Some(ShareStrategy::Random));
    assert_eq!(parse_strategy(&"sticky".to_string()), Some(ShareStrategy::Sticky));
    assert_eq!(parse_strategy(&"hash".to_string()), Some(ShareStrategy::Hash));
    assert_eq!(parse_strategy(&"local".to_string()), Some(ShareStrategy::Local));
    assert_eq!(parse_strategy(&"roundrobin".to_string()), None);
}

#[test]
fn publish_uses_lower_qos_and_marks_rewrite() {
    let s = sub("A", Some(1), 0);
    let p = build_share_publish(&s, 1, QoS::ExactlyOnce, "t/x".to_string(), b"hi".to_vec());
    assert_eq!(p.qos, QoS::AtLeastOnce);
    assert!(!p.retain);
    assert!(!p.dup);
    assert_eq!(p.pkid, 3);
    assert_eq!(p.topic, "t/x".to_string());
    assert_eq!(p.payload, b"hi".to_vec());
    assert_eq!(p.subscription_identifiers, vec![11]);
    assert_eq!(p.user_properties.len(), 1);
    assert_eq!(p.user_properties[0].0, "share_sub".to_string());
    assert_eq!(min_qos(QoS::AtMostOnce, QoS::ExactlyOnce), QoS::AtMostOnce);
    assert_eq!(min_qos(QoS::ExactlyOnce, QoS::ExactlyOnce), QoS::ExactlyOnce);
}

#[test]
fn protocol_selects_response_queue() {
    assert_eq!(response_queue_for(MqttProtocol::Mqtt3), ResponseQueue::V4);
    assert_eq!(response_queue_for(MqttProtocol::Mqtt4), ResponseQueue::V4);
    assert_eq!(response_queue_for(MqttProtocol::Mqtt5), ResponseQueue::V5);
}

#[test]
fn pull_loop_decisions() {
    assert_eq!(pull_group_id(&"t1".to_string()), "system_sub_t1".to_string());
    assert_eq!(pull_step(true, true, Some(4)), PullAction::Terminate);
    assert_eq!(pull_step(false, false, None), PullAction::Sleep(PULL_MAX_WAIT_MS));
    assert_eq!(pull_step(false, true, None), PullAction::Sleep(500));
    assert_eq!(pull_step(false, true, Some(4)), PullAction::CommitAndForward(4));
}

#[test]
fn leader_drains_when_subscribers_leave() {
    let both = LeaderSlots { pull: true, push: true };
    assert_eq!(scan_topic(0, both, ShareStrategy::RoundRobin), ScanAction::Stop { pull: true, push: true });
    assert_eq!(after_stop(both, true, true), LeaderSlots { pull: false, push: false });
    // a failed signal leaves the task to be signalled on the next scan
    let left = after_stop(both, true, false);
    assert_eq!(left, LeaderSlots { pull: false, push: true });
    assert_eq!(scan_topic(0, left, ShareStrategy::RoundRobin), ScanAction::Stop { pull: false, push: true });
    let none = LeaderSlots { pull: false, push: false };
    assert_eq!(
        scan_topic(2, none, ShareStrategy::Hash),
        ScanAction::Start { pull: true, push: Some(ShareStrategy::Hash) }
    );
    assert_eq!(scan_topic(2, both, ShareStrategy::Hash), ScanAction::Start { pull: false, push: None });
}

#[test]
fn shared_topic_names() {
    assert_eq!(shared_topic_name(&"$share/g/t/x".to_string()), Some("t/x".to_string()));
    assert_eq!(shared_topic_name(&"$share/g".to_string()), Some("".to_string()));
    assert_eq!(shared_topic_name(&"t/x".to_string()), None);
    assert_eq!(shared_topic_name(&"$share".to_string()), None);
}

#[test]
fn registry_keeps_one_group_per_topic() {
    let mut r = ShareSubRegistry::new();
    r.add_member("t".to_string(), sub("A", Some(1), 0));
    r.add_member("t".to_string(), sub("B", Some(2), 0));
    r.add_member("u".to_string(), sub("A", Some(1), 0));
    assert_eq!(r.groups.len(), 2);
    assert_eq!(r.member_count(&"t".to_string()), 2);
    assert_eq!(r.find(&"u".to_string()), Some(1));
    r.remove_member(&"t".to_string(), &"A".to_string());
    assert_eq!(r.member_count(&"t".to_string()), 1);
    assert_eq!(r.groups[0].members[0].client_id, "B".to_string());
    assert_eq!(r.member_count(&"u".to_string()), 1);
    r.remove_group(&"t".to_string());
    assert_eq!(r.find(&"t".to_string()), None);
    assert_eq!(r.member_count(&"t".to_string()), 0);
    assert_eq!(r.find(&"u".to_string()), Some(0));
}

#[test]
fn round_robin_cursor_moves_past_each_pick() {
    let subs = vec![sub("A", Some(1), 0), sub("B", Some(2), 0), sub("C", Some(3), 0)];
    let mut sel = ShareSelector::new(ShareStrategy::RoundRobin, 1, 0);
    assert_eq!(sel.select(&subs, 0, 0), Some(0));
    assert_eq!(sel.cursor, 1);
    assert_eq!(sel.select(&subs, 0, 0), Some(1));
    assert_eq!(sel.cursor, 2);
    let p = build_share_publish(&subs[0], 1, QoS::AtMostOnce, "t".to_string(), vec![]);
    assert_eq!(p.user_properties[0].1, "true".to_string());
}
