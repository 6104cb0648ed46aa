use robustmq::storage::{offset_key_outside_shard, MemoryStorageAdapter, Record, ShardConfig};

#[test]
fn stream_read_write() {
    let mut storage_adapter = MemoryStorageAdapter::new();
    let shard_name = "test-11".to_string();
    let ms1 = "test1".to_string();
    let ms2 = "test2".to_string();
    let data = vec![
        Record::build_b(ms1.clone().as_bytes().to_vec()),
        Record::build_b(ms2.clone().as_bytes().to_vec()),
    ];

    let result = storage_adapter.stream_write(shard_name.clone(), data).unwrap();
    assert_eq!(result.get(0).unwrap().clone(), 0);
    assert_eq!(result.get(1).unwrap().clone(), 1);
    assert!(storage_adapter.shard_data.contains_key(&shard_name));
    assert_eq!(storage_adapter.shard_data.get(&shard_name).unwrap().len(), 2);

    let ms3 = "test3".to_string();
    let ms4 = "test4".to_string();
    let data = vec![
        Record::build_b(ms3.clone().as_bytes().to_vec()),
        Record::build_b(ms4.clone().as_bytes().to_vec()),
    ];

    let result = storage_adapter.stream_write(shard_name.clone(), data).unwrap();
    assert_eq!(result.get(0).unwrap().clone(), 2);
    assert_eq!(result.get(1).unwrap().clone(), 3);
    assert!(storage_adapter.shard_data.contains_key(&shard_name));
    assert_eq!(storage_adapter.shard_data.get(&shard_name).unwrap().len(), 4);

    let group_id = "test_group_id".to_string();
    let record_num = Some(1);
    let record_size = None;
    for expected in [&ms1, &ms2, &ms3, &ms4] {
        let res = storage_adapter
            .stream_read(shard_name.clone(), group_id.clone(), record_num, record_size)
            .unwrap();
        assert_eq!(
            String::from_utf8(res.get(0).unwrap().clone().data).unwrap(),
            *expected
        );
        storage_adapter.stream_commit_offset(
            shard_name.clone(),
            group_id.clone(),
            res.get(0).unwrap().clone().offset,
        );
    }
}

fn payloads(recs: &[Record]) -> Vec<Vec<u8>> {
    recs.iter().map(|r| r.data.clone()).collect()
}

#[test]
fn read_of_missing_shard_is_none() {
    let s = MemoryStorageAdapter::new();
    assert!(s.stream_read("nope".to_string(), "g".to_string(), None, None).is_none());
    assert!(s.stream_read_by_offset("nope".to_string(), 0).is_none());
}

#[test]
fn read_defaults_to_ten_records_with_increasing_offsets() {
    let mut s = MemoryStorageAdapter::new();
    let data: Vec<Record> = (0..15u8).map(|i| Record::build_b(vec![i])).collect();
    s.stream_write("sh".to_string(), data).unwrap();
    let batch = s.stream_read("sh".to_string(), "g".to_string(), None, None).unwrap();
    assert_eq!(batch.len(), 10);
    for w in batch.windows(2) {
        assert!(w[0].offset < w[1].offset);
    }
    assert_eq!(batch[0].offset, 0);
    assert_eq!(batch[9].offset, 9);
}

#[test]
fn read_after_commit_starts_after_committed_offset() {
    let mut s = MemoryStorageAdapter::new();
    let data: Vec<Record> = (0..6u8).map(|i| Record::build_b(vec![i])).collect();
    s.stream_write("sh".to_string(), data).unwrap();
    assert!(s.stream_commit_offset("sh".to_string(), "g".to_string(), 3));
    let batch = s.stream_read("sh".to_string(), "g".to_string(), Some(100), None).unwrap();
    assert_eq!(payloads(&batch), vec![vec![4u8], vec![5u8]]);
    assert!(batch.iter().all(|r| r.offset > 3));
    // a lower commit does not move the group back
    s.stream_commit_offset("sh".to_string(), "g".to_string(), 1);
    assert_eq!(s.get_offset("g".to_string(), "sh".to_string()), Some(3));
    // committing the last offset leaves an empty batch
    s.stream_commit_offset("sh".to_string(), "g".to_string(), 5);
    let batch = s.stream_read("sh".to_string(), "g".to_string(), None, None).unwrap();
    assert!(batch.is_empty());
    // another group still reads from the start
    let other = s.stream_read("sh".to_string(), "h".to_string(), Some(2), None).unwrap();
    assert_eq!(payloads(&other), vec![vec![0u8], vec![1u8]]);
}

#[test]
fn write_then_read_by_offset_returns_payload() {
    let mut s = MemoryStorageAdapter::new();
    s.stream_write("sh".to_string(), vec![Record::build_b(b"a".to_vec())]).unwrap();
    let offs = s.stream_write(
        "sh".to_string(),
        vec![
            Record::build_e("k".to_string(), b"b".to_vec()),
            Record::build_b(b"c".to_vec()),
        ],
    )
    .unwrap();
    assert_eq!(offs, vec![1, 2]);
    let r = s.stream_read_by_offset("sh".to_string(), offs[0]).unwrap();
    assert_eq!(r.data, b"b".to_vec());
    assert_eq!(r.key, Some("k".to_string()));
    assert_eq!(r.offset, 1);
    assert!(s.stream_read_by_offset("sh".to_string(), 3).is_none());
}

#[test]
fn offset_key_joins_group_and_shard() {
    let s = MemoryStorageAdapter::new();
    assert_eq!(s.offset_key("g1".to_string(), "s1".to_string()), ("g1".to_string(), "s1".to_string()));
    assert_eq!(s.get_offset("g1".to_string(), "s1".to_string()), None);
}

#[test]
fn create_shard_is_idempotent_and_delete_removes_it() {
    let mut s = MemoryStorageAdapter::new();
    s.create_shard("sh".to_string(), ShardConfig::new());
    assert_eq!(s.stream_read("sh".to_string(), "g".to_string(), None, None).unwrap().len(), 0);
    s.stream_write("sh".to_string(), vec![Record::build_b(vec![1])]).unwrap();
    s.create_shard("sh".to_string(), ShardConfig::new());
    assert_eq!(s.stream_read("sh".to_string(), "g".to_string(), None, None).unwrap().len(), 1);
    s.delete_shard("sh".to_string());
    assert!(s.stream_read("sh".to_string(), "g".to_string(), None, None).is_none());
}

#[test]
fn key_value_operations() {
    let mut s = MemoryStorageAdapter::new();
    assert!(!s.contains("k".to_string()));
    assert!(s.get("k".to_string()).is_none());
    s.set("k".to_string(), Record::build_b(b"v1".to_vec()));
    assert!(s.contains("k".to_string()));
    s.set("k".to_string(), Record::build_b(b"v2".to_vec()));
    assert_eq!(s.get("k".to_string()).unwrap().data, b"v2".to_vec());
    s.delete("k".to_string());
    assert!(!s.contains("k".to_string()));
    assert!(s.stream_read_by_key("sh".to_string(), "k".to_string()).is_none());
    assert!(s.stream_read_by_timestamp("sh".to_string(), 0, 10, None, None).is_none());
}

#[test]
fn duplicate_copies_every_field() {
    let r = Record {
        offset: 9,
        key: Some("k".to_string()),
        headers: vec![("h".to_string(), "v".to_string())],
        data: vec![1, 2],
        timestamp: 77,
    };
    let d = r.duplicate();
    assert_eq!(d.offset, 9);
    assert_eq!(d.key, Some("k".to_string()));
    assert_eq!(d.headers, vec![("h".to_string(), "v".to_string())]);
    assert_eq!(d.data, vec![1, 2]);
    assert_eq!(d.timestamp, 77);
}

#[test]
fn delete_shard_drops_committed_offsets() {
    let mut s = MemoryStorageAdapter::new();
    s.stream_write("sh".to_string(), vec![Record::build_b(vec![1]), Record::build_b(vec![2])]).unwrap();
    s.stream_write("other".to_string(), vec![Record::build_b(vec![9])]).unwrap();
    s.stream_commit_offset("sh".to_string(), "g".to_string(), 0);
    s.stream_commit_offset("other".to_string(), "g".to_string(), 0);
    s.delete_shard("sh".to_string());
    assert_eq!(s.get_offset("g".to_string(), "sh".to_string()), None);
    assert_eq!(s.get_offset("g".to_string(), "other".to_string()), Some(0));
    s.stream_write("sh".to_string(), vec![Record::build_b(vec![3])]).unwrap();
    let batch = s.stream_read("sh".to_string(), "g".to_string(), None, None).unwrap();
    assert_eq!(payloads(&batch), vec![vec![3u8]]);
}

#[test]
fn offset_keys_are_matched_by_shard_name() {
    assert!(!offset_key_outside_shard(&("g".to_string(), "sh".to_string()), &"sh".to_string()));
    assert!(offset_key_outside_shard(&("g".to_string(), "a_sh".to_string()), &"sh".to_string()));
    assert!(offset_key_outside_shard(&("g_sh".to_string(), "x".to_string()), &"sh".to_string()));
}

#[test]
fn delete_shard_keeps_offsets_of_shards_with_similar_names() {
    let mut s = MemoryStorageAdapter::new();
    s.stream_write("a_b".to_string(), vec![Record::build_b(vec![1]), Record::build_b(vec![2])]).unwrap();
    s.stream_write("b".to_string(), vec![Record::build_b(vec![3])]).unwrap();
    s.stream_commit_offset("a_b".to_string(), "g".to_string(), 0);
    s.stream_commit_offset("b".to_string(), "g_a".to_string(), 0);
    assert_eq!(s.get_offset("g".to_string(), "a_b".to_string()), Some(0));
    assert_eq!(s.get_offset("g_a".to_string(), "b".to_string()), Some(0));
    s.delete_shard("b".to_string());
    assert_eq!(s.get_offset("g".to_string(), "a_b".to_string()), Some(0));
    assert_eq!(s.get_offset("g_a".to_string(), "b".to_string()), None);
}
