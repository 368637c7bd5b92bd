use kinesis_consumer::exception::Exception;
use kinesis_consumer::item::{
    classify, decode_leases, get_attr, lease_from_attrs, lease_to_attrs, list_all_leases,
    string_from_attr, u64_from_attr, Attribute, AttributeError, AttributeValue,
};
use kinesis_consumer::lease::Lease;
use kinesis_consumer::record::{
    ends_shard, initialization_input, process_records_input, ChildShard, KinesisClientRecord,
    RawRecord,
};
use kinesis_consumer::lease::ShardInfo;
use kinesis_consumer::shard::{ShardCache, StreamLayout};

fn name(text: &str) -> String {
    text.to_string()
}

fn text_attr(attribute: &str, text: &str) -> Attribute {
    Attribute {
        name: name(attribute),
        value: AttributeValue { s: Some(name(text)), n: None, b: None, null: None },
    }
}

fn number_attr(attribute: &str, text: &str) -> Attribute {
    Attribute {
        name: name(attribute),
        value: AttributeValue { s: None, n: Some(name(text)), b: None, null: None },
    }
}

fn null_attr(attribute: &str) -> Attribute {
    Attribute {
        name: name(attribute),
        value: AttributeValue { s: None, n: None, b: None, null: Some(true) },
    }
}

fn bytes_attr(attribute: &str, bytes: &[u8]) -> Attribute {
    Attribute {
        name: name(attribute),
        value: AttributeValue { s: None, n: None, b: Some(bytes.to_vec()), null: None },
    }
}

fn row(key: &str, owner: Option<&str>, counter: &str) -> Vec<Attribute> {
    let mut item = vec![number_attr("lease_counter", counter), text_attr("lease_key", key)];
    if let Some(owner) = owner {
        item.push(text_attr("lease_owner", owner));
    }
    item
}

fn shard(id: &str, parents: &[&str]) -> ShardInfo {
    ShardInfo {
        shard_id: name(id),
        parent_shard_ids: parents.iter().map(|p| name(p)).collect(),
    }
}

#[test]
fn lease_round_trips_through_a_row() {
    let mut owned = Lease::new(name("shard-1"), Some(name("worker-a")), 41);
    owned.last_renewal_nanos = 77;
    let unowned = Lease::new(name("shard-2"), None, u64::MAX);
    let marked = Lease::new(name("shard-3"), Some(name("worker-b")), 7)
        .with_checkpoint(Some(vec![0, 255, 17]));
    let empty_mark = Lease::new(name("shard-4"), None, 0).with_checkpoint(Some(Vec::new()));
    for lease in [owned, unowned, marked, empty_mark] {
        let item = lease_to_attrs(&lease);
        assert_eq!(item.len(), if lease.checkpoint.is_some() { 4 } else { 3 });
        let back = lease_from_attrs(&item).unwrap();
        assert_eq!(back.lease_key, lease.lease_key);
        assert_eq!(back.lease_owner, lease.lease_owner);
        assert_eq!(back.lease_counter, lease.lease_counter);
        assert_eq!(back.checkpoint, lease.checkpoint);
        assert_eq!(back.last_renewal_nanos, 0);
    }
}

#[test]
fn checkpoint_is_optional_bytes() {
    let mut item = row("s1", Some("W1"), "3");
    assert_eq!(lease_from_attrs(&item).unwrap().checkpoint, None);
    item.push(bytes_attr("checkpoint", &[1, 2, 3]));
    assert_eq!(lease_from_attrs(&item).unwrap().checkpoint, Some(vec![1, 2, 3]));
    let mut item = row("s1", Some("W1"), "3");
    item.push(null_attr("checkpoint"));
    assert_eq!(lease_from_attrs(&item).unwrap().checkpoint, None);
    let mut item = row("s1", Some("W1"), "3");
    item.push(text_attr("checkpoint", "abc"));
    assert_eq!(lease_from_attrs(&item), Err(AttributeError::InvalidType));
    let written = lease_to_attrs(&Lease::new(name("s1"), None, 1).with_checkpoint(Some(vec![9])));
    assert_eq!(written[3], bytes_attr("checkpoint", &[9]));
}

#[test]
fn row_is_written_with_named_attributes() {
    let item = lease_to_attrs(&Lease::new(name("shard-1"), Some(name("worker-a")), 120));
    assert_eq!(item[0], text_attr("lease_key", "shard-1"));
    assert_eq!(item[1], text_attr("lease_owner", "worker-a"));
    assert_eq!(item[2], number_attr("lease_counter", "120"));
    let item = lease_to_attrs(&Lease::new(name("shard-1"), None, 0));
    assert_eq!(item[1], null_attr("lease_owner"));
    assert_eq!(item[2], number_attr("lease_counter", "0"));
}

#[test]
fn owner_is_optional_in_a_row() {
    let lease = lease_from_attrs(&row("s1", None, "3")).unwrap();
    assert_eq!(
        lease,
        Lease {
            lease_key: name("s1"),
            lease_owner: None,
            last_renewal_nanos: 0,
            lease_counter: 3,
            checkpoint: None,
        }
    );
    let mut item = row("s1", None, "3");
    item.push(null_attr("lease_owner"));
    assert_eq!(lease_from_attrs(&item).unwrap().lease_owner, None);
    let lease = lease_from_attrs(&row("s1", Some("W9"), "3")).unwrap();
    assert_eq!(lease.lease_owner, Some(name("W9")));
}

#[test]
fn missing_key_is_reported_by_name() {
    let item = vec![number_attr("lease_counter", "3")];
    assert_eq!(
        lease_from_attrs(&item),
        Err(AttributeError::MissingField { name: name("lease_key") })
    );
    let item = vec![text_attr("lease_key", "s1")];
    assert_eq!(
        lease_from_attrs(&item),
        Err(AttributeError::MissingField { name: name("lease_counter") })
    );
}

#[test]
fn wrong_type_and_format_are_told_apart() {
    let item = vec![number_attr("lease_key", "5"), number_attr("lease_counter", "3")];
    assert_eq!(lease_from_attrs(&item), Err(AttributeError::InvalidType));
    let item = vec![text_attr("lease_key", "s1"), text_attr("lease_counter", "3")];
    assert_eq!(lease_from_attrs(&item), Err(AttributeError::InvalidType));
    let item = vec![text_attr("lease_key", "s1"), number_attr("lease_counter", "three")];
    assert_eq!(lease_from_attrs(&item), Err(AttributeError::InvalidFormat));
    let item = vec![text_attr("lease_key", "s1"), number_attr("lease_counter", "-3")];
    assert_eq!(lease_from_attrs(&item), Err(AttributeError::InvalidFormat));
    let item = vec![
        text_attr("lease_key", "s1"),
        number_attr("lease_owner", "1"),
        number_attr("lease_counter", "3"),
    ];
    assert_eq!(lease_from_attrs(&item), Err(AttributeError::InvalidType));
    assert_eq!(string_from_attr(&null_attr("x").value), Err(AttributeError::InvalidType));
    assert_eq!(u64_from_attr(&number_attr("x", "18446744073709551615").value), Ok(u64::MAX));
    assert_eq!(
        u64_from_attr(&number_attr("x", "18446744073709551616").value),
        Err(AttributeError::InvalidFormat)
    );
}

#[test]
fn first_attribute_of_a_name_is_read() {
    let item = vec![
        text_attr("lease_key", "first"),
        text_attr("lease_key", "second"),
        number_attr("lease_counter", "1"),
    ];
    assert_eq!(lease_from_attrs(&item).unwrap().lease_key, "first");
    assert_eq!(get_attr(&item, "lease_key"), Some(&text_attr("lease_key", "first").value));
    assert_eq!(get_attr(&item, "lease_owner"), None);
}

#[test]
fn unreadable_rows_are_classified_as_non_retryable() {
    assert_eq!(
        classify(AttributeError::InvalidFormat),
        Exception::NonRetryable(name("Attribute contains an invalid format"))
    );
    assert_eq!(
        classify(AttributeError::InvalidType),
        Exception::NonRetryable(name("Attribute contains invalid type"))
    );
    assert_eq!(
        classify(AttributeError::MissingField { name: name("lease_key") }),
        Exception::NonRetryable(name("Attribute 'lease_key' was missing"))
    );
}

#[test]
fn scan_fails_on_the_first_unreadable_row() {
    let items = vec![
        row("s1", Some("W1"), "1"),
        vec![text_attr("lease_key", "s2"), number_attr("lease_counter", "x")],
        vec![number_attr("lease_counter", "1")],
    ];
    assert_eq!(
        list_all_leases(&items),
        Err(Exception::NonRetryable(name("Attribute contains an invalid format")))
    );
    let items = vec![row("s1", Some("W1"), "1"), row("s2", None, "0")];
    let leases = list_all_leases(&items).unwrap();
    assert_eq!(leases.len(), 2);
    assert_eq!(leases[0].lease_key, "s1");
    assert_eq!(leases[1].lease_key, "s2");
    assert_eq!(list_all_leases(&Vec::new()), Ok(Vec::new()));
}

#[test]
fn malformed_lease_is_set_aside_and_the_rest_is_read() {
    let mut items = Vec::new();
    for i in 0..10 {
        if i == 4 {
            items.push(vec![text_attr("lease_owner", "W1"), number_attr("lease_counter", "1")]);
        } else {
            items.push(row(&format!("s{}", i), Some("W1"), "1"));
        }
    }
    let outcome = decode_leases(&items);
    assert_eq!(outcome.leases.len(), 9);
    assert_eq!(
        outcome.rejected,
        vec![Exception::NonRetryable(name("Attribute 'lease_key' was missing"))]
    );
    assert!(!outcome.rejected[0].is_retryable());
    let keys: Vec<String> = outcome.leases.iter().map(|l| l.lease_key.clone()).collect();
    assert_eq!(keys, vec!["s0", "s1", "s2", "s3", "s5", "s6", "s7", "s8", "s9"]);
    assert_eq!(
        list_all_leases(&items),
        Err(Exception::NonRetryable(name("Attribute 'lease_key' was missing")))
    );
}

#[test]
fn delivered_record_is_handed_on_unchanged() {
    let raw = RawRecord {
        sequence_number: name("49590338271490256608559692538361571095921575989136588898"),
        data: vec![1, 2, 3],
        partition_key: name("pk"),
        encryption_type: Some(name("KMS")),
    };
    let record = KinesisClientRecord::from_record(raw.clone());
    assert_eq!(record.sequence_number, raw.sequence_number);
    assert_eq!(record.data, vec![1, 2, 3]);
    assert_eq!(record.partition_key, "pk");
    assert_eq!(record.encryption_type, Some(name("KMS")));
    assert_eq!(record.sub_sequence_number, None);
    assert_eq!(record.explicit_hash_key, None);
    assert!(!record.aggregated);
}

#[test]
fn batch_keeps_the_order_of_delivery() {
    let delivered: Vec<RawRecord> = (0..5u8)
        .map(|i| RawRecord {
            sequence_number: format!("{}", i),
            data: vec![i],
            partition_key: name("pk"),
            encryption_type: None,
        })
        .collect();
    let children = vec![ChildShard { shard_id: name("s1a"), parent_shards: vec![name("s1")] }];
    assert!(ends_shard(&children));
    assert!(!ends_shard(&Vec::new()));
    let input = process_records_input(delivered, true, children.clone());
    assert!(input.is_at_shard_end);
    assert_eq!(input.child_shards, children);
    let sequence: Vec<String> = input.records.iter().map(|r| r.sequence_number.clone()).collect();
    assert_eq!(sequence, vec!["0", "1", "2", "3", "4"]);
    assert_eq!(input.records[3].data, vec![3]);
    let empty = process_records_input(Vec::new(), false, Vec::new());
    assert!(empty.records.is_empty());
    let start = initialization_input(&shard("s1", &[]));
    assert_eq!(start.shard_id, "s1");
    assert_eq!(start.pending_checkpoint_state, None);
}

#[test]
fn shard_cache_answers_until_it_is_too_old() {
    let mut cache = ShardCache::new(100);
    assert!(cache.cache_is_expired(0));
    assert_eq!(cache.get_shard(&name("s1"), 0).map(|s| s.shard_id), None);
    cache.refresh(&vec![shard("s1", &[]), shard("s2", &["s1"]), shard("s1", &["s0"])], 1_000);
    assert_eq!(cache.last_cache_update, Some(1_000));
    assert!(!cache.cache_is_expired(1_000));
    assert!(!cache.cache_is_expired(1_100));
    assert!(cache.cache_is_expired(1_101));
    assert!(!cache.cache_is_expired(5));
    let all = cache.get_all_shards(1_050);
    assert_eq!(all.len(), 2);
    assert_eq!(all[0].shard_id, "s1");
    assert_eq!(all[0].parent_shard_ids, vec![name("s0")]);
    assert_eq!(all[1].shard_id, "s2");
    assert_eq!(cache.get_shard(&name("s2"), 1_100).unwrap().parent_shard_ids, vec![name("s1")]);
    assert!(cache.get_shard(&name("s3"), 1_100).is_none());
    assert!(cache.get_shard(&name("s2"), 1_101).is_none());
    assert!(cache.get_all_shards(1_101).is_empty());
    let mut late = ShardCache::new(u64::MAX);
    late.refresh(&Vec::new(), u64::MAX);
    assert!(!late.cache_is_expired(u64::MAX));
}

#[test]
fn shard_listing_follows_the_tokens() {
    let mut layout = StreamLayout::new(name("orders"));
    let first = layout.list_shards();
    assert_eq!(first.stream_name, Some(name("orders")));
    assert_eq!(first.next_token, None);
    let second = layout.get_shards(vec![shard("s1", &[]), shard("s2", &[])], Some(name("t1")));
    let second = second.unwrap();
    assert_eq!(second.stream_name, Some(name("orders")));
    assert_eq!(second.next_token, Some(name("t1")));
    assert!(layout.get_shards(vec![shard("s3", &[])], None).is_none());
    let ids: Vec<String> = layout.collected.iter().map(|s| s.shard_id.clone()).collect();
    assert_eq!(ids, vec!["s1", "s2", "s3"]);
    layout.list_shards();
    assert!(layout.collected.is_empty());
}
