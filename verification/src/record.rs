//! Records as the stream delivers them and as the processor receives them.
use vstd::prelude::*;
use crate::lease::ShardInfo;

verus! {

/// A record as the stream delivers it.
#[derive(Debug, Clone, PartialEq, Eq)]
pub struct RawRecord {
    pub sequence_number: String,
    pub data: Vec<u8>,
    pub partition_key: String,
    pub encryption_type: Option<String>,
}

/// A record as handed to the processor.
#[derive(Debug, Clone, PartialEq, Eq)]
pub struct KinesisClientRecord {
    pub sequence_number: String,
    pub data: Vec<u8>,
    pub partition_key: String,
    pub encryption_type: Option<String>,
    pub sub_sequence_number: Option<u64>,
    pub explicit_hash_key: Option<String>,
    pub aggregated: bool,
}

/// A shard that continues a shard which has ended.
#[derive(Debug, Clone, PartialEq, Eq)]
pub struct ChildShard {
    pub shard_id: String,
    pub parent_shards: Vec<String>,
}

/// What the processor receives when a consumer starts.
#[derive(Debug, Clone, PartialEq, Eq)]
pub struct InitializationInput {
    pub shard_id: String,
    pub pending_checkpoint_state: Option<Vec<u8>>,
}

/// What the processor receives with each batch.
#[derive(Debug, Clone, PartialEq, Eq)]
pub struct ProcessRecordsInput {
    pub records: Vec<KinesisClientRecord>,
    pub is_at_shard_end: bool,
    pub child_shards: Vec<ChildShard>,
}

impl KinesisClientRecord {
    /// The record handed to the processor for a delivered record: the same
    /// sequence number, payload, partition key and encryption type, not
    /// aggregated, with neither a sub-sequence number nor an explicit hash
    /// key.
    pub fn from_record(record: RawRecord) -> (decoded: KinesisClientRecord)
        ensures
            decoded.sequence_number == record.sequence_number,
            decoded.data == record.data,
            decoded.partition_key == record.partition_key,
            decoded.encryption_type == record.encryption_type,
            decoded.sub_sequence_number is None,
            decoded.explicit_hash_key is None,
            !decoded.aggregated,
    {
        KinesisClientRecord {
            sequence_number: record.sequence_number,
            data: record.data,
            partition_key: record.partition_key,
            encryption_type: record.encryption_type,
            sub_sequence_number: None,
            explicit_hash_key: None,
            aggregated: false,
        }
    }
}

/// Whether an event of the subscription marks the end of the shard: it does
/// when it names the shards that continue it.
pub fn ends_shard(child_shards: &Vec<ChildShard>) -> (ended: bool)
    ensures
        ended == (child_shards.len() > 0),
{
    child_shards.len() > 0
}

/// The input of the processor's `initialize` for the consumer of `shard`,
/// which carries no checkpoint.
pub fn initialization_input(shard: &ShardInfo) -> (input: InitializationInput)
    ensures
        input.shard_id@ == shard@.shard_id,
        input.pending_checkpoint_state is None,
{
    InitializationInput { shard_id: shard.shard_id.clone(), pending_checkpoint_state: None }
}

/// The input of the processor's `process_records` for one event of the
/// subscription: every delivered record decoded, in order.
pub fn process_records_input(
    delivered: Vec<RawRecord>,
    is_at_shard_end: bool,
    child_shards: Vec<ChildShard>,
) -> (input: ProcessRecordsInput)
    ensures
        input.is_at_shard_end == is_at_shard_end,
        input.child_shards == child_shards,
        input.records.len() == delivered.len(),
        forall|i: int|
            0 <= i < delivered.len() ==> {
                let decoded = #[trigger] input.records[i];
                &&& decoded.sequence_number == delivered[i].sequence_number
                &&& decoded.data == delivered[i].data
                &&& decoded.partition_key == delivered[i].partition_key
                &&& decoded.encryption_type == delivered[i].encryption_type
                &&& decoded.sub_sequence_number is None
                &&& decoded.explicit_hash_key is None
                &&& !decoded.aggregated
            },
{
    let ghost all = delivered@;
    let mut rest = delivered;
    let mut reversed: Vec<KinesisClientRecord> = Vec::new();
    while rest.len() > 0
        invariant
            rest@ == all.take(rest.len() as int),
            reversed.len() + rest.len() == all.len(),
            forall|j: int|
                0 <= j < reversed.len() ==> {
                    let decoded = #[trigger] reversed[j];
                    let source = all[all.len() - 1 - j];
                    &&& decoded.sequence_number == source.sequence_number
                    &&& decoded.data == source.data
                    &&& decoded.partition_key == source.partition_key
                    &&& decoded.encryption_type == source.encryption_type
                    &&& decoded.sub_sequence_number is None
                    &&& decoded.explicit_hash_key is None
                    &&& !decoded.aggregated
                },
        decreases rest.len(),
    {
        match rest.pop() {
            Some(record) => {
                reversed.push(KinesisClientRecord::from_record(record));
            },
            None => {},
        }
    }
    let mut records: Vec<KinesisClientRecord> = Vec::new();
    while reversed.len() > 0
        invariant
            records.len() + reversed.len() == all.len(),
            forall|j: int|
                0 <= j < reversed.len() ==> {
                    let decoded = #[trigger] reversed[j];
                    let source = all[all.len() - 1 - j];
                    &&& decoded.sequence_number == source.sequence_number
                    &&& decoded.data == source.data
                    &&& decoded.partition_key == source.partition_key
                    &&& decoded.encryption_type == source.encryption_type
                    &&& decoded.sub_sequence_number is None
                    &&& decoded.explicit_hash_key is None
                    &&& !decoded.aggregated
                },
            forall|i: int|
                0 <= i < records.len() ==> {
                    let decoded = #[trigger] records[i];
                    &&& decoded.sequence_number == all[i].sequence_number
                    &&& decoded.data == all[i].data
                    &&& decoded.partition_key == all[i].partition_key
                    &&& decoded.encryption_type == all[i].encryption_type
                    &&& decoded.sub_sequence_number is None
                    &&& decoded.explicit_hash_key is None
                    &&& !decoded.aggregated
                },
        decreases reversed.len(),
    {
        match reversed.pop() {
            Some(decoded) => {
                records.push(decoded);
            },
            None => {},
        }
    }
    ProcessRecordsInput { records, is_at_shard_end, child_shards }
}

} // verus!
