//! The parts of the `fjall` storage crate that are used here as plain values: handles that are
//! carried around, the settings of a database, and the write batch, which is an in-memory list
//! until it is committed.
//!
//! What a partition holds has no counterpart here: it lies on disk, is shared by every thread
//! that has a handle, and changes behind a shared reference.

use fjall::Keyspace as Database;

use vstd::prelude::*;

use crate::path::Part;

verus! {

/// An open database directory (`fjall::Keyspace`). Carried, never looked into.
#[verifier::external_type_specification]
#[verifier::external_body]
pub struct ExKeyspace(Database);

/// An open partition of a database (`fjall::PartitionHandle`). Carried; only its name is read.
#[verifier::external_type_specification]
#[verifier::external_body]
pub struct ExPartitionHandle(fjall::PartitionHandle);

/// A write batch (`fjall::Batch`): a list of writes that take effect together.
#[verifier::external_type_specification]
#[verifier::external_body]
pub struct ExBatch(fjall::Batch);

/// Settings to open a database with (`fjall::Config`). Carried; only the cache capacity is set.
#[verifier::external_type_specification]
#[verifier::external_body]
pub struct ExConfig(fjall::Config);

/// The capacity of the block cache that a database gets when it is opened with these settings.
pub uninterp spec fn config_cache_size(config: fjall::Config) -> u64;

/// The directory of the database that these settings open.
pub uninterp spec fn config_directory(config: fjall::Config) -> Seq<Part>;

/// The name that a partition was opened under.
pub uninterp spec fn partition_name(partition: fjall::PartitionHandle) -> Seq<char>;

/// The writes that a batch holds, in the order in which they were added: the partition's name,
/// the key and the value of each.
pub uninterp spec fn batch_items(batch: fjall::Batch) -> Seq<(Seq<char>, Seq<u8>, Seq<u8>)>;

/// The database that a batch is committed to.
pub uninterp spec fn batch_keyspace(batch: fjall::Batch) -> fjall::Keyspace;

/// A key and a value that a batch takes: `fjall::Batch::insert` panics on any other.
pub open spec fn storable(key: Seq<u8>, value: Seq<u8>) -> bool {
    0 < key.len() <= u16::MAX && value.len() <= u32::MAX
}

/// Calls `fjall::Config::cache_size`: the cache of the database has that capacity, and the
/// directory is the one that it was. The other settings stay as they were too, which is not
/// stated.
#[verifier::external_body]
pub(crate) fn with_cache_size(config: fjall::Config, bytes: u64) -> (configured: fjall::Config)
    ensures
        config_cache_size(configured) == bytes,
        config_directory(configured) == config_directory(config),
{
    config.cache_size(bytes)
}

/// Reads the `name` of a `fjall::PartitionHandle`, which is fixed when the partition is opened.
#[verifier::external_body]
pub(crate) fn name_of(partition: &fjall::PartitionHandle) -> (name: String)
    ensures
        name@ == partition_name(*partition),
{
    partition.name.to_string()
}

/// Calls `fjall::Keyspace::batch`: a new batch holds no write and is meant for that database. How
/// durable its commit is follows from the database's configuration and is not stated.
#[verifier::external_body]
pub(crate) fn new_batch(keyspace: &fjall::Keyspace) -> (batch: fjall::Batch)
    ensures
        batch_items(batch) == Seq::<(Seq<char>, Seq<u8>, Seq<u8>)>::empty(),
        batch_keyspace(batch) == *keyspace,
{
    keyspace.batch()
}

/// Calls `fjall::Batch::insert`: the write is added behind the others, addressed to the partition
/// by its name.
#[verifier::external_body]
pub(crate) fn batch_insert(
    batch: &mut fjall::Batch,
    partition: &fjall::PartitionHandle,
    key: Vec<u8>,
    value: Vec<u8>,
)
    requires
        storable(key@, value@),
    ensures
        batch_items(*final(batch)) == batch_items(*old(batch)).push(
            (partition_name(*partition), key@, value@),
        ),
        batch_keyspace(*final(batch)) == batch_keyspace(*old(batch)),
{
    batch.insert(partition, key, value)
}

} // verus!
