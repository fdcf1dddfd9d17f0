//! What a caller holds: databases, partitions, and the operations that run in the background.
//!
//! An operation is a task. A task is made on the caller's thread and does its own part, `compute`,
//! on a background thread with the registry locked; what `compute` hands out then goes to the
//! storage crate.

use vstd::prelude::*;
use vstd::slice::slice_to_vec;

use crate::config::{
    cache_size_meant, to_engine_config, DatabaseConfig, EngineConfig, Writability,
};
use crate::double::whole_part;
use crate::engine::{
    attach_or_create, attach_step, open_partition, release, release_step, resolve_partition,
    warn_if_unclosed, with_keyspace, AttachAction, AttachEvent, HandleState, Registry,
    ReleaseAction,
};
use crate::error::{map_err, EngineError};
use crate::persist::{
    invalid_mode_text, mode_named, parse_persist_mode, words_stand_for_their_modes, PersistMode,
};
use crate::storage::{
    batch_insert, batch_items, batch_keyspace, new_batch, partition_name, storable,
};

verus! {

/// A key and a value for [`Partition::insert_batch`].
pub struct BatchEntry {
    pub key: Vec<u8>,
    pub value: Vec<u8>,
}

/// Opens the engine of a directory for a caller that may write.
pub struct OpenTask {
    pub cfg: EngineConfig,
    pub writability: Writability,
}

/// Opens the engine of a directory for a caller that only reads.
pub struct OpenReadonlyTask {
    pub cfg: EngineConfig,
}

/// Opens a partition.
pub struct PartitionTask {
    pub state: HandleState,
    pub name: String,
}

/// Opens a partition for a caller that only reads.
pub struct ReadonlyPartitionTask {
    pub state: HandleState,
    pub name: String,
}

/// Flushes what was written.
pub struct PersistTask {
    pub state: HandleState,
    pub mode: Option<String>,
}

/// Closes a handle.
pub struct CloseTask {
    pub state: HandleState,
}

/// Writes one key.
pub struct InsertTask {
    pub state: HandleState,
    pub name: String,
    pub key: Vec<u8>,
    pub value: Vec<u8>,
}

/// Removes one key.
pub struct RemoveTask {
    pub state: HandleState,
    pub name: String,
    pub key: Vec<u8>,
}

/// Writes many keys at once.
pub struct InsertBatchTask {
    pub state: HandleState,
    pub name: String,
    pub entries: Vec<(Vec<u8>, Vec<u8>)>,
}

/// An open database.
pub struct Keyspace {
    pub state: HandleState,
}

/// An open database that can only be read.
pub struct ReadonlyKeyspace {
    pub state: HandleState,
}

/// A partition of an open database.
pub struct Partition {
    pub state: HandleState,
    pub name: String,
}

/// A partition that can only be read.
pub struct ReadonlyPartition {
    pub state: HandleState,
    pub name: String,
}

/// Opens, or attaches to, the shared engine of a directory, for writing.
pub fn open(config: DatabaseConfig) -> (task: OpenTask)
    ensures
        task.cfg.path@ == config.path@,
        task.cfg.cache_size_bytes == cache_size_meant(config.cache_size_bytes),
        config.cache_size_bytes is None ==> task.cfg.cache_size_bytes is None,
        config.cache_size_bytes matches Some(bits) ==> task.cfg.cache_size_bytes == whole_part(
            bits,
        ),
        task.writability is Writable,
{
    OpenTask { cfg: to_engine_config(&config), writability: Writability::Writable }
}

/// Opens, or attaches to, the shared engine of a directory, for reading. A reader may be the first
/// to open the directory.
pub fn open_readonly(config: DatabaseConfig) -> (task: OpenReadonlyTask)
    ensures
        task.cfg.path@ == config.path@,
        task.cfg.cache_size_bytes == cache_size_meant(config.cache_size_bytes),
        config.cache_size_bytes is None ==> task.cfg.cache_size_bytes is None,
        config.cache_size_bytes matches Some(bits) ==> task.cfg.cache_size_bytes == whole_part(
            bits,
        ),
{
    OpenReadonlyTask { cfg: to_engine_config(&config) }
}

impl OpenTask {
    /// One step towards the engine.
    pub fn compute(&self, registry: &mut Registry, event: AttachEvent) -> (action: AttachAction)
        requires
            old(registry).wf(),
            event is OpenFailed || old(registry).room(),
        ensures
            final(registry).wf(),
            attach_step(
                old(registry)@,
                final(registry)@,
                self.cfg,
                self.writability,
                event,
                action,
            ),
    {
        attach_or_create(registry, &self.cfg, self.writability, event)
    }

    /// The database that the caller gets.
    pub fn resolve(&self, state: HandleState) -> (keyspace: Keyspace)
        ensures
            keyspace.state == state,
    {
        Keyspace { state }
    }
}

impl OpenReadonlyTask {
    /// One step towards the engine, as a reader.
    pub fn compute(&self, registry: &mut Registry, event: AttachEvent) -> (action: AttachAction)
        requires
            old(registry).wf(),
            event is OpenFailed || old(registry).room(),
        ensures
            final(registry).wf(),
            attach_step(
                old(registry)@,
                final(registry)@,
                self.cfg,
                Writability::ReadOnly,
                event,
                action,
            ),
    {
        attach_or_create(registry, &self.cfg, Writability::ReadOnly, event)
    }

    /// The database that the caller gets.
    pub fn resolve(&self, state: HandleState) -> (keyspace: ReadonlyKeyspace)
        ensures
            keyspace.state == state,
    {
        ReadonlyKeyspace { state }
    }
}

impl Keyspace {
    /// Opens a partition of the database.
    pub fn partition(&self, name: String) -> (task: PartitionTask)
        ensures
            task.state@ == self.state@,
            task.name == name,
    {
        PartitionTask { state: self.state.copied(), name }
    }

    /// Flushes what was written to the database, as far as `mode` says.
    pub fn persist(&self, mode: Option<String>) -> (task: PersistTask)
        ensures
            task.state@ == self.state@,
            task.mode == mode,
    {
        PersistTask { state: self.state.copied(), mode }
    }

    /// Closes this handle on the database.
    pub fn close(&self) -> (task: CloseTask)
        ensures
            task.state@ == self.state@,
    {
        CloseTask { state: self.state.copied() }
    }

    /// What happens to a database that its owner lets go of: one that was not closed is warned
    /// about, and is closed.
    pub fn abandon(&self, registry: &mut Registry) -> (result: (bool, ReleaseAction))
        requires
            old(registry).wf(),
        ensures
            final(registry).wf(),
            final(registry).room() == old(registry).room(),
            final(registry)@ == old(registry)@.released(self.state@),
            result.0 == old(registry)@.open.contains(self.state@),
            release_step(old(registry)@, self.state@, result.1),
    {
        let warn = warn_if_unclosed(registry, &self.state);
        (warn, release(registry, &self.state))
    }
}

impl ReadonlyKeyspace {
    /// Opens a partition of the database.
    pub fn partition(&self, name: String) -> (task: ReadonlyPartitionTask)
        ensures
            task.state@ == self.state@,
            task.name == name,
    {
        ReadonlyPartitionTask { state: self.state.copied(), name }
    }

    /// Closes this handle on the database.
    pub fn close(&self) -> (task: CloseTask)
        ensures
            task.state@ == self.state@,
    {
        CloseTask { state: self.state.copied() }
    }

    /// What happens to a database that its owner lets go of: one that was not closed is warned
    /// about, and is closed.
    pub fn abandon(&self, registry: &mut Registry) -> (result: (bool, ReleaseAction))
        requires
            old(registry).wf(),
        ensures
            final(registry).wf(),
            final(registry).room() == old(registry).room(),
            final(registry)@ == old(registry)@.released(self.state@),
            result.0 == old(registry)@.open.contains(self.state@),
            release_step(old(registry)@, self.state@, result.1),
    {
        let warn = warn_if_unclosed(registry, &self.state);
        (warn, release(registry, &self.state))
    }
}

/// Takes the text out of `text` and leaves an empty one.
fn take_text(text: &mut String) -> (taken: String)
    ensures
        taken@ == old(text)@,
        final(text)@ == Seq::<char>::empty(),
{
    let mut taken = String::new();
    std::mem::swap(&mut taken, text);
    taken
}

/// Takes the items out of `items` and leaves none.
fn take_items<T>(items: &mut Vec<T>) -> (taken: Vec<T>)
    ensures
        taken@ == old(items)@,
        final(items)@ == Seq::<T>::empty(),
{
    let mut taken: Vec<T> = Vec::new();
    std::mem::swap(&mut taken, items);
    taken
}

/// What a caller is told when a handle, or the engine behind it, is closed.
pub open spec fn closed_text() -> Seq<char> {
    EngineError::Closed.text()
}

/// A caller whose handle is closed is told so in these words, whatever they tried.
pub proof fn a_closed_handle_is_told_so()
    ensures
        closed_text() == "Keyspace is closed"@,
{
}

impl PartitionTask {
    /// Whether the partition is open already. If not, the caller opens it in the database and
    /// reports with [`crate::engine::partition_opened`].
    pub fn compute(&self, registry: &Registry) -> (result: Result<bool, String>)
        requires
            registry.wf(),
        ensures
            match registry@.engine_of(self.state@) {
                Some(engine) => result == Ok::<bool, String>(
                    engine.partitions.dom().contains(self.name@),
                ),
                None => result matches Err(reason) && reason@ == closed_text(),
            },
    {
        match open_partition(registry, &self.state, &self.name) {
            Ok(known) => Ok(known),
            Err(e) => Err(map_err(e)),
        }
    }

    /// The partition that the caller gets.
    pub fn resolve(&mut self) -> (partition: Partition)
        ensures
            partition.state@ == old(self).state@,
            partition.name@ == old(self).name@,
            final(self).state == old(self).state,
            final(self).name@ == Seq::<char>::empty(),
    {
        Partition { state: self.state.copied(), name: take_text(&mut self.name) }
    }
}

impl ReadonlyPartitionTask {
    /// Whether the partition is open already. If not, the caller opens it in the database and
    /// reports with [`crate::engine::partition_opened`].
    pub fn compute(&self, registry: &Registry) -> (result: Result<bool, String>)
        requires
            registry.wf(),
        ensures
            match registry@.engine_of(self.state@) {
                Some(engine) => result == Ok::<bool, String>(
                    engine.partitions.dom().contains(self.name@),
                ),
                None => result matches Err(reason) && reason@ == closed_text(),
            },
    {
        match open_partition(registry, &self.state, &self.name) {
            Ok(known) => Ok(known),
            Err(e) => Err(map_err(e)),
        }
    }

    /// The partition that the caller gets.
    pub fn resolve(&mut self) -> (partition: ReadonlyPartition)
        ensures
            partition.state@ == old(self).state@,
            partition.name@ == old(self).name@,
            final(self).state == old(self).state,
            final(self).name@ == Seq::<char>::empty(),
    {
        ReadonlyPartition { state: self.state.copied(), name: take_text(&mut self.name) }
    }
}

/// The view of an optional word.
pub open spec fn word_of(mode: Option<String>) -> Option<Seq<char>> {
    match mode {
        Some(word) => Some(word@),
        None => None,
    }
}

/// The word that a caller gave is the word that is read.
pub proof fn a_word_is_read_as_it_was_given(word: String)
    ensures
        word_of(Some(word)) == Some(word@),
        word_of(None) is None,
{
}

/// What a caller's word has a flush do: the word for a mode flushes in that mode, no word flushes
/// to the disk, and any other word is refused.
pub proof fn a_flush_goes_as_far_as_its_word_says(mode: Option<String>)
    ensures
        mode is None ==> mode_named(word_of(mode)) == Some(PersistMode::SyncData),
        mode matches Some(word) ==> {
            &&& word@ == "sync-data"@ ==> mode_named(word_of(mode)) == Some(PersistMode::SyncData)
            &&& word@ == "buffer"@ ==> mode_named(word_of(mode)) == Some(PersistMode::Buffer)
            &&& word@ == "sync-all"@ ==> mode_named(word_of(mode)) == Some(PersistMode::SyncAll)
            &&& mode_named(word_of(mode)) is None <==> word@ != "sync-data"@ && word@ != "buffer"@
                && word@ != "sync-all"@
        },
{
    if let Some(word) = mode {
        words_stand_for_their_modes(word@);
    }
}

impl PersistTask {
    /// The mode to flush in and the database to flush. A word that stands for no mode is refused
    /// before anything else.
    pub fn compute<'a>(&self, registry: &'a Registry) -> (result: Result<
        (PersistMode, &'a fjall::Keyspace),
        String,
    >)
        requires
            registry.wf(),
        ensures
            match (mode_named(word_of(self.mode)), registry@.engine_of(self.state@)) {
                (None, _) => result matches Err(reason) && reason@ == invalid_mode_text(
                    self.mode->0@,
                ),
                (Some(_), None) => result matches Err(reason) && reason@ == closed_text(),
                (Some(mode), Some(engine)) => result matches Ok(flush) && flush.0 == mode
                    && *flush.1 == engine.keyspace,
            },
            registry@.engine_of(self.state@) is None ==> result is Err,
            registry@.engine_of(self.state@) is Some && self.mode is None ==> (result matches Ok(
                flush,
            ) && flush.0 is SyncData),
            self.mode matches Some(word) ==> {
                let open = registry@.engine_of(self.state@) is Some;
                &&& open && word@ == "sync-data"@ ==> (result matches Ok(flush)
                    && flush.0 is SyncData)
                &&& open && word@ == "buffer"@ ==> (result matches Ok(flush) && flush.0 is Buffer)
                &&& open && word@ == "sync-all"@ ==> (result matches Ok(flush)
                    && flush.0 is SyncAll)
                &&& word@ != "sync-data"@ && word@ != "buffer"@ && word@ != "sync-all"@
                    ==> result is Err
            },
    {
        proof {
            a_flush_goes_as_far_as_its_word_says(self.mode);
        }
        let word = match &self.mode {
            Some(word) => Some(word.as_str()),
            None => None,
        };
        match parse_persist_mode(word) {
            Ok(mode) => match with_keyspace(registry, &self.state) {
                Ok(keyspace) => Ok((mode, keyspace)),
                Err(e) => Err(map_err(e)),
            },
            Err(reason) => Err(reason),
        }
    }
}

impl CloseTask {
    /// Closes the handle.
    pub fn compute(&self, registry: &mut Registry) -> (action: ReleaseAction)
        requires
            old(registry).wf(),
        ensures
            final(registry).wf(),
            final(registry).room() == old(registry).room(),
            final(registry)@ == old(registry)@.released(self.state@),
            release_step(old(registry)@, self.state@, action),
    {
        release(registry, &self.state)
    }
}

impl InsertTask {
    /// The partition to write to, the key and the value. A task whose handle is closed keeps both.
    pub fn compute<'a>(&mut self, registry: &'a Registry) -> (result: Result<
        (&'a fjall::PartitionHandle, Vec<u8>, Vec<u8>),
        String,
    >)
        requires
            registry.wf(),
        ensures
            match registry@.partition_of(old(self).state@, old(self).name@) {
                Some(partition) => {
                    &&& result matches Ok(write)
                    &&& *write.0 == partition
                    &&& partition_name(*write.0) == old(self).name@
                    &&& write.1@ == old(self).key@
                    &&& write.2@ == old(self).value@
                    &&& final(self).key@ == Seq::<u8>::empty()
                    &&& final(self).value@ == Seq::<u8>::empty()
                    &&& final(self).state == old(self).state
                    &&& final(self).name == old(self).name
                },
                None => {
                    &&& result matches Err(reason)
                    &&& reason@ == closed_text()
                    &&& *final(self) == *old(self)
                },
            },
    {
        match resolve_partition(registry, &self.state, &self.name) {
            Ok(partition) => {
                let key = take_items(&mut self.key);
                let value = take_items(&mut self.value);
                Ok((partition, key, value))
            },
            Err(e) => Err(map_err(e)),
        }
    }
}

impl RemoveTask {
    /// The partition to remove from, and the key. A task whose handle is closed keeps the key.
    pub fn compute<'a>(&mut self, registry: &'a Registry) -> (result: Result<
        (&'a fjall::PartitionHandle, Vec<u8>),
        String,
    >)
        requires
            registry.wf(),
        ensures
            match registry@.partition_of(old(self).state@, old(self).name@) {
                Some(partition) => {
                    &&& result matches Ok(removal)
                    &&& *removal.0 == partition
                    &&& partition_name(*removal.0) == old(self).name@
                    &&& removal.1@ == old(self).key@
                    &&& final(self).key@ == Seq::<u8>::empty()
                    &&& final(self).state == old(self).state
                    &&& final(self).name == old(self).name
                },
                None => {
                    &&& result matches Err(reason)
                    &&& reason@ == closed_text()
                    &&& *final(self) == *old(self)
                },
            },
    {
        match resolve_partition(registry, &self.state, &self.name) {
            Ok(partition) => {
                let key = take_items(&mut self.key);
                Ok((partition, key))
            },
            Err(e) => Err(map_err(e)),
        }
    }
}

/// Every entry has a key and a value that a batch takes.
pub open spec fn all_storable(entries: Seq<(Vec<u8>, Vec<u8>)>) -> bool {
    forall|i: int| 0 <= i < entries.len() ==> storable((#[trigger] entries[i]).0@, entries[i].1@)
}

/// The writes of `entries` to the partition `name`, in their order.
pub open spec fn writes_to(name: Seq<char>, entries: Seq<(Vec<u8>, Vec<u8>)>) -> Seq<
    (Seq<char>, Seq<u8>, Seq<u8>),
> {
    entries.map_values(|entry: (Vec<u8>, Vec<u8>)| (name, entry.0@, entry.1@))
}

/// A batch takes exactly the entries with a key of 1 to 65535 bytes and a value of at most
/// 4294967295 bytes, and one entry that does not fit spoils it.
pub proof fn a_batch_takes_keys_and_values_that_fit(entries: Seq<(Vec<u8>, Vec<u8>)>)
    ensures
        all_storable(entries) <==> forall|i: int|
            0 <= i < entries.len() ==> 1 <= (#[trigger] entries[i]).0@.len() <= 65535
                && entries[i].1@.len() <= 4294967295,
{
    if forall|i: int|
        0 <= i < entries.len() ==> 1 <= (#[trigger] entries[i]).0@.len() <= 65535
            && entries[i].1@.len() <= 4294967295 {
        assert forall|i: int| 0 <= i < entries.len() implies storable(
            (#[trigger] entries[i]).0@,
            entries[i].1@,
        ) by {}
    } else {
        let i = choose|i: int|
            0 <= i < entries.len() && !(1 <= (#[trigger] entries[i]).0@.len() <= 65535
                && entries[i].1@.len() <= 4294967295);
        assert(!storable(entries[i].0@, entries[i].1@));
    }
}

/// A batch writes every entry once, in the order in which they were given, with its own key and
/// its own value, and all to one partition.
pub proof fn a_batch_writes_every_entry_once(
    name: Seq<char>,
    entries: Seq<(Vec<u8>, Vec<u8>)>,
    i: int,
)
    ensures
        writes_to(name, entries).len() == entries.len(),
        0 <= i < entries.len() ==> {
            &&& writes_to(name, entries)[i].0 == name
            &&& writes_to(name, entries)[i].1 == entries[i].0@
            &&& writes_to(name, entries)[i].2 == entries[i].1@
        },
{
}

impl InsertBatchTask {
    /// Whether every entry has a key and a value that a batch takes: a key of 1 to 65535 bytes and
    /// a value of at most 4294967295 bytes.
    pub fn fits(&self) -> (yes: bool)
        ensures
            yes == all_storable(self.entries@),
            yes <==> forall|i: int|
                0 <= i < self.entries@.len() ==> 1 <= (#[trigger] self.entries@[i]).0@.len()
                    <= 65535 && self.entries@[i].1@.len() <= 4294967295,
    {
        proof {
            a_batch_takes_keys_and_values_that_fit(self.entries@);
        }
        for i in 0..self.entries.len()
            invariant
                forall|j: int|
                    0 <= j < i ==> storable(
                        (#[trigger] self.entries@[j]).0@,
                        self.entries@[j].1@,
                    ),
        {
            let key_len = self.entries[i].0.len();
            let value_len = self.entries[i].1.len();
            if key_len == 0 || key_len > 0xffff || value_len > 0xffff_ffff {
                assert(!storable(self.entries@[i as int].0@, self.entries@[i as int].1@));
                return false;
            }
        }
        true
    }

    /// The batch to commit: all entries, in their order, for the partition. No entries are no
    /// batch, whether the handle is open or not.
    pub fn compute(&mut self, registry: &Registry) -> (result: Result<Option<fjall::Batch>, String>)
        requires
            registry.wf(),
            registry@.partition_of(old(self).state@, old(self).name@) is Some ==> all_storable(
                old(self).entries@,
            ),
        ensures
            final(self).state == old(self).state,
            final(self).name == old(self).name,
            if old(self).entries@.len() == 0 {
                &&& result == Ok::<Option<fjall::Batch>, String>(None)
                &&& final(self).entries@ == old(self).entries@
            } else {
                match registry@.partition_of(old(self).state@, old(self).name@) {
                    Some(partition) => {
                        &&& result matches Ok(Some(batch))
                        &&& batch_items(batch) == writes_to(old(self).name@, old(self).entries@)
                        &&& batch_keyspace(batch) == registry@.engine_of(
                            old(self).state@,
                        )->0.keyspace
                        &&& final(self).entries@ == Seq::<(Vec<u8>, Vec<u8>)>::empty()
                    },
                    None => {
                        &&& result matches Err(reason)
                        &&& reason@ == closed_text()
                        &&& final(self).entries@ == old(self).entries@
                    },
                }
            },
    {
        if self.entries.len() == 0 {
            return Ok(None);
        }
        let partition = match resolve_partition(registry, &self.state, &self.name) {
            Ok(partition) => partition,
            Err(e) => {
                return Err(map_err(e));
            },
        };
        let entries = take_items(&mut self.entries);
        let keyspace = match with_keyspace(registry, &self.state) {
            Ok(keyspace) => keyspace,
            Err(e) => {
                return Err(map_err(e));
            },
        };
        Ok(Some(fill_batch(keyspace, partition, entries)))
    }
}

/// A batch for the database that writes `entries` to the partition, in their order.
fn fill_batch(
    keyspace: &fjall::Keyspace,
    partition: &fjall::PartitionHandle,
    entries: Vec<(Vec<u8>, Vec<u8>)>,
) -> (batch: fjall::Batch)
    requires
        all_storable(entries@),
    ensures
        batch_items(batch) == writes_to(partition_name(*partition), entries@),
        batch_keyspace(batch) == *keyspace,
{
    let mut batch = new_batch(keyspace);
    let ghost name = partition_name(*partition);
    let ghost all = entries@;
    assert(writes_to(name, all.take(0)) =~= Seq::empty());
    for entry in it: entries
        invariant
            it.seq() == all,
            all_storable(all),
            name == partition_name(*partition),
            batch_items(batch) == writes_to(name, all.take(it.index() as int)),
            batch_keyspace(batch) == *keyspace,
    {
        let ghost i = it.index() as int;
        assert(entry == all[i]);
        batch_insert(&mut batch, partition, entry.0, entry.1);
        assert(all.take(i + 1) =~= all.take(i).push(all[i]));
        assert(writes_to(name, all.take(i + 1)) =~= writes_to(name, all.take(i)).push(
            (name, all[i].0@, all[i].1@),
        ));
    }
    assert(all.take(all.len() as int) =~= all);
    batch
}

impl Partition {
    /// The partition to look the key up in. Sees what any handle of the engine wrote.
    pub fn get<'a, 'b>(&self, registry: &'a Registry, key: &'b [u8]) -> (result: Result<
        (&'a fjall::PartitionHandle, &'b [u8]),
        String,
    >)
        requires
            registry.wf(),
        ensures
            match registry@.partition_of(self.state@, self.name@) {
                Some(partition) => {
                    &&& result matches Ok(lookup)
                    &&& *lookup.0 == partition
                    &&& partition_name(*lookup.0) == self.name@
                    &&& lookup.1@ == key@
                },
                None => result matches Err(reason) && reason@ == closed_text(),
            },
    {
        match resolve_partition(registry, &self.state, &self.name) {
            Ok(partition) => Ok((partition, key)),
            Err(e) => Err(map_err(e)),
        }
    }

    /// Writes a key, over what it held before.
    pub fn insert(&self, key: &[u8], value: &[u8]) -> (task: InsertTask)
        ensures
            task.state@ == self.state@,
            task.name@ == self.name@,
            task.key@ == key@,
            task.value@ == value@,
    {
        InsertTask {
            state: self.state.copied(),
            name: self.name.clone(),
            key: slice_to_vec(key),
            value: slice_to_vec(value),
        }
    }

    /// Removes a key.
    pub fn remove(&self, key: &[u8]) -> (task: RemoveTask)
        ensures
            task.state@ == self.state@,
            task.name@ == self.name@,
            task.key@ == key@,
    {
        RemoveTask {
            state: self.state.copied(),
            name: self.name.clone(),
            key: slice_to_vec(key),
        }
    }

    /// Writes many keys at once.
    pub fn insert_batch(&self, entries: Vec<BatchEntry>) -> (task: InsertBatchTask)
        ensures
            task.state@ == self.state@,
            task.name@ == self.name@,
            task.entries@.len() == entries@.len(),
            forall|i: int|
                0 <= i < entries@.len() ==> (#[trigger] task.entries@[i]).0 == entries@[i].key
                    && task.entries@[i].1 == entries@[i].value,
    {
        let mut owned: Vec<(Vec<u8>, Vec<u8>)> = Vec::new();
        let ghost all = entries@;
        for entry in it: entries
            invariant
                it.seq() == all,
                owned@.len() == it.index(),
                forall|i: int|
                    0 <= i < owned@.len() ==> (#[trigger] owned@[i]).0 == all[i].key && owned@[i].1
                        == all[i].value,
        {
            owned.push((entry.key, entry.value));
        }
        InsertBatchTask { state: self.state.copied(), name: self.name.clone(), entries: owned }
    }
}

impl ReadonlyPartition {
    /// The partition to look the key up in. Sees what any handle of the engine wrote.
    pub fn get<'a, 'b>(&self, registry: &'a Registry, key: &'b [u8]) -> (result: Result<
        (&'a fjall::PartitionHandle, &'b [u8]),
        String,
    >)
        requires
            registry.wf(),
        ensures
            match registry@.partition_of(self.state@, self.name@) {
                Some(partition) => {
                    &&& result matches Ok(lookup)
                    &&& *lookup.0 == partition
                    &&& partition_name(*lookup.0) == self.name@
                    &&& lookup.1@ == key@
                },
                None => result matches Err(reason) && reason@ == closed_text(),
            },
    {
        match resolve_partition(registry, &self.state, &self.name) {
            Ok(partition) => Ok((partition, key)),
            Err(e) => Err(map_err(e)),
        }
    }
}

} // verus!
