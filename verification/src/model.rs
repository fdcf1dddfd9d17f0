//! The registry as a mathematical object, and the steps that change it.

use vstd::prelude::*;

use crate::config::Writability;
use crate::path::Part;
use crate::storage::partition_name;

verus! {

/// An engine: one open database and the partitions opened in it.
pub struct EngineView {
    /// Tells engines apart; no two engines of a registry's lifetime share it.
    pub id: int,
    pub key: Seq<Part>,
    /// The cache capacity that its first opener asked for.
    pub cache_size_bytes: Option<u64>,
    pub keyspace: fjall::Keyspace,
    pub partitions: Map<Seq<char>, fjall::PartitionHandle>,
}

/// What the registry knows of a directory that is in use.
pub enum SlotView {
    /// Some opener is opening it.
    Creating,
    /// It is open, with `refs` open handles, `writable` of which may write.
    Live { engine: EngineView, refs: int, writable: int },
    /// Its last handle is closed and its engine is being freed.
    TearingDown,
}

/// One handle on an engine.
pub struct HandleView {
    pub id: int,
    /// The engine that the handle was attached to.
    pub engine: int,
    pub key: Seq<Part>,
    pub writable: bool,
}

/// Every directory in use, and every handle that is not closed.
#[verifier::ext_equal]
pub struct RegistryView {
    pub slots: Map<Seq<Part>, SlotView>,
    pub open: Set<HandleView>,
    pub next_engine: int,
    pub next_handle: int,
}

/// The handles of `open` that are attached to the engine `id`.
pub open spec fn handles_of(open: Set<HandleView>, id: int) -> Set<HandleView> {
    open.filter(|h: HandleView| h.engine == id)
}

/// Those of them that may write.
pub open spec fn writers_of(open: Set<HandleView>, id: int) -> Set<HandleView> {
    open.filter(|h: HandleView| h.engine == id && h.writable)
}

/// 1 for a handle that may write, 0 for one that may not.
pub open spec fn writers_in(w: Writability) -> int {
    match w {
        Writability::Writable => 1,
        Writability::ReadOnly => 0,
    }
}

impl RegistryView {
    /// Nothing is in use and no handle was ever given out.
    pub open spec fn empty() -> RegistryView {
        RegistryView { slots: Map::empty(), open: Set::empty(), next_engine: 0, next_handle: 0 }
    }

    /// What is known of the directory `key`.
    pub open spec fn slot(self, key: Seq<Part>) -> Option<SlotView> {
        if self.slots.dom().contains(key) {
            Some(self.slots[key])
        } else {
            None
        }
    }

    /// The engine that is open for the directory `key`.
    pub open spec fn engine_at(self, key: Seq<Part>) -> Option<EngineView> {
        match self.slot(key) {
            Some(SlotView::Live { engine, .. }) => Some(engine),
            _ => None,
        }
    }

    /// The directory is being opened or freed: an opener has to wait.
    pub open spec fn busy(self, key: Seq<Part>) -> bool {
        match self.slot(key) {
            Some(SlotView::Creating) => true,
            Some(SlotView::TearingDown) => true,
            _ => false,
        }
    }

    /// The engine that a handle can use: the one it was attached to, as long as the handle is
    /// open and that engine is.
    pub open spec fn engine_of(self, h: HandleView) -> Option<EngineView> {
        match self.engine_at(h.key) {
            Some(engine) => if self.open.contains(h) && engine.id == h.engine {
                Some(engine)
            } else {
                None
            },
            None => None,
        }
    }

    /// The partition that a handle reaches under a name.
    pub open spec fn partition_of(
        self,
        h: HandleView,
        name: Seq<char>,
    ) -> Option<fjall::PartitionHandle> {
        match self.engine_of(h) {
            Some(engine) => if engine.partitions.dom().contains(name) {
                Some(engine.partitions[name])
            } else {
                None
            },
            None => None,
        }
    }

    /// The slot of a directory agrees with the handles that are open.
    pub open spec fn slot_ok(self, key: Seq<Part>) -> bool {
        match self.slots[key] {
            SlotView::Live { engine, refs, writable } => {
                &&& engine.key == key
                &&& 0 <= engine.id < self.next_engine
                &&& refs == handles_of(self.open, engine.id).len()
                &&& writable == writers_of(self.open, engine.id).len()
                &&& refs >= 1
                &&& forall|name: Seq<char>| #[trigger]
                    engine.partitions.dom().contains(name) ==> partition_name(
                        engine.partitions[name],
                    ) == name
            },
            _ => true,
        }
    }

    /// What every step keeps: an engine serves one directory, counts exactly its open handles and
    /// has at least one; an open handle has its engine, and is on the directory that it serves.
    pub open spec fn wf(self) -> bool {
        &&& self.open.finite()
        &&& self.next_engine >= 0
        &&& self.next_handle >= 0
        &&& forall|key: Seq<Part>| #[trigger]
            self.slots.dom().contains(key) ==> self.slot_ok(key)
        &&& forall|k1: Seq<Part>, k2: Seq<Part>|
            self.engine_at(k1) is Some && self.engine_at(k2) is Some && (#[trigger] self.engine_at(
                k1,
            ))->0.id == (#[trigger] self.engine_at(k2))->0.id ==> k1 == k2
        &&& forall|h: HandleView| #[trigger]
            self.open.contains(h) ==> 0 <= h.id < self.next_handle && 0 <= h.engine
                < self.next_engine
        &&& forall|h1: HandleView, h2: HandleView| #[trigger]
            self.open.contains(h1) && #[trigger] self.open.contains(h2) && h1.id == h2.id ==> h1
                == h2
        &&& forall|h: HandleView| #[trigger]
            self.open.contains(h) ==> self.engine_at(h.key) is Some && self.engine_at(h.key)->0.id
                == h.engine
    }

    /// The next handle, attached to the engine `engine` of the directory `key`.
    pub open spec fn new_handle(self, engine: int, key: Seq<Part>, w: Writability) -> HandleView {
        HandleView { id: self.next_handle, engine, key, writable: w is Writable }
    }

    /// The registry once one more handle is attached to the live engine of `key`.
    pub open spec fn attached(self, key: Seq<Part>, w: Writability) -> RegistryView
        recommends
            self.engine_at(key) is Some,
    {
        let engine = self.engine_at(key)->0;
        RegistryView {
            slots: self.slots.insert(
                key,
                SlotView::Live {
                    engine,
                    refs: self.slots[key]->refs + 1,
                    writable: self.slots[key]->writable + writers_in(w),
                },
            ),
            open: self.open.insert(self.new_handle(engine.id, key, w)),
            next_engine: self.next_engine,
            next_handle: self.next_handle + 1,
        }
    }

    /// The registry once an opener has claimed the unused directory `key`.
    pub open spec fn claimed(self, key: Seq<Part>) -> RegistryView {
        RegistryView { slots: self.slots.insert(key, SlotView::Creating), ..self }
    }

    /// The registry without what it knew of `key`.
    pub open spec fn forgotten(self, key: Seq<Part>) -> RegistryView {
        RegistryView { slots: self.slots.remove(key), ..self }
    }

    /// The registry once a claim on `key` has ended. Where the directory has gone into service in
    /// the meantime, or out of it again, there is no claim left to end.
    pub open spec fn unclaimed(self, key: Seq<Part>) -> RegistryView {
        match self.slot(key) {
            Some(SlotView::Creating) => self.forgotten(key),
            _ => self,
        }
    }

    /// The next engine, serving the directory `key`.
    pub open spec fn new_engine(
        self,
        key: Seq<Part>,
        cache_size_bytes: Option<u64>,
        keyspace: fjall::Keyspace,
    ) -> EngineView {
        EngineView {
            id: self.next_engine,
            key,
            cache_size_bytes,
            keyspace,
            partitions: Map::empty(),
        }
    }

    /// The registry once a new engine is live for `key`, with one handle.
    pub open spec fn created(
        self,
        key: Seq<Part>,
        cache_size_bytes: Option<u64>,
        keyspace: fjall::Keyspace,
        w: Writability,
    ) -> RegistryView {
        RegistryView {
            slots: self.slots.insert(
                key,
                SlotView::Live {
                    engine: self.new_engine(key, cache_size_bytes, keyspace),
                    refs: 1,
                    writable: writers_in(w),
                },
            ),
            open: self.open.insert(self.new_handle(self.next_engine, key, w)),
            next_engine: self.next_engine + 1,
            next_handle: self.next_handle + 1,
        }
    }

    /// The registry once the handle `h` is closed. The engine's last handle takes the engine out
    /// of service.
    pub open spec fn released(self, h: HandleView) -> RegistryView {
        if !self.open.contains(h) {
            self
        } else {
            RegistryView {
                slots: match self.engine_of(h) {
                    None => self.slots,
                    Some(engine) => self.slots.insert(
                        h.key,
                        if self.slots[h.key]->refs == 1 {
                            SlotView::TearingDown
                        } else {
                            SlotView::Live {
                                engine,
                                refs: self.slots[h.key]->refs - 1,
                                writable: self.slots[h.key]->writable - if h.writable {
                                    1int
                                } else {
                                    0int
                                },
                            }
                        },
                    ),
                },
                open: self.open.remove(h),
                ..self
            }
        }
    }

    /// The registry once the engine of `key`, taken out of service, is freed.
    pub open spec fn torn_down(self, key: Seq<Part>) -> RegistryView {
        match self.slot(key) {
            Some(SlotView::TearingDown) => self.forgotten(key),
            _ => self,
        }
    }

    /// The registry once `partition` is open in the engine of `h`. A partition of that name which
    /// was open before stays.
    pub open spec fn with_partition(
        self,
        h: HandleView,
        partition: fjall::PartitionHandle,
    ) -> RegistryView {
        match self.engine_of(h) {
            None => self,
            Some(engine) => if engine.partitions.dom().contains(partition_name(partition)) {
                self
            } else {
                RegistryView {
                    slots: self.slots.insert(
                        h.key,
                        SlotView::Live {
                            engine: EngineView {
                                partitions: engine.partitions.insert(
                                    partition_name(partition),
                                    partition,
                                ),
                                ..engine
                            },
                            refs: self.slots[h.key]->refs,
                            writable: self.slots[h.key]->writable,
                        },
                    ),
                    ..self
                }
            },
        }
    }
}

/// Everything that can happen to a registry.
pub enum Step {
    /// An opener with this key asks for an engine.
    Arrived { key: Seq<Part>, w: Writability },
    /// An opener opened the directory that it had claimed as `key`.
    Opened {
        key: Seq<Part>,
        canonical: Seq<Part>,
        cache_size_bytes: Option<u64>,
        keyspace: fjall::Keyspace,
        w: Writability,
    },
    /// An opener could not open the directory that it had claimed as `key`.
    OpenFailed { key: Seq<Part> },
    /// A handle is closed.
    Released { handle: HandleView },
    /// The engine that served `key` is freed.
    TornDown { key: Seq<Part> },
    /// A partition is opened through a handle.
    PartitionOpened { handle: HandleView, partition: fjall::PartitionHandle },
}

impl RegistryView {
    /// The registry after a step.
    pub open spec fn take(self, step: Step) -> RegistryView {
        match step {
            Step::Arrived { key, w } => match self.slot(key) {
                Some(SlotView::Live { .. }) => self.attached(key, w),
                Some(_) => self,
                None => self.claimed(key),
            },
            Step::Opened { key, canonical, cache_size_bytes, keyspace, w } => {
                let unclaimed = self.unclaimed(key);
                match unclaimed.engine_at(canonical) {
                    Some(_) => unclaimed.attached(canonical, w),
                    None => unclaimed.created(canonical, cache_size_bytes, keyspace, w),
                }
            },
            Step::OpenFailed { key } => self.unclaimed(key),
            Step::Released { handle } => self.released(handle),
            Step::TornDown { key } => self.torn_down(key),
            Step::PartitionOpened { handle, partition } => self.with_partition(handle, partition),
        }
    }

    /// The registry after some steps.
    pub open spec fn take_all(self, steps: Seq<Step>) -> RegistryView
        decreases steps.len(),
    {
        if steps.len() == 0 {
            self
        } else {
            self.take_all(steps.drop_last()).take(steps.last())
        }
    }
}

} // verus!
