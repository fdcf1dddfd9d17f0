//! The registry of engines: which directory has an engine, and which handles are open on it.

use vstd::prelude::*;

use crate::config::{EngineConfig, Writability};
use crate::error::EngineError;
use crate::model::{handles_of, writers_of, EngineView, HandleView, RegistryView, SlotView};
use crate::path::{CanonicalKey, Part};
use crate::soundness::{
    attaching_is_sound, claiming_is_sound, creating_is_sound, lemma_count_one_more,
    opening_a_partition_is_sound, releasing_is_sound, tearing_down_is_sound, unclaiming_is_sound,
};
use crate::storage::{name_of, partition_name};
use crate::table::PathMap;

verus! {

/// A partition that is open in an engine.
pub struct OpenPartition {
    name: String,
    handle: fjall::PartitionHandle,
}

/// One open database, shared by every handle on its directory.
pub struct Engine {
    id: usize,
    keyspace: fjall::Keyspace,
    partitions: Vec<OpenPartition>,
    key: CanonicalKey,
    cache_size_bytes: Option<u64>,
}

impl View for Engine {
    type V = EngineView;

    closed spec fn view(&self) -> EngineView {
        EngineView {
            id: self.id as int,
            key: self.key@,
            cache_size_bytes: self.cache_size_bytes,
            keyspace: self.keyspace,
            partitions: partitions_view(self.partitions@),
        }
    }
}

spec fn opened_at(partitions: Seq<OpenPartition>, i: int, name: Seq<char>) -> bool {
    0 <= i < partitions.len() && partitions[i].name@ == name
}

spec fn partitions_view(partitions: Seq<OpenPartition>) -> Map<Seq<char>, fjall::PartitionHandle> {
    Map::new(
        |name: Seq<char>| exists|i: int| opened_at(partitions, i, name),
        |name: Seq<char>| partitions[choose|i: int| opened_at(partitions, i, name)].handle,
    )
}

spec fn names_differ(partitions: Seq<OpenPartition>) -> bool {
    forall|i: int, j: int|
        0 <= i < partitions.len() && 0 <= j < partitions.len() && (
        #[trigger] partitions[i]).name@ == (#[trigger] partitions[j]).name@ ==> i == j
}

proof fn lemma_opened(partitions: Seq<OpenPartition>, i: int)
    requires
        names_differ(partitions),
        0 <= i < partitions.len(),
    ensures
        partitions_view(partitions).dom().contains(partitions[i].name@),
        partitions_view(partitions)[partitions[i].name@] == partitions[i].handle,
{
    assert(opened_at(partitions, i, partitions[i].name@));
}

proof fn lemma_open_one_more(partitions: Seq<OpenPartition>, p: OpenPartition)
    requires
        names_differ(partitions),
        !partitions_view(partitions).dom().contains(p.name@),
    ensures
        names_differ(partitions.push(p)),
        partitions_view(partitions.push(p)) == partitions_view(partitions).insert(
            p.name@,
            p.handle,
        ),
{
    let after = partitions.push(p);
    assert forall|i: int| 0 <= i < partitions.len() implies (#[trigger] after[i]).name@
        != p.name@ by {
        assert(after[i] == partitions[i]);
        lemma_opened(partitions, i);
    }
    assert(names_differ(after));
    lemma_opened(after, partitions.len() as int);
    let goal = partitions_view(partitions).insert(p.name@, p.handle);
    assert forall|n: Seq<char>| #[trigger] partitions_view(after).dom().contains(n) && n
        != p.name@ implies partitions_view(partitions).dom().contains(n) && partitions_view(
        after,
    )[n] == partitions_view(partitions)[n] by {
        let i = choose|i: int| opened_at(after, i, n);
        assert(opened_at(after, i, n));
        assert(after[i] == partitions[i]);
        lemma_opened(after, i);
        lemma_opened(partitions, i);
    }
    assert forall|n: Seq<char>| #[trigger]
        partitions_view(partitions).dom().contains(n) implies partitions_view(
        after,
    ).dom().contains(n) by {
        let i = choose|i: int| opened_at(partitions, i, n);
        assert(opened_at(partitions, i, n));
        assert(after[i] == partitions[i]);
        lemma_opened(after, i);
    }
    assert(partitions_view(after).dom() =~= goal.dom());
    assert(partitions_view(after) =~= goal);
}

impl Engine {
    /// No partition is open twice.
    pub closed spec fn wf(&self) -> bool {
        names_differ(self.partitions@)
    }

    /// Tells this engine apart from every other.
    pub fn ptr_id(&self) -> (id: usize)
        ensures
            id == self@.id,
    {
        self.id
    }

    /// The open database.
    pub fn keyspace(&self) -> (keyspace: &fjall::Keyspace)
        ensures
            *keyspace == self@.keyspace,
    {
        &self.keyspace
    }

    /// The open partition of that name.
    pub fn partition(&self, name: &String) -> (partition: Option<&fjall::PartitionHandle>)
        requires
            self.wf(),
        ensures
            match partition {
                Some(p) => self@.partitions.dom().contains(name@) && *p
                    == self@.partitions[name@],
                None => !self@.partitions.dom().contains(name@),
            },
    {
        for i in 0..self.partitions.len()
            invariant
                self.wf(),
                forall|j: int| 0 <= j < i ==> (#[trigger] self.partitions[j]).name@ != name@,
        {
            if self.partitions[i].name == *name {
                proof {
                    lemma_opened(self.partitions@, i as int);
                }
                return Some(&self.partitions[i].handle);
            }
        }
        None
    }
}

/// What the registry knows of a directory that is in use.
pub enum Slot {
    /// Some opener is opening it.
    Creating,
    /// It is open.
    Live {
        engine: Engine,
        /// The number of open handles.
        refs: usize,
        /// The number of those that may write.
        writable: usize,
    },
    /// Its last handle is closed and its engine is being freed.
    TearingDown,
}

impl View for Slot {
    type V = SlotView;

    open spec fn view(&self) -> SlotView {
        match self {
            Slot::Creating => SlotView::Creating,
            Slot::Live { engine, refs, writable } => SlotView::Live {
                engine: engine@,
                refs: *refs as int,
                writable: *writable as int,
            },
            Slot::TearingDown => SlotView::TearingDown,
        }
    }
}

/// A handle on an engine. Whether it is open is recorded in the registry.
pub struct HandleState {
    id: usize,
    engine: usize,
    key: CanonicalKey,
    writable: bool,
}

impl View for HandleState {
    type V = HandleView;

    closed spec fn view(&self) -> HandleView {
        HandleView {
            id: self.id as int,
            engine: self.engine as int,
            key: self.key@,
            writable: self.writable,
        }
    }
}

impl HandleState {
    /// The directory that the handle is on.
    pub fn key(&self) -> (key: &CanonicalKey)
        ensures
            key@ == self@.key,
    {
        &self.key
    }

    /// Whether the handle may write.
    pub fn writable(&self) -> (yes: bool)
        ensures
            yes == self@.writable,
    {
        self.writable
    }

    /// The same handle once more.
    pub fn copied(&self) -> (handle: HandleState)
        ensures
            handle@ == self@,
    {
        HandleState {
            id: self.id,
            engine: self.engine,
            key: self.key.copied(),
            writable: self.writable,
        }
    }

    /// Whether two values are the same handle.
    fn same(&self, other: &HandleState) -> (yes: bool)
        ensures
            yes == (self@ == other@),
    {
        self.id == other.id && self.engine == other.engine && self.writable == other.writable
            && self.key.same(&other.key)
    }
}

/// Every directory in use, and every handle that is not closed.
pub struct Registry {
    slots: PathMap<Slot>,
    open: Vec<HandleState>,
    next_engine: usize,
    next_handle: usize,
}

spec fn views(open: Seq<HandleState>) -> Seq<HandleView> {
    open.map_values(|h: HandleState| h@)
}

spec fn slot_views(slots: Map<Seq<Part>, Slot>) -> Map<Seq<Part>, SlotView> {
    slots.map_values(|slot: Slot| slot@)
}

impl View for Registry {
    type V = RegistryView;

    closed spec fn view(&self) -> RegistryView {
        RegistryView {
            slots: slot_views(self.slots@),
            open: views(self.open@).to_set(),
            next_engine: self.next_engine as int,
            next_handle: self.next_handle as int,
        }
    }
}

spec fn engines_wf(slots: Map<Seq<Part>, Slot>) -> bool {
    forall|key: Seq<Part>| #[trigger]
        slots.dom().contains(key) ==> (slots[key] matches Slot::Live { engine, .. }
            ==> engine.wf())
}

impl Registry {
    /// The lists behind the registry repeat nothing, and the registry is sound.
    pub closed spec fn wf(&self) -> bool {
        &&& self.slots.wf()
        &&& engines_wf(self.slots@)
        &&& views(self.open@).no_duplicates()
        &&& self@.wf()
    }

    /// Another handle, and another engine, can still be numbered.
    pub open spec fn room(&self) -> bool {
        self@.next_engine < usize::MAX && self@.next_handle < usize::MAX
    }

    /// What a registry whose `wf` holds is worth: its view has the invariant that the laws ask
    /// for.
    pub proof fn is_sound(&self)
        requires
            self.wf(),
        ensures
            self@.wf(),
    {
    }

    /// Whether another handle, and another engine, can still be numbered.
    pub fn has_room(&self) -> (yes: bool)
        ensures
            yes == self.room(),
    {
        self.next_engine < usize::MAX && self.next_handle < usize::MAX
    }

    /// A registry in which nothing is in use.
    pub fn new() -> (registry: Registry)
        ensures
            registry.wf(),
            registry.room(),
            registry@ == RegistryView::empty(),
    {
        let registry = Registry {
            slots: PathMap::new(),
            open: Vec::new(),
            next_engine: 0,
            next_handle: 0,
        };
        assert(registry@.slots =~= Map::empty());
        assert(registry@.open =~= Set::empty());
        registry
    }

    /// Whether an opener of the directory has to wait: it is being opened, or its engine is being
    /// freed.
    pub fn busy(&self, key: &CanonicalKey) -> (yes: bool)
        requires
            self.wf(),
        ensures
            yes == self@.busy(key@),
    {
        match self.slots.get(key) {
            Some(Slot::Creating) => true,
            Some(Slot::TearingDown) => true,
            _ => false,
        }
    }

    /// The number of handles that are open on the engine of the directory.
    pub fn refs(&self, key: &CanonicalKey) -> (n: usize)
        requires
            self.wf(),
        ensures
            match self@.engine_at(key@) {
                Some(engine) => n == handles_of(self@.open, engine.id).len(),
                None => n == 0,
            },
    {
        match self.slots.get(key) {
            Some(Slot::Live { refs, .. }) => {
                assert(self@.slots.dom().contains(key@));
                assert(self@.slot_ok(key@));
                *refs
            },
            _ => 0,
        }
    }

    /// Where the handle is among those that are open.
    fn position(&self, handle: &HandleState) -> (at: Option<usize>)
        ensures
            match at {
                Some(i) => i < self.open.len() && self.open[i as int]@ == handle@,
                None => !self@.open.contains(handle@),
            },
    {
        for i in 0..self.open.len()
            invariant
                forall|j: int| 0 <= j < i ==> (#[trigger] self.open[j])@ != handle@,
        {
            if self.open[i].same(handle) {
                return Some(i);
            }
        }
        assert(!views(self.open@).contains(handle@)) by {
            if views(self.open@).contains(handle@) {
                let i = choose|i: int|
                    0 <= i < views(self.open@).len() && views(self.open@)[i] == handle@;
                assert(self.open[i]@ == handle@);
            }
        }
        None
    }

    /// The engine that the handle can use.
    pub fn engine_of(&self, handle: &HandleState) -> (engine: Option<&Engine>)
        requires
            self.wf(),
        ensures
            match engine {
                Some(e) => e.wf() && self@.engine_of(handle@) == Some(e@),
                None => self@.engine_of(handle@) is None,
            },
    {
        match self.position(handle) {
            None => None,
            Some(i) => {
                assert(views(self.open@)[i as int] == handle@);
                assert(self@.open.contains(handle@));
                match self.slots.get(&handle.key) {
                    Some(Slot::Live { engine, .. }) => {
                        if engine.id == handle.engine {
                            Some(engine)
                        } else {
                            None
                        }
                    },
                    _ => None,
                }
            },
        }
    }
}

/// One more handle that was not open before.
proof fn lemma_open_pushed(open: Seq<HandleState>, h: HandleState)
    requires
        views(open).no_duplicates(),
        !views(open).to_set().contains(h@),
    ensures
        views(open.push(h)).no_duplicates(),
        views(open.push(h)).to_set() == views(open).to_set().insert(h@),
        views(open.push(h)).to_set().len() <= open.len() + 1,
        views(open.push(h)).to_set().finite(),
{
    assert(views(open.push(h)) =~= views(open).push(h@));
    assert forall|i: int| 0 <= i < open.len() implies views(open)[i] != h@ by {
        assert(views(open).contains(views(open)[i]));
    }
    views(open).lemma_push_to_set_commute(h@);
    views(open.push(h)).lemma_cardinality_of_set();
    vstd::seq_lib::seq_to_set_is_finite(views(open.push(h)));
}

/// One open handle less.
proof fn lemma_open_removed(open: Seq<HandleState>, at: int)
    requires
        views(open).no_duplicates(),
        0 <= at < open.len(),
    ensures
        views(open.remove(at)).no_duplicates(),
        views(open.remove(at)).to_set() == views(open).to_set().remove(open[at]@),
{
    let before = views(open);
    let after = views(open.remove(at));
    assert(after =~= before.remove(at));
    assert forall|h: HandleView| after.to_set().contains(h) <==> before.to_set().remove(
        open[at]@,
    ).contains(h) by {
        if after.contains(h) {
            let i = choose|i: int| 0 <= i < after.len() && after[i] == h;
            let j = if i < at {
                i
            } else {
                i + 1
            };
            assert(before[j] == h);
            assert(before[at] == open[at]@);
        }
        if before.contains(h) && h != open[at]@ {
            let j = choose|j: int| 0 <= j < before.len() && before[j] == h;
            assert(j != at);
            let i = if j < at {
                j
            } else {
                j - 1
            };
            assert(after[i] == h);
        }
    }
    assert(after.to_set() =~= before.to_set().remove(open[at]@));
}

/// Something that an opener should be told.
#[derive(Clone, Copy, PartialEq, Eq, Structural, Debug)]
pub enum Warning {
    /// The engine was created with another cache capacity, and keeps it.
    CacheSizeIgnored { requested: u64, actual: u64 },
    /// The engine was created without asking for a cache capacity, and keeps the default one.
    CacheSizeNotSet { requested: u64 },
    /// A second handle that may write is now open; keeping to one writer is the caller's part.
    SecondWriter,
}

/// The warning about the cache capacity: the opener asks for one, and the first opener asked for
/// another or for none.
pub open spec fn cache_warning(requested: Option<u64>, actual: Option<u64>) -> Seq<Warning> {
    match (requested, actual) {
        (Some(requested), Some(actual)) => if requested != actual {
            seq![Warning::CacheSizeIgnored { requested, actual }]
        } else {
            seq![]
        },
        (Some(requested), None) => seq![Warning::CacheSizeNotSet { requested }],
        (None, _) => seq![],
    }
}

/// The warning about writers: the new handle may write, and so may another that is open.
pub open spec fn writer_warning(w: Writability, writable_before: int) -> Seq<Warning> {
    if w is Writable && writable_before >= 1 {
        seq![Warning::SecondWriter]
    } else {
        seq![]
    }
}

/// What an opener reports, with the registry locked.
pub enum AttachEvent {
    /// It derived this key for its directory and now asks for an engine.
    Arrived { key: CanonicalKey },
    /// It opened the directory that it had claimed as `key`. Now that the directory exists, its
    /// key is `canonical`.
    Opened { key: CanonicalKey, canonical: CanonicalKey, keyspace: fjall::Keyspace },
    /// It could not open the directory that it had claimed as `key`.
    OpenFailed { key: CanonicalKey, error: EngineError },
}

/// What an opener has to do next.
pub enum AttachAction {
    /// It has its handle. It prints the warnings, frees the database that it opened for nothing,
    /// and wakes the openers that wait, if `wake` is set.
    Attached {
        handle: HandleState,
        warnings: Vec<Warning>,
        surplus: Option<fjall::Keyspace>,
        wake: bool,
    },
    /// It waits until the directory is no longer busy, derives the key anew and asks again.
    Wait { key: CanonicalKey },
    /// It has claimed the directory. It unlocks the registry, opens the directory, and reports.
    Open { key: CanonicalKey },
    /// It wakes the openers that wait, and gives up with this error.
    Failed { error: EngineError },
}

/// One step of an opener: what its event does to the registry, and what it has to do next.
pub open spec fn attach_step(
    before: RegistryView,
    after: RegistryView,
    cfg: EngineConfig,
    w: Writability,
    event: AttachEvent,
    action: AttachAction,
) -> bool {
    match event {
        AttachEvent::Arrived { key } => match before.slot(key@) {
            Some(SlotView::Live { engine, refs, writable }) => {
                &&& after == before.attached(key@, w)
                &&& action matches AttachAction::Attached { handle, warnings, surplus, wake }
                &&& handle@ == before.new_handle(engine.id, key@, w)
                &&& warnings@ == cache_warning(cfg.cache_size_bytes, engine.cache_size_bytes)
                    + writer_warning(w, writable)
                &&& surplus is None
                &&& !wake
            },
            Some(_) => {
                &&& after == before
                &&& action matches AttachAction::Wait { key: k }
                &&& k@ == key@
            },
            None => {
                &&& after == before.claimed(key@)
                &&& action matches AttachAction::Open { key: k }
                &&& k@ == key@
            },
        },
        AttachEvent::Opened { key, canonical, keyspace } => {
            let unclaimed = before.unclaimed(key@);
            match unclaimed.slot(canonical@) {
                Some(SlotView::Live { engine, refs, writable }) => {
                    &&& after == unclaimed.attached(canonical@, w)
                    &&& action matches AttachAction::Attached { handle, warnings, surplus, wake }
                    &&& handle@ == unclaimed.new_handle(engine.id, canonical@, w)
                    &&& warnings@ == cache_warning(cfg.cache_size_bytes, engine.cache_size_bytes)
                        + writer_warning(w, writable)
                    &&& surplus == Some(keyspace)
                    &&& wake
                },
                _ => {
                    &&& after == unclaimed.created(canonical@, cfg.cache_size_bytes, keyspace, w)
                    &&& action matches AttachAction::Attached { handle, warnings, surplus, wake }
                    &&& handle@ == unclaimed.new_handle(unclaimed.next_engine, canonical@, w)
                    &&& warnings@ == Seq::<Warning>::empty()
                    &&& surplus is None
                    &&& wake
                },
            }
        },
        AttachEvent::OpenFailed { key, error } => {
            &&& after == before.unclaimed(key@)
            &&& action == AttachAction::Failed { error }
        },
    }
}

impl Registry {
    /// Attaches one more handle to the live engine of the directory.
    fn attach(&mut self, key: CanonicalKey, w: Writability) -> (handle: HandleState)
        requires
            old(self).wf(),
            old(self).room(),
            old(self)@.engine_at(key@) is Some,
        ensures
            final(self).wf(),
            final(self)@ == old(self)@.attached(key@, w),
            handle@ == old(self)@.new_handle(old(self)@.engine_at(key@)->0.id, key@, w),
    {
        let ghost before = self@;
        proof {
            assert(before.slots.dom().contains(key@));
            assert(before.slot_ok(key@));
            attaching_is_sound(before, key@, w);
        }
        let writes = match w {
            Writability::Writable => true,
            Writability::ReadOnly => false,
        };
        match self.slots.remove(&key) {
            Some(Slot::Live { engine, refs, writable }) => {
                let handle = HandleState {
                    id: self.next_handle,
                    engine: engine.id,
                    key: key.copied(),
                    writable: writes,
                };
                let ghost h = handle@;
                let ghost open = self.open@;
                assert(!before.open.contains(h));
                let listed = handle.copied();
                self.open.push(listed);
                proof {
                    lemma_open_pushed(open, listed);
                    lemma_count_one_more(before.open, h, engine@.id);
                    self@.open.lemma_len_filter(|g: HandleView| g.engine == engine@.id);
                    self@.open.lemma_len_filter(
                        |g: HandleView| g.engine == engine@.id && g.writable,
                    );
                    assert(self.open.len() <= usize::MAX);
                }
                let refs = refs + 1;
                let writable = if writes {
                    writable + 1
                } else {
                    writable
                };
                self.next_handle = self.next_handle + 1;
                self.slots.insert_new(key, Slot::Live { engine, refs, writable });
                assert(self@.slots =~= before.attached(key@, w).slots);
                assert(self@ =~= before.attached(key@, w));
                handle
            },
            _ => {
                assert(false);
                vstd::pervasive::unreached()
            },
        }
    }

    /// Puts a new engine into service, with one handle.
    fn create(
        &mut self,
        key: CanonicalKey,
        cache_size_bytes: Option<u64>,
        keyspace: fjall::Keyspace,
        w: Writability,
    ) -> (handle: HandleState)
        requires
            old(self).wf(),
            old(self).room(),
            old(self)@.engine_at(key@) is None,
        ensures
            final(self).wf(),
            final(self)@ == old(self)@.created(key@, cache_size_bytes, keyspace, w),
            handle@ == old(self)@.new_handle(old(self)@.next_engine, key@, w),
    {
        let ghost before = self@;
        proof {
            creating_is_sound(before, key@, cache_size_bytes, keyspace, w);
        }
        let writes = match w {
            Writability::Writable => true,
            Writability::ReadOnly => false,
        };
        let engine = Engine {
            id: self.next_engine,
            keyspace,
            partitions: Vec::new(),
            key: key.copied(),
            cache_size_bytes,
        };
        assert(engine@.partitions =~= Map::empty());
        let handle = HandleState {
            id: self.next_handle,
            engine: self.next_engine,
            key: key.copied(),
            writable: writes,
        };
        let ghost open = self.open@;
        assert(!before.open.contains(handle@));
        let listed = handle.copied();
        self.open.push(listed);
        proof {
            lemma_open_pushed(open, listed);
        }
        self.next_engine = self.next_engine + 1;
        self.next_handle = self.next_handle + 1;
        self.slots.insert(
            key,
            Slot::Live {
                engine,
                refs: 1,
                writable: if writes {
                    1
                } else {
                    0
                },
            },
        );
        assert(self@.slots =~= before.created(key@, cache_size_bytes, keyspace, w).slots);
        assert(self@ =~= before.created(key@, cache_size_bytes, keyspace, w));
        handle
    }

    /// Ends a claim on the directory.
    fn unclaim(&mut self, key: &CanonicalKey)
        requires
            old(self).wf(),
        ensures
            final(self).wf(),
            final(self)@ == old(self)@.unclaimed(key@),
    {
        proof {
            unclaiming_is_sound(self@, key@);
        }
        let claimed = match self.slots.get(key) {
            Some(Slot::Creating) => true,
            _ => false,
        };
        if claimed {
            self.slots.remove(key);
            assert(self@.slots =~= old(self)@.slots.remove(key@));
            assert(self@ =~= old(self)@.unclaimed(key@));
        }
    }

    /// What an opener is told that attaches to the live engine of the directory; `None` where no
    /// engine is live.
    fn warnings(&self, key: &CanonicalKey, cache_size_bytes: Option<u64>, w: Writability) -> (told:
        Option<Vec<Warning>>)
        requires
            self.wf(),
        ensures
            match self@.slot(key@) {
                Some(SlotView::Live { engine, refs, writable }) => {
                    &&& told matches Some(warnings)
                    &&& warnings@ == cache_warning(cache_size_bytes, engine.cache_size_bytes)
                        + writer_warning(w, writable)
                },
                _ => told is None,
            },
    {
        match self.slots.get(key) {
            Some(Slot::Live { engine, refs, writable }) => {
                let mut warnings: Vec<Warning> = Vec::new();
                if let Some(requested) = cache_size_bytes {
                    match engine.cache_size_bytes {
                        Some(actual) => {
                            if requested != actual {
                                warnings.push(Warning::CacheSizeIgnored { requested, actual });
                            }
                        },
                        None => {
                            warnings.push(Warning::CacheSizeNotSet { requested });
                        },
                    }
                }
                assert(warnings@ =~= cache_warning(cache_size_bytes, engine@.cache_size_bytes));
                if w == Writability::Writable && *writable >= 1 {
                    warnings.push(Warning::SecondWriter);
                }
                assert(warnings@ =~= cache_warning(cache_size_bytes, engine@.cache_size_bytes)
                    + writer_warning(w, *writable as int));
                Some(warnings)
            },
            _ => None,
        }
    }
}

/// Attaches an opener to the shared engine of its directory, creating it if there is none.
///
/// The opener reports an event with the registry locked and does what the action says. It starts
/// with [`AttachEvent::Arrived`] and is done with [`AttachAction::Attached`] or
/// [`AttachAction::Failed`].
pub fn attach_or_create(
    registry: &mut Registry,
    cfg: &EngineConfig,
    w: Writability,
    event: AttachEvent,
) -> (action: AttachAction)
    requires
        old(registry).wf(),
        event is OpenFailed || old(registry).room(),
    ensures
        final(registry).wf(),
        attach_step(old(registry)@, final(registry)@, *cfg, w, event, action),
{
    match event {
        AttachEvent::Arrived { key } => match registry.warnings(&key, cfg.cache_size_bytes, w) {
            Some(warnings) => {
                let handle = registry.attach(key, w);
                AttachAction::Attached { handle, warnings, surplus: None, wake: false }
            },
            None => {
                if registry.busy(&key) {
                    return AttachAction::Wait { key };
                }
                proof {
                    claiming_is_sound(registry@, key@);
                }
                registry.slots.insert_new(key.copied(), Slot::Creating);
                assert(registry@.slots =~= old(registry)@.claimed(key@).slots);
                assert(registry@ =~= old(registry)@.claimed(key@));
                AttachAction::Open { key }
            },
        },
        AttachEvent::Opened { key, canonical, keyspace } => {
            registry.unclaim(&key);
            match registry.warnings(&canonical, cfg.cache_size_bytes, w) {
                Some(warnings) => {
                    let handle = registry.attach(canonical, w);
                    AttachAction::Attached { handle, warnings, surplus: Some(keyspace), wake: true }
                },
                None => {
                    let handle = registry.create(canonical, cfg.cache_size_bytes, keyspace, w);
                    AttachAction::Attached {
                        handle,
                        warnings: Vec::new(),
                        surplus: None,
                        wake: true,
                    }
                },
            }
        },
        AttachEvent::OpenFailed { key, error } => {
            registry.unclaim(&key);
            AttachAction::Failed { error }
        },
    }
}

/// What follows from closing a handle.
pub enum ReleaseAction {
    /// The handle was closed before: nothing happened.
    AlreadyClosed,
    /// The handle is closed. Its engine stays.
    Released,
    /// The handle was the engine's last. The closer unlocks the registry, frees the engine, and
    /// reports with [`torn_down`].
    TearDown { key: CanonicalKey, engine: Engine },
}

/// What closing the handle `h` has the closer do.
pub open spec fn release_step(before: RegistryView, h: HandleView, action: ReleaseAction) -> bool {
    match action {
        ReleaseAction::AlreadyClosed => !before.open.contains(h),
        ReleaseAction::Released => {
            &&& before.open.contains(h)
            &&& handles_of(before.open, h.engine).len() >= 2
        },
        ReleaseAction::TearDown { key, engine } => {
            &&& before.open.contains(h)
            &&& before.engine_of(h) == Some(engine@)
            &&& handles_of(before.open, engine@.id) == set![h]
            &&& key@ == h.key
        },
    }
}

/// The only element of a set of one.
proof fn lemma_only(s: Set<HandleView>, h: HandleView)
    requires
        s.finite(),
        s.contains(h),
        s.len() == 1,
    ensures
        s == set![h],
{
    assert(s.remove(h).len() == 0);
    assert(s.remove(h) =~= Set::empty());
    assert(s =~= set![h]);
}

/// Closes a handle. Closing it again does nothing.
pub fn release(registry: &mut Registry, handle: &HandleState) -> (action: ReleaseAction)
    requires
        old(registry).wf(),
    ensures
        final(registry).wf(),
        final(registry).room() == old(registry).room(),
        final(registry)@ == old(registry)@.released(handle@),
        release_step(old(registry)@, handle@, action),
{
    let ghost before = registry@;
    let ghost h = handle@;
    proof {
        releasing_is_sound(before, h);
    }
    let at = match registry.position(handle) {
        None => {
            return ReleaseAction::AlreadyClosed;
        },
        Some(i) => i,
    };
    assert(views(registry.open@)[at as int] == h);
    assert(before.open.contains(h));
    proof {
        lemma_open_removed(registry.open@, at as int);
    }
    registry.open.remove(at);
    proof {
        assert(before.slots.dom().contains(h.key));
        assert(before.slot_ok(h.key));
    }
    match registry.slots.remove(&handle.key) {
        Some(Slot::Live { engine, refs, writable }) => {
            proof {
                let mine = handles_of(before.open, engine@.id);
                before.open.lemma_len_filter(|g: HandleView| g.engine == engine@.id);
                before.open.lemma_len_filter(|g: HandleView| g.engine == engine@.id && g.writable);
                assert(mine.contains(h));
                if refs == 1 {
                    lemma_only(mine, h);
                }
                if h.writable {
                    assert(writers_of(before.open, engine@.id).contains(h));
                    assert(writers_of(before.open, engine@.id).len() > 0);
                }
            }
            if refs == 1 {
                registry.slots.insert_new(handle.key.copied(), Slot::TearingDown);
                assert(registry@.slots =~= before.released(h).slots);
                assert(registry@ =~= before.released(h));
                ReleaseAction::TearDown { key: handle.key.copied(), engine }
            } else {
                let writable = if handle.writable {
                    writable - 1
                } else {
                    writable
                };
                registry.slots.insert_new(
                    handle.key.copied(),
                    Slot::Live { engine, refs: refs - 1, writable },
                );
                assert(registry@.slots =~= before.released(h).slots);
                assert(registry@ =~= before.released(h));
                ReleaseAction::Released
            }
        },
        _ => {
            assert(false);
            ReleaseAction::Released
        },
    }
}

/// Reports that the engine which served `key`, taken out of service by [`release`], is freed. The
/// closer then wakes the openers that wait.
pub fn torn_down(registry: &mut Registry, key: &CanonicalKey)
    requires
        old(registry).wf(),
    ensures
        final(registry).wf(),
        final(registry).room() == old(registry).room(),
        final(registry)@ == old(registry)@.torn_down(key@),
{
    proof {
        tearing_down_is_sound(registry@, key@);
    }
    let going = match registry.slots.get(key) {
        Some(Slot::TearingDown) => true,
        _ => false,
    };
    if going {
        registry.slots.remove(key);
        assert(registry@.slots =~= old(registry)@.slots.remove(key@));
        assert(registry@ =~= old(registry)@.torn_down(key@));
    }
}

/// Whether the handle is still open: the owner that lets go of it then has to be warned.
pub fn warn_if_unclosed(registry: &Registry, handle: &HandleState) -> (warn: bool)
    requires
        registry.wf(),
    ensures
        warn == registry@.open.contains(handle@),
{
    match registry.position(handle) {
        Some(i) => {
            assert(views(registry.open@)[i as int] == handle@);
            true
        },
        None => false,
    }
}

/// The open database behind a handle.
pub fn with_keyspace<'a>(registry: &'a Registry, handle: &HandleState) -> (result: Result<
    &'a fjall::Keyspace,
    EngineError,
>)
    requires
        registry.wf(),
    ensures
        match registry@.engine_of(handle@) {
            Some(engine) => result matches Ok(keyspace) && *keyspace == engine.keyspace,
            None => result == Err::<&fjall::Keyspace, EngineError>(EngineError::Closed),
        },
{
    match registry.engine_of(handle) {
        Some(engine) => Ok(engine.keyspace()),
        None => Err(EngineError::Closed),
    }
}

/// Whether the partition is open in the engine behind a handle. If it is not, the caller opens it
/// in the database and reports with [`partition_opened`].
pub fn open_partition(registry: &Registry, handle: &HandleState, name: &String) -> (result: Result<
    bool,
    EngineError,
>)
    requires
        registry.wf(),
    ensures
        result == match registry@.engine_of(handle@) {
            Some(engine) => Ok::<bool, EngineError>(engine.partitions.dom().contains(name@)),
            None => Err::<bool, EngineError>(EngineError::Closed),
        },
{
    match registry.engine_of(handle) {
        Some(engine) => match engine.partition(name) {
            Some(_) => Ok(true),
            None => Ok(false),
        },
        None => Err(EngineError::Closed),
    }
}

/// Records a partition that was opened in the database behind a handle. One of the same name that
/// was recorded before stays.
pub fn partition_opened(
    registry: &mut Registry,
    handle: &HandleState,
    partition: fjall::PartitionHandle,
) -> (result: Result<(), EngineError>)
    requires
        old(registry).wf(),
    ensures
        final(registry).wf(),
        final(registry).room() == old(registry).room(),
        final(registry)@ == old(registry)@.with_partition(handle@, partition),
        result == match old(registry)@.engine_of(handle@) {
            Some(_) => Ok::<(), EngineError>(()),
            None => Err::<(), EngineError>(EngineError::Closed),
        },
{
    let ghost before = registry@;
    let ghost h = handle@;
    proof {
        opening_a_partition_is_sound(before, h, partition);
    }
    let name = name_of(&partition);
    let known = match registry.engine_of(handle) {
        Some(engine) => match engine.partition(&name) {
            Some(_) => true,
            None => false,
        },
        None => {
            return Err(EngineError::Closed);
        },
    };
    if !known {
        match registry.slots.remove(&handle.key) {
            Some(Slot::Live { engine, refs, writable }) => {
                let mut engine = engine;
                let ghost e = engine@;
                let entry = OpenPartition { name, handle: partition };
                proof {
                    lemma_open_one_more(engine.partitions@, entry);
                }
                engine.partitions.push(entry);
                registry.slots.insert_new(
                    handle.key.copied(),
                    Slot::Live { engine, refs, writable },
                );
                assert(registry@.slots =~= before.with_partition(h, partition).slots);
                assert(registry@ =~= before.with_partition(h, partition));
            },
            _ => {
                assert(false);
            },
        }
    }
    Ok(())
}

/// The open partition of that name in the engine behind a handle. A partition that is not open is
/// as unusable as one whose engine is closed.
pub fn resolve_partition<'a>(
    registry: &'a Registry,
    handle: &HandleState,
    name: &String,
) -> (result: Result<&'a fjall::PartitionHandle, EngineError>)
    requires
        registry.wf(),
    ensures
        match registry@.partition_of(handle@, name@) {
            Some(partition) => result matches Ok(p) && *p == partition && partition_name(*p)
                == name@,
            None => result == Err::<&fjall::PartitionHandle, EngineError>(EngineError::Closed),
        },
{
    match registry.engine_of(handle) {
        Some(engine) => match engine.partition(name) {
            Some(partition) => {
                proof {
                    assert(registry@.slots.dom().contains(handle@.key));
                    assert(registry@.slot_ok(handle@.key));
                }
                Ok(partition)
            },
            None => Err(EngineError::Closed),
        },
        None => Err(EngineError::Closed),
    }
}

} // verus!
