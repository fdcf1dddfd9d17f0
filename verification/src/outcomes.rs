//! What an opener, a closer and a user of a handle can rely on.
//!
//! The laws speak of the registry's own data: which directories are in use and how, and which
//! handles are open.

use vstd::prelude::*;

use crate::config::{EngineConfig, Writability};
use crate::engine::{
    attach_step, release_step, AttachAction, AttachEvent, Registry, ReleaseAction, Warning,
};
use crate::model::{handles_of, writers_of, HandleView, RegistryView};
use crate::path::Part;
use crate::storage::partition_name;

verus! {

/// Openers of the directory `k` wait: it is being opened, or its engine is being freed.
pub open spec fn waited_for(s: RegistryView, k: Seq<Part>) -> bool {
    s.slots.dom().contains(k) && !(s.slots[k] is Live)
}

/// The directory `k` has an engine.
pub open spec fn in_service(s: RegistryView, k: Seq<Part>) -> bool {
    s.slots.dom().contains(k) && s.slots[k] is Live
}

/// Nothing is known of the directory `k`.
pub open spec fn unused(s: RegistryView, k: Seq<Part>) -> bool {
    !s.slots.dom().contains(k)
}

/// The directory `k` is in both registries as it is in the other.
pub open spec fn same_at(s: RegistryView, t: RegistryView, k: Seq<Part>) -> bool {
    (s.slots.dom().contains(k) <==> t.slots.dom().contains(k)) && (s.slots.dom().contains(k)
        ==> s.slots[k] == t.slots[k])
}

/// Whenever a step of an opener ends the wait for a directory, the opener is told to wake those who
/// wait. This holds of every registry, whatever was opened before.
pub proof fn whoever_ends_a_wait_wakes_those_who_wait(
    before: RegistryView,
    after: RegistryView,
    cfg: EngineConfig,
    w: Writability,
    event: AttachEvent,
    action: AttachAction,
    k: Seq<Part>,
)
    requires
        attach_step(before, after, cfg, w, event, action),
        waited_for(before, k),
        !waited_for(after, k),
    ensures
        action is Failed || (action is Attached && action->wake),
{
}

/// An opener that reports how its own opening went always has those who wait woken, and one that
/// finds an engine in service wakes nobody.
pub proof fn a_report_wakes_those_who_wait(
    before: RegistryView,
    after: RegistryView,
    cfg: EngineConfig,
    w: Writability,
    event: AttachEvent,
    action: AttachAction,
)
    requires
        attach_step(before, after, cfg, w, event, action),
    ensures
        event is Opened ==> action is Attached && action->wake,
        event is OpenFailed ==> action is Failed,
        event is Arrived ==> (action is Attached ==> !action->wake),
{
}

/// Who asks for an engine is attached if the directory is in service, waits if it is being opened
/// or freed, and opens it if it is unused; who waits or opens does so under the key that they gave.
pub proof fn who_asks_is_attached_or_waits_or_opens(
    before: RegistryView,
    after: RegistryView,
    cfg: EngineConfig,
    w: Writability,
    event: AttachEvent,
    action: AttachAction,
)
    requires
        attach_step(before, after, cfg, w, event, action),
        event is Arrived,
    ensures
        ({
            let k = event->Arrived_key@;
            &&& action is Attached <==> in_service(before, k)
            &&& action is Wait <==> waited_for(before, k)
            &&& action is Open <==> unused(before, k)
            &&& action is Wait ==> action->Wait_key@ == k && after == before
            &&& action is Open ==> action->Open_key@ == k && waited_for(after, k)
                && after.slots[k] is Creating
        }),
{
}

/// Only a report of failure fails, with the very error that was reported.
pub proof fn a_failure_is_passed_on(
    before: RegistryView,
    after: RegistryView,
    cfg: EngineConfig,
    w: Writability,
    event: AttachEvent,
    action: AttachAction,
)
    requires
        attach_step(before, after, cfg, w, event, action),
    ensures
        action is Failed <==> event is OpenFailed,
        event is OpenFailed ==> action->Failed_error == event->OpenFailed_error,
        event is OpenFailed ==> after.open == before.open && after.next_handle
            == before.next_handle && after.next_engine == before.next_engine,
{
}

/// The key of the directory that a claim was made on, which a report ends.
pub open spec fn claimed_by(event: AttachEvent) -> Option<Seq<Part>> {
    match event {
        AttachEvent::Arrived { .. } => None,
        AttachEvent::Opened { key, .. } => Some(key@),
        AttachEvent::OpenFailed { key, .. } => Some(key@),
    }
}

/// The key of the directory that an event is about.
pub open spec fn about(event: AttachEvent) -> Option<Seq<Part>> {
    match event {
        AttachEvent::Arrived { key } => Some(key@),
        AttachEvent::Opened { canonical, .. } => Some(canonical@),
        AttachEvent::OpenFailed { .. } => None,
    }
}

/// An opener changes nothing of a directory that its event does not name.
pub proof fn an_opener_touches_only_its_directory(
    before: RegistryView,
    after: RegistryView,
    cfg: EngineConfig,
    w: Writability,
    event: AttachEvent,
    action: AttachAction,
    k: Seq<Part>,
)
    requires
        attach_step(before, after, cfg, w, event, action),
        claimed_by(event) != Some(k),
        about(event) != Some(k),
    ensures
        same_at(before, after, k),
{
}

/// A report ends the claim that it speaks of, and no more than a claim: what is in service, or on
/// its way out of it, stays as it is unless the opener itself goes on there.
pub proof fn a_report_ends_its_claim_and_nothing_else(
    before: RegistryView,
    after: RegistryView,
    cfg: EngineConfig,
    w: Writability,
    event: AttachEvent,
    action: AttachAction,
    k: Seq<Part>,
)
    requires
        attach_step(before, after, cfg, w, event, action),
        claimed_by(event) == Some(k),
        about(event) != Some(k),
    ensures
        before.slots.dom().contains(k) && before.slots[k] is Creating ==> unused(after, k),
        !(before.slots.dom().contains(k) && before.slots[k] is Creating) ==> same_at(
            before,
            after,
            k,
        ),
{
}

/// An opener that is done has one handle more than there was: a new one, on the directory that it
/// asked for, that may write if the opener may, and that reaches the engine in service there. An
/// opener that is not done has none.
pub proof fn an_opener_that_is_done_has_a_new_handle(
    before: RegistryView,
    after: RegistryView,
    cfg: EngineConfig,
    w: Writability,
    event: AttachEvent,
    action: AttachAction,
)
    requires
        before.wf(),
        attach_step(before, after, cfg, w, event, action),
    ensures
        action is Attached ==> {
            let h = action->handle@;
            &&& !before.open.contains(h)
            &&& after.open == before.open.insert(h)
            &&& forall|g: HandleView| #[trigger] before.open.contains(g) ==> g.id != h.id
            &&& before.next_handle <= h.id < after.next_handle
            &&& about(event) == Some(h.key)
            &&& h.writable <==> w is Writable
            &&& in_service(after, h.key)
            &&& after.slots[h.key]->engine.id == h.engine
            &&& after.engine_of(h) == Some(after.slots[h.key]->engine)
        },
        !(action is Attached) ==> after.open == before.open,
        before.next_handle <= after.next_handle <= before.next_handle + 1,
        before.next_engine <= after.next_engine <= before.next_engine + 1,
        !(action is Attached) ==> after.next_handle == before.next_handle,
        !(action is Attached) || in_service(before, action->handle@.key) ==> after.next_engine
            == before.next_engine,
{
}

/// An engine in service stays in service through every step of an opener, as it is; it counts one
/// handle more exactly when the opener attaches to it, and one writer more exactly when that opener
/// may write.
pub proof fn an_engine_in_service_stays_through_every_opener(
    before: RegistryView,
    after: RegistryView,
    cfg: EngineConfig,
    w: Writability,
    event: AttachEvent,
    action: AttachAction,
    k: Seq<Part>,
)
    requires
        attach_step(before, after, cfg, w, event, action),
        in_service(before, k),
    ensures
        in_service(after, k),
        after.slots[k]->engine == before.slots[k]->engine,
        action is Attached && action->handle@.key == k ==> {
            &&& action->handle@.engine == before.slots[k]->engine.id
            &&& after.slots[k]->refs == before.slots[k]->refs + 1
            &&& w is Writable ==> after.slots[k]->writable == before.slots[k]->writable + 1
            &&& !(w is Writable) ==> after.slots[k]->writable == before.slots[k]->writable
        },
        !(action is Attached && action->handle@.key == k) ==> after.slots[k] == before.slots[k],
{
}

/// Where an opener finds no engine in service once it has opened the directory, the engine is a new
/// one: the database that it opened, with the cache capacity that it asked for, no partition, and
/// the opener's handle alone.
pub proof fn a_new_engine_is_the_database_that_was_opened(
    before: RegistryView,
    after: RegistryView,
    cfg: EngineConfig,
    w: Writability,
    event: AttachEvent,
    action: AttachAction,
)
    requires
        before.wf(),
        attach_step(before, after, cfg, w, event, action),
        action is Attached,
        !in_service(before, action->handle@.key),
    ensures
        event is Opened,
        ({
            let k = action->handle@.key;
            let slot = after.slots[k];
            &&& slot->engine.key == k
            &&& slot->engine.keyspace == event->keyspace
            &&& slot->engine.cache_size_bytes == cfg.cache_size_bytes
            &&& forall|name: Seq<char>| !slot->engine.partitions.dom().contains(name)
            &&& slot->refs == 1
            &&& slot->writable == if w is Writable {
                1int
            } else {
                0int
            }
            &&& action->handle@.engine == slot->engine.id
            &&& forall|j: Seq<Part>| #[trigger]
                in_service(before, j) ==> before.slots[j]->engine.id != slot->engine.id
            &&& forall|g: HandleView| #[trigger]
                before.open.contains(g) ==> g.engine != slot->engine.id
            &&& slot->engine.id < after.next_engine
        }),
{
    assert forall|j: Seq<Part>| #[trigger] in_service(before, j) implies before.slots[j]->engine.id
        < before.next_engine by {
        assert(before.slot_ok(j));
    }
}

/// A database that was opened is kept or given back: it is the new engine's, or it is handed back
/// to be freed where an engine was there before. Nothing else is handed back.
pub proof fn an_opened_database_is_kept_or_given_back(
    before: RegistryView,
    after: RegistryView,
    cfg: EngineConfig,
    w: Writability,
    event: AttachEvent,
    action: AttachAction,
)
    requires
        before.wf(),
        attach_step(before, after, cfg, w, event, action),
        action is Attached,
    ensures
        event is Arrived ==> action->surplus is None,
        event is Opened ==> {
            let k = event->canonical@;
            &&& in_service(before, k) ==> action->surplus == Some(event->keyspace)
            &&& !in_service(before, k) ==> action->surplus is None
                && after.slots[k]->engine.keyspace == event->keyspace
        },
{
}

/// What an opener is told, in full: first of a cache capacity that it asked for and does not get,
/// with the one in force if one was asked for; then of another writer. Each is told once.
pub proof fn an_opener_is_told_exactly_what_it_should_know(
    before: RegistryView,
    after: RegistryView,
    cfg: EngineConfig,
    w: Writability,
    event: AttachEvent,
    action: AttachAction,
    asked: u64,
    fixed: u64,
)
    requires
        before.wf(),
        attach_step(before, after, cfg, w, event, action),
        action is Attached,
    ensures
        ({
            let k = action->handle@.key;
            let told = action->warnings@;
            let there = in_service(before, k);
            let in_force = before.slots[k]->engine.cache_size_bytes;
            &&& told.contains(Warning::CacheSizeIgnored { requested: asked, actual: fixed }) <==> there
                && cfg.cache_size_bytes == Some(asked) && in_force == Some(fixed) && asked != fixed
            &&& told.contains(Warning::CacheSizeNotSet { requested: asked }) <==> there
                && cfg.cache_size_bytes == Some(asked) && in_force is None
            &&& told.contains(Warning::SecondWriter) <==> there && w is Writable
                && before.slots[k]->writable > 0
            &&& told.no_duplicates()
            &&& told.len() <= 2
            &&& told.len() == 2 ==> told[1] == Warning::SecondWriter
        }),
{
    let k = action->handle@.key;
    let told = action->warnings@;
    if in_service(before, k) {
        assert(before.slot_ok(k));
        if told.len() > 0 {
            assert(told.contains(told[0]));
        }
        if told.len() > 1 {
            assert(told.contains(told[1]));
        }
        assert(told.len() <= 2);
        let ignored = Warning::CacheSizeIgnored { requested: asked, actual: fixed };
        let not_set = Warning::CacheSizeNotSet { requested: asked };
        assert(told.contains(ignored) ==> told[0] == ignored);
        assert(told.contains(not_set) ==> told[0] == not_set);
    }
}

/// Who waited for an opener gets that opener's engine: whoever asks for the directory next, under
/// the key that it has once it exists, is attached to the engine that the opener is attached to,
/// with a handle of their own.
pub proof fn who_waited_shares_the_engine(
    s0: RegistryView,
    s1: RegistryView,
    s2: RegistryView,
    cfg1: EngineConfig,
    cfg2: EngineConfig,
    w1: Writability,
    w2: Writability,
    opened: AttachEvent,
    asked: AttachEvent,
    action1: AttachAction,
    action2: AttachAction,
)
    requires
        s0.wf(),
        attach_step(s0, s1, cfg1, w1, opened, action1),
        attach_step(s1, s2, cfg2, w2, asked, action2),
        opened is Opened,
        asked is Arrived,
        asked->Arrived_key@ == opened->canonical@,
    ensures
        action1 is Attached && action2 is Attached,
        action2->handle@ != action1->handle@,
        action2->handle@.key == action1->handle@.key,
        action2->handle@.engine == action1->handle@.engine,
        s2.slots[action2->handle@.key]->engine == s1.slots[action1->handle@.key]->engine,
        s2.open.contains(action1->handle@) && s2.open.contains(action2->handle@),
        s2.slots[action2->handle@.key]->refs == s1.slots[action1->handle@.key]->refs + 1,
{
}

/// While a directory is claimed, nobody else gets to open it.
pub proof fn a_claimed_directory_is_opened_by_one(
    s0: RegistryView,
    s1: RegistryView,
    s2: RegistryView,
    cfg1: EngineConfig,
    cfg2: EngineConfig,
    w1: Writability,
    w2: Writability,
    first: AttachEvent,
    second: AttachEvent,
    action1: AttachAction,
    action2: AttachAction,
)
    requires
        attach_step(s0, s1, cfg1, w1, first, action1),
        attach_step(s1, s2, cfg2, w2, second, action2),
        first is Arrived && action1 is Open,
        second is Arrived && second->Arrived_key@ == first->Arrived_key@,
    ensures
        action2 is Wait,
        action2->Wait_key@ == first->Arrived_key@,
        s2 == s1,
{
}

/// The last close, and no other, has the closer free the engine: the engine that the handle
/// reached, under the handle's own key. A handle that is not open is told so, and every other close
/// leaves the engine be.
pub proof fn the_last_close_frees_the_engine(
    before: RegistryView,
    h: HandleView,
    action: ReleaseAction,
)
    requires
        before.wf(),
        release_step(before, h, action),
    ensures
        action is AlreadyClosed <==> !before.open.contains(h),
        action is TearDown <==> before.open.contains(h) && forall|g: HandleView| #[trigger]
            before.open.contains(g) && g.engine == h.engine ==> g == h,
        action is Released <==> before.open.contains(h) && exists|g: HandleView| #[trigger]
            before.open.contains(g) && g.engine == h.engine && g != h,
        action is TearDown <==> before.open.contains(h) && waited_for(before.released(h), h.key),
        action is TearDown ==> action->TearDown_key@ == h.key && in_service(before, h.key)
            && before.slots[h.key]->engine == action->engine@ && before.engine_of(h) == Some(
            action->engine@,
        ),
{
    let mine = before.open.filter(|g: HandleView| g.engine == h.engine);
    before.open.lemma_len_filter(|g: HandleView| g.engine == h.engine);
    assert(mine == handles_of(before.open, h.engine));
    if before.open.contains(h) {
        assert(mine.contains(h));
        assert(before.slots.dom().contains(h.key) && before.slot_ok(h.key));
        if exists|g: HandleView| #[trigger]
            before.open.contains(g) && g.engine == h.engine && g != h {
            let g = choose|g: HandleView| #[trigger]
                before.open.contains(g) && g.engine == h.engine && g != h;
            assert(mine.contains(g));
            assert(!set![h].contains(g));
            assert(mine != set![h]);
            assert(mine.remove(h).contains(g));
            assert(mine.remove(h).len() > 0);
        } else {
            assert(mine =~= set![h]);
            assert(set![h].len() == 1);
        }
    }
}

/// Closing a handle closes it and no other; it changes nothing of any other directory; and the
/// engine that it leaves behind, if it is not the last, counts one handle less, and one writer less
/// if the handle could write.
pub proof fn a_close_takes_one_handle_away(before: RegistryView, h: HandleView, k: Seq<Part>)
    requires
        before.wf(),
        before.open.contains(h),
    ensures
        before.released(h).open == before.open.remove(h),
        before.released(h).next_handle == before.next_handle,
        before.released(h).next_engine == before.next_engine,
        k != h.key ==> same_at(before, before.released(h), k),
        before.released(h).slots.dom() == before.slots.dom(),
        before.slots[h.key]->refs == 1 ==> before.released(h).slots[h.key] is TearingDown,
        before.slots[h.key]->refs != 1 ==> {
            let slot = before.released(h).slots[h.key];
            &&& slot is Live
            &&& slot->engine == before.slots[h.key]->engine
            &&& slot->refs == before.slots[h.key]->refs - 1
            &&& slot->writable == before.slots[h.key]->writable - if h.writable {
                1int
            } else {
                0int
            }
        },
{
    assert(before.slots.dom().contains(h.key) && before.slot_ok(h.key));
    assert(before.released(h).slots.dom() =~= before.slots.dom());
}

/// A handle that is not open cannot be closed: nothing changes.
pub proof fn closing_what_is_closed_changes_nothing(before: RegistryView, h: HandleView)
    requires
        !before.open.contains(h),
    ensures
        before.released(h) == before,
{
}

/// A directory that was closed for good is given back: when the closer has done what it was told,
/// nobody waits for the directory, and whoever asks for it next opens it anew.
pub proof fn a_directory_is_given_back(
    before: RegistryView,
    h: HandleView,
    closing: ReleaseAction,
    later: RegistryView,
    cfg: EngineConfig,
    w: Writability,
    event: AttachEvent,
    action: AttachAction,
)
    requires
        before.wf(),
        release_step(before, h, closing),
        closing is TearDown,
        attach_step(
            before.released(h).torn_down(closing->TearDown_key@),
            later,
            cfg,
            w,
            event,
            action,
        ),
        event is Arrived && event->Arrived_key@ == h.key,
    ensures
        unused(before.released(h).torn_down(closing->TearDown_key@), h.key),
        action is Open,
{
    the_last_close_frees_the_engine(before, h, closing);
}

/// A close never leaves the directory waited for unless the closer is told to free the engine.
pub proof fn a_close_without_freeing_leaves_nobody_waiting(
    before: RegistryView,
    h: HandleView,
    action: ReleaseAction,
    k: Seq<Part>,
)
    requires
        before.wf(),
        release_step(before, h, action),
        !(action is TearDown),
    ensures
        waited_for(before.released(h), k) ==> waited_for(before, k),
{
    the_last_close_frees_the_engine(before, h, action);
}

/// Freeing an engine ends the wait for its directory, and touches nothing else: neither another
/// directory, nor one that is being opened or in service, nor any handle.
pub proof fn freeing_an_engine_ends_the_wait_for_it(
    s: RegistryView,
    key: Seq<Part>,
    k: Seq<Part>,
)
    ensures
        s.slots.dom().contains(key) && s.slots[key] is TearingDown ==> unused(
            s.torn_down(key),
            key,
        ),
        !(s.slots.dom().contains(key) && s.slots[key] is TearingDown) ==> s.torn_down(key) == s,
        k != key ==> same_at(s, s.torn_down(key), k),
        s.torn_down(key).open == s.open,
        s.torn_down(key).next_handle == s.next_handle,
        s.torn_down(key).next_engine == s.next_engine,
{
}

/// A handle that is open reaches the engine in service at its key, and a handle that is not reaches
/// none; a directory is busy exactly when openers wait for it.
pub proof fn what_a_handle_reaches(s: RegistryView, h: HandleView, name: Seq<char>, k: Seq<Part>)
    requires
        s.wf(),
    ensures
        s.open.contains(h) ==> in_service(s, h.key) && s.slots[h.key]->engine.id == h.engine
            && s.engine_of(h) == Some(s.slots[h.key]->engine),
        !s.open.contains(h) ==> s.engine_of(h) is None && s.partition_of(h, name) is None,
        s.open.contains(h) && s.slots[h.key]->engine.partitions.dom().contains(name)
            ==> s.partition_of(h, name) == Some(s.slots[h.key]->engine.partitions[name]),
        s.open.contains(h) && !s.slots[h.key]->engine.partitions.dom().contains(name)
            ==> s.partition_of(h, name) is None,
        s.busy(k) <==> waited_for(s, k),
        in_service(s, k) ==> s.engine_at(k) == Some(s.slots[k]->engine),
        !in_service(s, k) ==> s.engine_at(k) is None,
{
}

/// An engine counts its open handles, those that may write among them, and has at least one; no two
/// directories have one engine.
pub proof fn an_engine_counts_its_handles(s: RegistryView, k: Seq<Part>, j: Seq<Part>)
    requires
        s.wf(),
        in_service(s, k),
    ensures
        ({
            let id = s.slots[k]->engine.id;
            &&& s.slots[k]->refs == s.open.filter(|h: HandleView| h.engine == id).len()
            &&& s.slots[k]->writable == s.open.filter(
                |h: HandleView| h.engine == id && h.writable,
            ).len()
            &&& s.slots[k]->refs >= 1
            &&& s.slots[k]->engine.key == k
            &&& in_service(s, j) && s.slots[j]->engine.id == id ==> j == k
        }),
{
    assert(s.slot_ok(k));
    let id = s.slots[k]->engine.id;
    assert(handles_of(s.open, id) =~= s.open.filter(|h: HandleView| h.engine == id));
    assert(writers_of(s.open, id) =~= s.open.filter(
        |h: HandleView| h.engine == id && h.writable,
    ));
    if in_service(s, j) && s.slots[j]->engine.id == id {
        assert(s.engine_at(j)->0.id == s.engine_at(k)->0.id);
    }
}

/// Recording a partition makes it, under its own name, the partition of every handle on the
/// directory, unless there is one of that name; it changes nothing else of the engine, nothing of
/// its counts, and nothing of any other directory. Through a handle that is not open, nothing is
/// recorded.
pub proof fn a_partition_is_recorded_under_its_name(
    s: RegistryView,
    h: HandleView,
    partition: fjall::PartitionHandle,
    k: Seq<Part>,
    name: Seq<char>,
)
    requires
        s.wf(),
    ensures
        ({
            let t = s.with_partition(h, partition);
            let own = partition_name(partition);
            &&& t.open == s.open
            &&& t.next_handle == s.next_handle && t.next_engine == s.next_engine
            &&& k != h.key ==> same_at(s, t, k)
            &&& !s.open.contains(h) ==> t == s
            &&& s.open.contains(h) ==> {
                let e = s.slots[h.key]->engine;
                let f = t.slots[h.key]->engine;
                &&& in_service(t, h.key)
                &&& t.slots[h.key]->refs == s.slots[h.key]->refs
                &&& t.slots[h.key]->writable == s.slots[h.key]->writable
                &&& f.id == e.id && f.key == e.key && f.cache_size_bytes == e.cache_size_bytes
                    && f.keyspace == e.keyspace
                &&& f.partitions.dom().contains(own)
                &&& e.partitions.dom().contains(own) ==> f.partitions[own] == e.partitions[own]
                &&& !e.partitions.dom().contains(own) ==> f.partitions[own] == partition
                &&& name != own ==> (f.partitions.dom().contains(name)
                    <==> e.partitions.dom().contains(name))
                &&& name != own && e.partitions.dom().contains(name) ==> f.partitions[name]
                    == e.partitions[name]
            }
        }),
{
}

/// Handles and engines can be numbered until the numbers run out.
pub proof fn there_is_room_until_the_numbers_run_out(registry: Registry)
    ensures
        registry.room() <==> registry@.next_engine < usize::MAX && registry@.next_handle
            < usize::MAX,
{
}

/// A new registry knows of no directory and no handle.
pub proof fn nothing_is_in_use_at_first(k: Seq<Part>, h: HandleView)
    ensures
        unused(RegistryView::empty(), k),
        !RegistryView::empty().open.contains(h),
        RegistryView::empty().next_engine == 0 && RegistryView::empty().next_handle == 0,
        RegistryView::empty().wf(),
{
}

} // verus!
