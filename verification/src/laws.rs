//! What holds of the library as a whole.

use vstd::prelude::*;

use crate::config::{EngineConfig, Writability};
use crate::engine::{
    attach_step, cache_warning, writer_warning, AttachAction, AttachEvent, Warning,
};
use crate::model::{handles_of, writers_of, HandleView, RegistryView, SlotView, Step};
use crate::path::Part;
use crate::soundness::{
    attaching_is_sound, claiming_is_sound, creating_is_sound, empty_is_sound,
    opening_a_partition_is_sound, releasing_is_sound, tearing_down_is_sound, unclaiming_is_sound,
};
use crate::storage::partition_name;
use crate::surface::writes_to;

verus! {

/// Every step keeps the registry sound: an engine serves one directory, counts exactly its open
/// handles, and has at least one.
pub proof fn every_step_is_sound(s: RegistryView, step: Step)
    requires
        s.wf(),
    ensures
        s.take(step).wf(),
{
    match step {
        Step::Arrived { key, w } => {
            if s.engine_at(key) is Some {
                attaching_is_sound(s, key, w);
            } else {
                claiming_is_sound(s, key);
            }
        },
        Step::Opened { key, canonical, cache_size_bytes, keyspace, w } => {
            unclaiming_is_sound(s, key);
            let unclaimed = s.unclaimed(key);
            if unclaimed.engine_at(canonical) is Some {
                attaching_is_sound(unclaimed, canonical, w);
            } else {
                creating_is_sound(unclaimed, canonical, cache_size_bytes, keyspace, w);
            }
        },
        Step::OpenFailed { key } => {
            unclaiming_is_sound(s, key);
        },
        Step::Released { handle } => {
            releasing_is_sound(s, handle);
        },
        Step::TornDown { key } => {
            tearing_down_is_sound(s, key);
        },
        Step::PartitionOpened { handle, partition } => {
            opening_a_partition_is_sound(s, handle, partition);
        },
    }
}

/// Whatever the openers and closers of a process do, and in whichever order, its registry stays
/// sound.
pub proof fn every_history_is_sound(steps: Seq<Step>)
    ensures
        RegistryView::empty().take_all(steps).wf(),
    decreases steps.len(),
{
    if steps.len() == 0 {
        empty_is_sound();
    } else {
        every_history_is_sound(steps.drop_last());
        every_step_is_sound(RegistryView::empty().take_all(steps.drop_last()), steps.last());
    }
}

/// The step that an opener's event is.
pub open spec fn step_of(cfg: EngineConfig, w: Writability, event: AttachEvent) -> Step {
    match event {
        AttachEvent::Arrived { key } => Step::Arrived { key: key@, w },
        AttachEvent::Opened { key, canonical, keyspace } => Step::Opened {
            key: key@,
            canonical: canonical@,
            cache_size_bytes: cfg.cache_size_bytes,
            keyspace,
            w,
        },
        AttachEvent::OpenFailed { key, error } => Step::OpenFailed { key: key@ },
    }
}

/// What an opener does to the registry is one of the steps that the laws speak of.
pub proof fn an_opener_takes_steps(
    before: RegistryView,
    after: RegistryView,
    cfg: EngineConfig,
    w: Writability,
    event: AttachEvent,
    action: AttachAction,
)
    requires
        attach_step(before, after, cfg, w, event, action),
    ensures
        after == before.take(step_of(cfg, w, event)),
{
}

/// One engine per directory: handles on one directory reach one engine.
pub proof fn handles_on_one_directory_share_its_engine(
    s: RegistryView,
    h1: HandleView,
    h2: HandleView,
)
    requires
        s.wf(),
        s.engine_of(h1) is Some,
        s.engine_of(h2) is Some,
        h1.key == h2.key,
    ensures
        s.engine_of(h1) == s.engine_of(h2),
{
}

/// Directories with different keys never share an engine.
pub proof fn distinct_directories_have_distinct_engines(
    s: RegistryView,
    h1: HandleView,
    h2: HandleView,
)
    requires
        s.wf(),
        s.engine_of(h1) is Some,
        s.engine_of(h2) is Some,
        h1.key != h2.key,
    ensures
        s.engine_of(h1)->0.id != s.engine_of(h2)->0.id,
        s.engine_of(h1) != s.engine_of(h2),
{
    if s.engine_of(h1)->0.id == s.engine_of(h2)->0.id {
        assert(s.engine_at(h1.key)->0.id == s.engine_at(h2.key)->0.id);
    }
}

/// The first opener creates the engine and every later one attaches to that engine, reader or
/// writer; what the first asked for stays in force.
pub proof fn a_later_opener_attaches_to_the_same_engine(
    s: RegistryView,
    key: Seq<Part>,
    cache_size_bytes: Option<u64>,
    keyspace: fjall::Keyspace,
    first: Writability,
    second: Writability,
)
    requires
        s.wf(),
    ensures
        ({
            let one = s.created(key, cache_size_bytes, keyspace, first);
            let two = one.take(Step::Arrived { key, w: second });
            let engine = s.new_engine(key, cache_size_bytes, keyspace);
            let h1 = s.new_handle(s.next_engine, key, first);
            let h2 = one.new_handle(s.next_engine, key, second);
            &&& one.engine_of(h1) == Some(engine)
            &&& two.engine_of(h1) == Some(engine)
            &&& two.engine_of(h2) == Some(engine)
            &&& h1 != h2
            &&& two.slots[key]->refs == 2
        }),
{
}

/// An engine keeps what its first opener fixed, and its partitions, for as long as it serves its
/// directory.
pub proof fn an_engine_keeps_its_settings(
    s: RegistryView,
    step: Step,
    key: Seq<Part>,
)
    requires
        s.wf(),
        s.engine_at(key) is Some,
        s.take(step).engine_at(key) is Some,
        s.take(step).engine_at(key)->0.id == s.engine_at(key)->0.id,
    ensures
        ({
            let before = s.engine_at(key)->0;
            let after = s.take(step).engine_at(key)->0;
            &&& after.key == before.key
            &&& after.cache_size_bytes == before.cache_size_bytes
            &&& after.keyspace == before.keyspace
            &&& before.partitions.submap_of(after.partitions)
        }),
{
    assert(s.slots.dom().contains(key));
    assert(s.slot_ok(key));
}

/// A handle has an engine exactly as long as it is open.
pub proof fn an_open_handle_has_an_engine(s: RegistryView, h: HandleView)
    requires
        s.wf(),
    ensures
        s.engine_of(h) is Some <==> s.open.contains(h),
{
}

/// An open handle keeps its engine through everything but its own closing.
pub proof fn an_open_handle_keeps_its_engine(s: RegistryView, step: Step, h: HandleView)
    requires
        s.wf(),
        s.engine_of(h) is Some,
        step != (Step::Released { handle: h }),
    ensures
        s.take(step).engine_of(h) is Some,
        s.take(step).engine_of(h)->0.id == s.engine_of(h)->0.id,
{
    let e = s.engine_at(h.key)->0;
    assert(s.slots.dom().contains(h.key));
    assert(s.slot_ok(h.key));
    match step {
        Step::Released { handle: g } => {
            if s.open.contains(g) && s.engine_of(g) is Some && g.key == h.key {
                let mine = handles_of(s.open, e.id);
                s.open.lemma_len_filter(|x: HandleView| x.engine == e.id);
                assert(mine.contains(h) && mine.contains(g));
                assert(mine.remove(g).contains(h));
                assert(mine.remove(g).len() > 0);
                assert(mine.len() >= 2);
            }
        },
        _ => {},
    }
}

/// What one handle writes to is what another reads from: under one name, all handles on a
/// directory reach one partition.
pub proof fn handles_on_one_directory_share_its_partitions(
    s: RegistryView,
    h1: HandleView,
    h2: HandleView,
    name: Seq<char>,
)
    requires
        s.wf(),
        s.engine_of(h1) is Some,
        s.engine_of(h2) is Some,
        h1.key == h2.key,
    ensures
        s.partition_of(h1, name) == s.partition_of(h2, name),
{
}

/// A later read reaches the partition that an earlier write went to, whichever handles on the
/// directory the two were made through and whatever happened in between, as long as the reader's
/// handle was not closed. The writer's may have been.
pub proof fn a_read_reaches_what_was_written_to(
    s: RegistryView,
    steps: Seq<Step>,
    writer: HandleView,
    reader: HandleView,
    name: Seq<char>,
)
    requires
        s.wf(),
        s.partition_of(writer, name) is Some,
        s.engine_of(reader) is Some,
        writer.key == reader.key,
        !steps.contains(Step::Released { handle: reader }),
    ensures
        s.take_all(steps).wf(),
        s.take_all(steps).partition_of(reader, name) == s.partition_of(writer, name),
    decreases steps.len(),
{
    if steps.len() > 0 {
        let before = s.take_all(steps.drop_last());
        assert(steps.contains(steps.last()));
        assert forall|step: Step| steps.drop_last().contains(step) implies steps.contains(step) by {
            let i = choose|i: int| 0 <= i < steps.drop_last().len() && steps.drop_last()[i] == step;
            assert(steps[i] == step);
        }
        a_read_reaches_what_was_written_to(s, steps.drop_last(), writer, reader, name);
        every_step_is_sound(before, steps.last());
        an_open_handle_keeps_its_engine(before, steps.last(), reader);
        an_engine_keeps_its_settings(before, steps.last(), reader.key);
    }
}

/// Partitions are isolated: different names never reach one partition.
pub proof fn different_names_reach_different_partitions(
    s: RegistryView,
    h1: HandleView,
    h2: HandleView,
    name1: Seq<char>,
    name2: Seq<char>,
)
    requires
        s.wf(),
        s.partition_of(h1, name1) is Some,
        s.partition_of(h2, name2) is Some,
        name1 != name2,
    ensures
        partition_name(s.partition_of(h1, name1)->0) == name1,
        partition_name(s.partition_of(h2, name2)->0) == name2,
        s.partition_of(h1, name1) != s.partition_of(h2, name2),
{
    assert(s.slots.dom().contains(h1.key) && s.slot_ok(h1.key));
    assert(s.slots.dom().contains(h2.key) && s.slot_ok(h2.key));
}

/// A partition is opened once: when it is open, opening one of its name changes nothing; when it
/// is not, every handle on the directory reaches it from then on.
pub proof fn a_partition_is_opened_once(
    s: RegistryView,
    h: HandleView,
    g: HandleView,
    partition: fjall::PartitionHandle,
)
    requires
        s.wf(),
        s.engine_of(h) is Some,
        s.engine_of(g) is Some,
        h.key == g.key,
    ensures
        ({
            let name = partition_name(partition);
            let t = s.with_partition(h, partition);
            &&& s.partition_of(h, name) is Some ==> t == s
            &&& s.partition_of(h, name) is None ==> t.partition_of(g, name) == Some(partition)
            &&& t.with_partition(g, partition) == t
        }),
{
}

/// Opening a partition disturbs no other partition and no other directory.
pub proof fn opening_a_partition_disturbs_no_other(
    s: RegistryView,
    h: HandleView,
    g: HandleView,
    partition: fjall::PartitionHandle,
    name: Seq<char>,
)
    requires
        s.wf(),
        name != partition_name(partition) || g.key != h.key,
    ensures
        s.with_partition(h, partition).partition_of(g, name) == s.partition_of(g, name),
{
}

/// A closed handle reaches no engine, and so no partition.
pub proof fn a_closed_handle_is_unusable(s: RegistryView, h: HandleView, name: Seq<char>)
    ensures
        s.released(h).engine_of(h) is None,
        s.released(h).partition_of(h, name) is None,
{
}

/// Closing a handle twice is closing it once.
pub proof fn closing_is_idempotent(s: RegistryView, h: HandleView)
    ensures
        s.released(h).released(h) == s.released(h),
{
}

/// Closing a handle leaves every other handle its engine and its partitions.
pub proof fn closing_one_handle_leaves_the_others(
    s: RegistryView,
    h: HandleView,
    g: HandleView,
    name: Seq<char>,
)
    requires
        s.wf(),
        g != h,
    ensures
        s.released(h).engine_of(g) == s.engine_of(g),
        s.released(h).partition_of(g, name) == s.partition_of(g, name),
{
    if s.engine_of(g) is Some {
        an_open_handle_keeps_its_engine(s, Step::Released { handle: h }, g);
    }
}

/// The last close, and no earlier one, takes the engine out of service.
pub proof fn the_last_close_takes_the_engine_out_of_service(s: RegistryView, h: HandleView)
    requires
        s.wf(),
        s.engine_of(h) is Some,
    ensures
        s.released(h).slot(h.key) == Some(SlotView::TearingDown) <==> handles_of(
            s.open,
            h.engine,
        ) == set![h],
        handles_of(s.open, h.engine) != set![h] ==> s.released(h).engine_at(h.key) == s.engine_of(
            h,
        ),
{
    let mine = handles_of(s.open, h.engine);
    s.open.lemma_len_filter(|x: HandleView| x.engine == h.engine);
    assert(s.slots.dom().contains(h.key));
    assert(s.slot_ok(h.key));
    assert(mine.contains(h));
    if mine.len() == 1 {
        assert(mine.remove(h).len() == 0);
        assert(mine.remove(h) =~= Set::empty());
        assert(mine =~= set![h]);
    }
}

/// A handle that was closed is never open again.
pub proof fn closed_stays_closed(s: RegistryView, steps: Seq<Step>, h: HandleView)
    requires
        s.wf(),
        !s.open.contains(h),
        h.id < s.next_handle,
    ensures
        !s.take_all(steps).open.contains(h),
        s.take_all(steps).engine_of(h) is None,
        s.take_all(steps).next_handle >= s.next_handle,
        s.take_all(steps).wf(),
    decreases steps.len(),
{
    if steps.len() > 0 {
        closed_stays_closed(s, steps.drop_last(), h);
        every_step_is_sound(s.take_all(steps.drop_last()), steps.last());
    }
}

/// An engine that was taken out of service never serves again: an opener of the directory gets a
/// new one.
pub proof fn an_engine_serves_once(s: RegistryView, steps: Seq<Step>, id: int)
    requires
        s.wf(),
        id < s.next_engine,
        forall|key: Seq<Part>| (#[trigger] s.engine_at(key)) is Some ==> s.engine_at(key)->0.id
            != id,
    ensures
        s.take_all(steps).wf(),
        s.take_all(steps).next_engine >= s.next_engine,
        forall|key: Seq<Part>| (#[trigger] s.take_all(steps).engine_at(key)) is Some
            ==> s.take_all(steps).engine_at(key)->0.id != id,
    decreases steps.len(),
{
    if steps.len() > 0 {
        an_engine_serves_once(s, steps.drop_last(), id);
        let before = s.take_all(steps.drop_last());
        let after = s.take_all(steps);
        every_step_is_sound(before, steps.last());
        assert forall|key: Seq<Part>| (#[trigger] after.engine_at(key)) is Some implies
            after.engine_at(key)->0.id != id by {
            assert(before.engine_at(key) is Some ==> before.engine_at(key)->0.id != id);
        }
    }
}

/// Opening a handle and closing it again leaves nothing behind.
pub proof fn open_then_close_leaves_nothing(
    s: RegistryView,
    key: Seq<Part>,
    w: Writability,
)
    requires
        s.wf(),
        s.engine_at(key) is Some,
    ensures
        ({
            let h = s.new_handle(s.engine_at(key)->0.id, key, w);
            let t = s.attached(key, w).released(h);
            t.slots == s.slots && t.open == s.open
        }),
{
    let h = s.new_handle(s.engine_at(key)->0.id, key, w);
    let t = s.attached(key, w).released(h);
    assert(s.slots.dom().contains(key));
    assert(s.slot_ok(key));
    assert(t.slots =~= s.slots);
    assert(t.open =~= s.open);
}

/// Creating an engine, closing its only handle and freeing it leaves nothing behind.
pub proof fn create_then_close_leaves_nothing(
    s: RegistryView,
    key: Seq<Part>,
    cache_size_bytes: Option<u64>,
    keyspace: fjall::Keyspace,
    w: Writability,
)
    requires
        s.wf(),
        s.slot(key) is None,
    ensures
        ({
            let h = s.new_handle(s.next_engine, key, w);
            let t = s.take(Step::Arrived { key, w }).take(
                Step::Opened { key, canonical: key, cache_size_bytes, keyspace, w },
            ).released(h).torn_down(key);
            t.slots == s.slots && t.open == s.open
        }),
{
    let h = s.new_handle(s.next_engine, key, w);
    let claimed = s.take(Step::Arrived { key, w });
    let live = claimed.take(Step::Opened { key, canonical: key, cache_size_bytes, keyspace, w });
    assert(live.engine_of(h) is Some);
    let t = live.released(h).torn_down(key);
    assert(t.slots =~= s.slots);
    assert(t.open =~= s.open);
}

/// A failed open leaves the registry as it was before the claim.
pub proof fn a_failed_open_leaves_nothing(s: RegistryView, key: Seq<Part>, w: Writability)
    requires
        s.slot(key) is None,
    ensures
        s.take(Step::Arrived { key, w }).take(Step::OpenFailed { key }) == s,
{
    assert(s.take(Step::Arrived { key, w }).take(Step::OpenFailed { key }).slots =~= s.slots);
}

/// Only one opener opens a directory: while it does, every other one waits, and changes nothing.
pub proof fn one_opener_at_a_time(s: RegistryView, key: Seq<Part>, w1: Writability, w2: Writability)
    requires
        s.slot(key) is None,
    ensures
        ({
            let claimed = s.take(Step::Arrived { key, w: w1 });
            &&& claimed.busy(key)
            &&& claimed.take(Step::Arrived { key, w: w2 }) == claimed
        }),
{
}

/// A claim ends: whether the directory was opened or not, the claimed key is no longer busy.
pub proof fn a_claim_ends(
    s: RegistryView,
    key: Seq<Part>,
    canonical: Seq<Part>,
    cache_size_bytes: Option<u64>,
    keyspace: fjall::Keyspace,
    w: Writability,
)
    requires
        s.slot(key) == Some(SlotView::Creating),
    ensures
        ({
            let opened = s.take(
                Step::Opened { key, canonical, cache_size_bytes, keyspace, w },
            );
            &&& !opened.busy(key)
            &&& opened.engine_at(canonical) is Some
            &&& !s.take(Step::OpenFailed { key }).busy(key)
        }),
{
}

/// A teardown ends: the directory is no longer busy and can be opened anew.
pub proof fn a_teardown_ends(s: RegistryView, h: HandleView)
    requires
        s.released(h).slot(h.key) == Some(SlotView::TearingDown),
    ensures
        s.released(h).busy(h.key),
        s.released(h).torn_down(h.key).slot(h.key) is None,
{
}

/// An opener that may write is warned exactly when another handle that may write is open on the
/// engine.
pub proof fn a_second_writer_is_warned(s: RegistryView, key: Seq<Part>, w: Writability)
    requires
        s.wf(),
        s.engine_at(key) is Some,
    ensures
        writer_warning(w, s.slots[key]->writable).len() > 0 <==> (w is Writable && exists|
            h: HandleView,
        | #[trigger] s.open.contains(h) && h.writable && s.engine_of(h) == s.engine_at(key)),
{
    let id = s.engine_at(key)->0.id;
    assert(s.slots.dom().contains(key));
    assert(s.slot_ok(key));
    let writers = writers_of(s.open, id);
    s.open.lemma_len_filter(|x: HandleView| x.engine == id && x.writable);
    if writers.len() > 0 {
        let h = writers.choose();
        assert(writers.contains(h));
        assert(s.open.contains(h) && h.writable);
        assert(h.key == key);
        assert(s.engine_of(h) == s.engine_at(key));
    }
    if exists|h: HandleView| #[trigger]
        s.open.contains(h) && h.writable && s.engine_of(h) == s.engine_at(key) {
        let h = choose|h: HandleView| #[trigger]
            s.open.contains(h) && h.writable && s.engine_of(h) == s.engine_at(key);
        assert(writers.contains(h));
    }
}

/// Some warning is about the cache capacity that was asked for.
pub open spec fn told_of_cache(warnings: Seq<Warning>, requested: u64) -> bool {
    exists|i: int|
        0 <= i < warnings.len() && match #[trigger] warnings[i] {
            Warning::CacheSizeIgnored { requested: r, .. } => r == requested,
            Warning::CacheSizeNotSet { requested: r } => r == requested,
            Warning::SecondWriter => false,
        }
}

/// An opener that attaches to an engine which was there before, at once or after opening the
/// directory itself, is warned of the cache capacity exactly when it asks for one and the first
/// opener asked for another or for none, and of a second writer exactly when both it and another
/// open handle may write. An opener that makes the engine is warned of nothing.
pub proof fn an_opener_is_warned_of_what_differs(
    before: RegistryView,
    after: RegistryView,
    cfg: EngineConfig,
    w: Writability,
    event: AttachEvent,
    action: AttachAction,
    requested: u64,
)
    requires
        before.wf(),
        attach_step(before, after, cfg, w, event, action),
        action is Attached,
    ensures
        match before.engine_at(action->handle@.key) {
            Some(engine) => {
                &&& told_of_cache(action->warnings@, requested) <==> cfg.cache_size_bytes == Some(
                    requested,
                ) && engine.cache_size_bytes != Some(requested)
                &&& action->warnings@.contains(Warning::SecondWriter) <==> w is Writable && exists|
                    h: HandleView,
                | #[trigger] before.open.contains(h) && h.writable && before.engine_of(h) == Some(
                    engine,
                )
            },
            None => action->warnings@.len() == 0,
        },
{
    let key = action->handle@.key;
    if before.engine_at(key) is Some {
        let engine = before.engine_at(key)->0;
        let told = action->warnings@;
        let of_cache = cache_warning(cfg.cache_size_bytes, engine.cache_size_bytes);
        let of_writer = writer_warning(w, before.slots[key]->writable);
        assert(told == of_cache + of_writer);
        a_second_writer_is_warned(before, key, w);
        if of_cache.len() > 0 {
            assert(told[0] == of_cache[0]);
        }
        if of_writer.len() > 0 {
            assert(told[of_cache.len() as int] == Warning::SecondWriter);
        }
    }
}

/// A handle may write exactly when its opener asked for that.
pub proof fn a_handle_may_write_if_its_opener_asked(
    before: RegistryView,
    after: RegistryView,
    cfg: EngineConfig,
    w: Writability,
    event: AttachEvent,
    action: AttachAction,
)
    requires
        attach_step(before, after, cfg, w, event, action),
        action is Attached,
    ensures
        action->handle@.writable <==> w is Writable,
        after.open.contains(action->handle@),
{
}

/// A batch asks the storage crate for the same writes as single inserts of its entries, one after
/// another: as many, in the same order, each to the partition that an insert reaches.
pub proof fn a_batch_asks_for_the_writes_of_single_inserts(
    s: RegistryView,
    h: HandleView,
    name: Seq<char>,
    entries: Seq<(Vec<u8>, Vec<u8>)>,
)
    requires
        s.wf(),
        s.partition_of(h, name) is Some,
    ensures
        writes_to(name, entries) == Seq::new(
            entries.len(),
            |i: int|
                (
                    partition_name(s.partition_of(h, name)->0),
                    entries[i].0@,
                    entries[i].1@,
                ),
        ),
{
    assert(s.slots.dom().contains(h.key) && s.slot_ok(h.key));
    assert(writes_to(name, entries) =~= Seq::new(
        entries.len(),
        |i: int|
            (partition_name(s.partition_of(h, name)->0), entries[i].0@, entries[i].1@),
    ));
}

} // verus!
