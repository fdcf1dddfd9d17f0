//! What the library's functions promise whoever calls them.
//!
//! Each law takes the arguments and the result of a call, and says how they are related.

use std::sync::{Condvar, Mutex};

use vstd::arithmetic::power2::pow2;
use vstd::prelude::*;

use crate::config::{open_fjall, to_engine_config, DatabaseConfig, EngineConfig, Writability};
use crate::double::{
    a_number_is_its_fraction_scaled, no_other_number_has_a_whole_part, whole_number,
};
use crate::engine::{
    attach_or_create, attach_step, open_partition, partition_opened, release, release_step,
    resolve_partition, torn_down, warn_if_unclosed, with_keyspace, AttachAction, AttachEvent,
    Engine, HandleState, Registry, ReleaseAction,
};
use crate::error::{
    answer, map_err, panic_log_line, panic_message, panic_reason, EngineError,
};
use crate::keys::{
    a_missing_path_goes_on_from_what_exists, an_existing_path_has_its_canonical_form_for_its_key,
    answers_as, read_from, stands_at, where_nothing_exists_the_path_is_its_key,
};
use crate::model::{handles_of, HandleView};
use crate::outcomes::{
    a_close_takes_one_handle_away, a_new_engine_is_the_database_that_was_opened,
    a_partition_is_recorded_under_its_name, an_engine_counts_its_handles,
    an_engine_in_service_stays_through_every_opener, an_opener_that_is_done_has_a_new_handle,
    in_service, same_at, the_last_close_frees_the_engine, unused, waited_for,
    what_a_handle_reaches, whoever_ends_a_wait_wakes_those_who_wait,
};
use crate::path::{canonical_key, CanonicalKey, FsPath, Part, PathPart};
use crate::persist::{parse_persist_mode, PersistMode};
use crate::shared::{cv, registry, Shared};
use crate::storage::{
    batch_items, batch_keyspace, config_cache_size, config_directory, partition_name,
};
use crate::surface::{
    a_batch_takes_keys_and_values_that_fit, a_flush_goes_as_far_as_its_word_says, open,
    open_readonly, BatchEntry, CloseTask,
    InsertBatchTask, InsertTask, Keyspace, OpenReadonlyTask, OpenTask, Partition, PartitionTask,
    PersistTask, ReadonlyKeyspace, ReadonlyPartition, ReadonlyPartitionTask, RemoveTask,
};
use crate::table::PathMap;

verus! {

/// A database is opened with the cache capacity that was asked for, to the byte, and with the
/// default one where none, or nothing, was asked for; the directory is not touched.
pub proof fn a_database_gets_the_cache_that_was_asked_for(
    cfg: &EngineConfig,
    config: fjall::Config,
    configured: fjall::Config,
    bytes: u64,
)
    requires
        call_ensures(open_fjall, (cfg, config), configured),
    ensures
        bytes >= 1 && cfg.cache_size_bytes == Some(bytes) ==> config_cache_size(configured)
            == bytes,
        cfg.cache_size_bytes == Some(0u64) || cfg.cache_size_bytes is None ==> configured == config,
        config_directory(configured) == config_directory(config),
{
}

/// A caller's number is cut to the whole number below it: with the exponent field 1023 + `e` and
/// the fraction field `f` it is 2 to the power of `e` times 1 + `f` / 2 to the power of 52. What is
/// larger than a `u64` counts as the largest.
pub proof fn a_number_is_cut_to_a_whole_one(bits: u64, whole: Option<u64>, e: nat, f: nat)
    requires
        call_ensures(whole_number, (bits,), whole),
        e <= 1023,
        f < 0x10_0000_0000_0000,
        bits == (1023 + e) * 0x10_0000_0000_0000 + f,
    ensures
        ({
            let exact = (0x10_0000_0000_0000 + f) * pow2(e) / 0x10_0000_0000_0000;
            &&& whole is Some
            &&& exact <= u64::MAX ==> whole->0 == exact
            &&& exact > u64::MAX ==> whole->0 == u64::MAX
        }),
{
    a_number_is_its_fraction_scaled(e, f);
}

/// A number stands for a whole one exactly when it is positive, finite and at least 1.
pub proof fn a_number_below_one_stands_for_nothing(bits: u64, whole: Option<u64>)
    requires
        call_ensures(whole_number, (bits,), whole),
    ensures
        whole is Some <==> 0x3ff0_0000_0000_0000 <= bits < 0x7ff0_0000_0000_0000,
{
    no_other_number_has_a_whole_part(bits);
}

/// A caller's request keeps its path, and asks for the cache capacity that its number stands for.
pub proof fn a_request_is_taken_as_it_is(
    c: &DatabaseConfig,
    cfg: EngineConfig,
    bits: u64,
    whole: Option<u64>,
)
    requires
        call_ensures(to_engine_config, (c,), cfg),
        call_ensures(whole_number, (bits,), whole),
    ensures
        cfg.path@ == c.path@,
        c.cache_size_bytes is None ==> cfg.cache_size_bytes is None,
        c.cache_size_bytes == Some(bits) ==> cfg.cache_size_bytes == whole,
{
}

/// Both ways of opening take a request alike; only the one is for writing.
pub proof fn an_opener_asks_for_what_was_requested(
    c: DatabaseConfig,
    cfg: EngineConfig,
    writer: OpenTask,
    reader: OpenReadonlyTask,
)
    requires
        call_ensures(to_engine_config, (&c,), cfg),
        call_ensures(open, (c,), writer),
        call_ensures(open_readonly, (c,), reader),
    ensures
        writer.cfg.path@ == cfg.path@ && reader.cfg.path@ == cfg.path@,
        writer.cfg.cache_size_bytes == cfg.cache_size_bytes,
        reader.cfg.cache_size_bytes == cfg.cache_size_bytes,
        writer.writability is Writable,
{
}

/// A configuration is copied whole.
pub proof fn a_copy_asks_for_the_same(cfg: &EngineConfig, copy: EngineConfig)
    requires
        call_ensures(EngineConfig::copied, (cfg,), copy),
    ensures
        copy.path@ == cfg.path@,
        copy.cache_size_bytes == cfg.cache_size_bytes,
{
}

/// What went wrong is told in the words that belong to it.
pub proof fn an_error_is_told_in_its_words(
    e: EngineError,
    text: String,
    reason: String,
    message: String,
)
    requires
        call_ensures(map_err, (e,), reason),
        call_ensures(EngineError::to_string, (&e,), message),
    ensures
        e is Closed ==> reason@ == "Keyspace is closed"@,
        e == EngineError::Fjall(text) ==> reason@ == text@,
        message@ == reason@,
{
}

/// What the storage crate replied is passed on: its value as it is, and its message as an error
/// that says just that.
pub proof fn a_reply_is_passed_on<T>(
    reply: Result<T, String>,
    result: Result<T, EngineError>,
    e: EngineError,
    reason: String,
)
    requires
        call_ensures(answer::<T>, (reply,), result),
        call_ensures(map_err, (e,), reason),
    ensures
        reply is Ok <==> result is Ok,
        reply is Ok ==> result->Ok_0 == reply->Ok_0,
        result == Err::<T, EngineError>(e) ==> reason@ == reply->Err_0@,
        result is Err ==> result->Err_0 is Fjall,
{
}

/// A panic is told by the message that it carries, to the caller and in the log alike.
pub proof fn a_panic_is_told_to_caller_and_log(
    literal: Option<&str>,
    formatted: Option<&String>,
    message: String,
    told: &str,
    task: &str,
    reason: String,
    line: String,
)
    requires
        call_ensures(panic_message, (literal, formatted), message),
        call_ensures(panic_reason, (told,), reason),
        call_ensures(panic_log_line, (task, told), line),
    ensures
        literal is Some ==> message@ == literal->0@,
        literal is None && formatted is Some ==> message@ == formatted->0@,
        literal is None && formatted is None ==> message@ == "unknown panic"@,
        reason@ == "fjall: internal error in background task: "@ + told@,
        line@ == "fjall: caught panic in "@ + task@ + " background task: "@ + told@,
{
}

/// A word is read as the mode that it names, no word as the default one, and any other word is
/// refused by name.
pub proof fn a_word_is_read_as_its_mode(s: Option<&str>, result: Result<PersistMode, String>)
    requires
        call_ensures(parse_persist_mode, (s,), result),
    ensures
        s is None ==> result == Ok::<PersistMode, String>(PersistMode::SyncData),
        s matches Some(word) ==> {
            &&& word@ == "sync-data"@ ==> result == Ok::<PersistMode, String>(
                PersistMode::SyncData,
            )
            &&& word@ == "buffer"@ ==> result == Ok::<PersistMode, String>(PersistMode::Buffer)
            &&& word@ == "sync-all"@ ==> result == Ok::<PersistMode, String>(PersistMode::SyncAll)
            &&& word@ != "sync-data"@ && word@ != "buffer"@ && word@ != "sync-all"@ ==> {
                &&& result is Err
                &&& result->Err_0@ == "invalid persist mode: '"@ + word@
                    + "' (expected 'buffer', 'sync-data', or 'sync-all')"@
            }
        },
{
}

/// A path read from a directory is the directory, followed by the path's own components; a leading
/// `.` adds none, and a path that starts at the root is itself.
pub proof fn a_path_goes_on_from_its_directory(dir: &FsPath, path: &FsPath, joined: FsPath)
    requires
        call_ensures(FsPath::join, (dir, path), joined),
    ensures
        dir@.len() == 0 ==> joined@ == path@,
        path@.len() > 0 && path@[0] == Part::RootDir ==> joined@ == path@,
        dir@.len() > 0 && !(path@.len() > 0 && path@[0] == Part::RootDir) ==> {
            &&& joined@.len() >= dir@.len()
            &&& joined@.take(dir@.len() as int) == dir@
            &&& path@.len() > 0 && path@[0] == Part::CurDir ==> path@ == seq![Part::CurDir]
                + joined@.skip(dir@.len() as int)
            &&& !(path@.len() > 0 && path@[0] == Part::CurDir) ==> path@ == joined@.skip(
                dir@.len() as int,
            )
        },
{
    if dir@.len() > 0 && !(path@.len() > 0 && path@[0] == Part::RootDir) {
        let rest = if path@.len() > 0 && path@[0] == Part::CurDir {
            path@.skip(1)
        } else {
            path@
        };
        assert(joined@ =~= dir@ + rest);
        assert(joined@.take(dir@.len() as int) =~= dir@);
        assert(joined@.skip(dir@.len() as int) =~= rest);
        if path@.len() > 0 && path@[0] == Part::CurDir {
            assert(path@ =~= seq![Part::CurDir] + rest);
        }
    }
}

/// Paths are compared component by component, and copied so that the copy is the same path.
pub proof fn paths_are_compared_by_their_components(
    a: &FsPath,
    b: &FsPath,
    copy: FsPath,
    yes: bool,
    rooted: bool,
)
    requires
        call_ensures(FsPath::same, (a, b), yes),
        call_ensures(FsPath::copied, (a,), copy),
        call_ensures(FsPath::is_absolute, (a,), rooted),
    ensures
        yes <==> a@.len() == b@.len() && forall|i: int|
            0 <= i < a@.len() ==> #[trigger] a@[i] == b@[i],
        copy@ == a@,
        rooted <==> a@.len() > 0 && a@[0] == Part::RootDir,
{
    if a@.len() == b@.len() && forall|i: int| 0 <= i < a@.len() ==> #[trigger] a@[i] == b@[i] {
        assert(a@ =~= b@);
    }
}

/// Components are compared by what they are, and names by their bytes.
pub proof fn names_are_compared_by_their_bytes(
    a: &PathPart,
    b: &PathPart,
    yes: bool,
    copy: PathPart,
)
    requires
        call_ensures(PathPart::same, (a, b), yes),
        call_ensures(PathPart::copied, (a,), copy),
    ensures
        a is Normal && b is Normal ==> (yes <==> a->Normal_0@ == b->Normal_0@),
        !(a is Normal && b is Normal) ==> (yes <==> (a is RootDir && b is RootDir) || (a is CurDir
            && b is CurDir) || (a is ParentDir && b is ParentDir)),
        a is Normal ==> copy is Normal && copy->Normal_0@ == a->Normal_0@,
        a is RootDir ==> copy is RootDir,
        a is CurDir ==> copy is CurDir,
        a is ParentDir ==> copy is ParentDir,
{
}

/// The key of an existing path is its canonical form.
pub proof fn an_existing_directory_is_keyed_by_its_canonical_form<
    F: Fn(&FsPath) -> Option<FsPath>,
    G: Fn() -> Option<FsPath>,
>(
    path: &FsPath,
    canonicalize: F,
    current_dir: G,
    fs: spec_fn(Seq<Part>) -> Option<Seq<Part>>,
    key: CanonicalKey,
)
    requires
        call_ensures(canonical_key::<F, G>, (path, canonicalize, current_dir), key),
        answers_as(canonicalize, fs),
        fs(path@) is Some,
    ensures
        key@ == fs(path@)->0,
{
    an_existing_path_has_its_canonical_form_for_its_key(
        canonicalize,
        current_dir,
        fs,
        path@,
        key@,
    );
}

/// The key of a missing path is the canonical form of its nearest existing ancestor, followed by
/// every component below that ancestor, in order.
pub proof fn a_missing_directory_is_keyed_by_what_exists_above_it<
    F: Fn(&FsPath) -> Option<FsPath>,
    G: Fn() -> Option<FsPath>,
>(
    path: &FsPath,
    canonicalize: F,
    current_dir: G,
    fs: spec_fn(Seq<Part>) -> Option<Seq<Part>>,
    cwd: Option<Seq<Part>>,
    base: Seq<Part>,
    rest: Seq<Part>,
    key: CanonicalKey,
)
    requires
        call_ensures(canonical_key::<F, G>, (path, canonicalize, current_dir), key),
        answers_as(canonicalize, fs),
        stands_at(current_dir, cwd),
        fs(path@) is None,
        read_from(cwd, path@, base + rest),
        fs(base) is Some,
        forall|i: int| 0 <= i < rest.len() ==> (#[trigger] rest[i]) != Part::RootDir,
        forall|i: int| 0 < i <= rest.len() ==> #[trigger] fs(base + rest.take(i)) is None,
    ensures
        key@ == fs(base)->0 + rest,
{
    a_missing_path_goes_on_from_what_exists(
        canonicalize,
        current_dir,
        fs,
        cwd,
        path@,
        base,
        rest,
        key@,
    );
}

/// Where nothing exists, the key is the path itself, read from the current directory.
pub proof fn where_nothing_exists_a_directory_is_keyed_by_its_path<
    F: Fn(&FsPath) -> Option<FsPath>,
    G: Fn() -> Option<FsPath>,
>(
    path: &FsPath,
    canonicalize: F,
    current_dir: G,
    fs: spec_fn(Seq<Part>) -> Option<Seq<Part>>,
    cwd: Option<Seq<Part>>,
    whole: Seq<Part>,
    key: CanonicalKey,
)
    requires
        call_ensures(canonical_key::<F, G>, (path, canonicalize, current_dir), key),
        answers_as(canonicalize, fs),
        stands_at(current_dir, cwd),
        fs(path@) is None,
        read_from(cwd, path@, whole),
        forall|i: int| 0 <= i <= whole.len() ==> #[trigger] fs(whole.take(i)) is None,
    ensures
        key@ == whole,
{
    where_nothing_exists_the_path_is_its_key(
        canonicalize,
        current_dir,
        fs,
        cwd,
        path@,
        whole,
        key@,
    );
}

/// An opener's call is a step of an opener, and keeps the registry usable; the tasks that open a
/// database make the same step.
pub proof fn an_openers_call_is_a_step(
    r: &mut Registry,
    cfg: &EngineConfig,
    w: Writability,
    event: AttachEvent,
    action: AttachAction,
)
    requires
        call_ensures(attach_or_create, (r, cfg, w, event), action),
    ensures
        attach_step(old(r)@, final(r)@, *cfg, w, event, action),
        final(r).wf(),
{
}

/// A task that opens for writing makes a writer's step, with its own configuration.
pub proof fn an_opening_task_is_a_step(
    task: &OpenTask,
    r: &mut Registry,
    event: AttachEvent,
    action: AttachAction,
)
    requires
        call_ensures(OpenTask::compute, (task, r, event), action),
    ensures
        attach_step(old(r)@, final(r)@, task.cfg, task.writability, event, action),
        final(r).wf(),
{
}

/// A task that opens for reading makes a reader's step, with its own configuration.
pub proof fn a_readers_opening_task_is_a_step(
    task: &OpenReadonlyTask,
    r: &mut Registry,
    event: AttachEvent,
    action: AttachAction,
)
    requires
        call_ensures(OpenReadonlyTask::compute, (task, r, event), action),
    ensures
        attach_step(old(r)@, final(r)@, task.cfg, Writability::ReadOnly, event, action),
        final(r).wf(),
{
}

/// No opener ends a wait in silence: whatever directory stops being waited for, those who wait are
/// to be woken.
pub proof fn an_opener_ends_no_wait_in_silence(
    r: &mut Registry,
    cfg: &EngineConfig,
    w: Writability,
    event: AttachEvent,
    action: AttachAction,
    k: Seq<Part>,
)
    requires
        call_ensures(attach_or_create, (r, cfg, w, event), action),
        waited_for(old(r)@, k),
        !waited_for(final(r)@, k),
    ensures
        action is Failed || (action is Attached && action->wake),
{
    whoever_ends_a_wait_wakes_those_who_wait(old(r)@, final(r)@, *cfg, w, event, action, k);
}

/// An opener that is done reaches an engine: the one in service at its key, which was there before
/// or is the database that it opened.
pub proof fn an_opener_that_is_done_reaches_an_engine(
    r: &mut Registry,
    cfg: &EngineConfig,
    w: Writability,
    event: AttachEvent,
    action: AttachAction,
)
    requires
        old(r).wf(),
        call_ensures(attach_or_create, (r, cfg, w, event), action),
        action is Attached,
    ensures
        ({
            let h = action->handle@;
            let k = h.key;
            &&& final(r)@.open == old(r)@.open.insert(h) && !old(r)@.open.contains(h)
            &&& final(r)@.engine_of(h) == Some(final(r)@.slots[k]->engine)
            &&& in_service(old(r)@, k) ==> final(r)@.slots[k]->engine == old(r)@.slots[k]->engine
            &&& !in_service(old(r)@, k) ==> event is Opened && final(r)@.slots[k]->engine.keyspace
                == event->keyspace && final(r)@.slots[k]->engine.cache_size_bytes
                == cfg.cache_size_bytes
            &&& h.writable <==> w is Writable
        }),
{
    old(r).is_sound();
    an_opener_that_is_done_has_a_new_handle(old(r)@, final(r)@, *cfg, w, event, action);
    if in_service(old(r)@, action->handle@.key) {
        an_engine_in_service_stays_through_every_opener(
            old(r)@,
            final(r)@,
            *cfg,
            w,
            event,
            action,
            action->handle@.key,
        );
    } else {
        a_new_engine_is_the_database_that_was_opened(old(r)@, final(r)@, *cfg, w, event, action);
    }
}

/// Closing the last handle on an engine has the closer free it; closing any other does not; and
/// closing what is closed does nothing.
pub proof fn closing_frees_the_engine_with_its_last_handle(
    r: &mut Registry,
    handle: &HandleState,
    action: ReleaseAction,
)
    requires
        old(r).wf(),
        call_ensures(release, (r, handle), action),
    ensures
        action is AlreadyClosed <==> !old(r)@.open.contains(handle@),
        action is AlreadyClosed ==> final(r)@ == old(r)@,
        action is TearDown <==> old(r)@.open.contains(handle@) && forall|g: HandleView| #[trigger]
            old(r)@.open.contains(g) && g.engine == handle@.engine ==> g == handle@,
        action is TearDown ==> {
            &&& action->TearDown_key@ == handle@.key
            &&& old(r)@.slots[handle@.key]->engine == action->engine@
            &&& waited_for(final(r)@, handle@.key)
        },
        action is Released ==> {
            &&& in_service(final(r)@, handle@.key)
            &&& final(r)@.slots[handle@.key]->engine == old(r)@.slots[handle@.key]->engine
        },
        final(r)@.open == old(r)@.open.remove(handle@),
        final(r).wf(),
{
    old(r).is_sound();
    the_last_close_frees_the_engine(old(r)@, handle@, action);
    if old(r)@.open.contains(handle@) {
        a_close_takes_one_handle_away(old(r)@, handle@, handle@.key);
        what_a_handle_reaches(old(r)@, handle@, Seq::empty(), handle@.key);
    } else {
        assert(old(r)@.open.remove(handle@) =~= old(r)@.open);
    }
}

/// Every way of closing a handle is the same close, and whoever lets go of a database without
/// closing it is warned exactly then.
pub proof fn every_close_is_the_same_close(
    r1: &mut Registry,
    r2: &mut Registry,
    r3: &mut Registry,
    task: &CloseTask,
    writer: &Keyspace,
    reader: &ReadonlyKeyspace,
    action: ReleaseAction,
    left: (bool, ReleaseAction),
    left_by_reader: (bool, ReleaseAction),
)
    requires
        call_ensures(CloseTask::compute, (task, r1), action),
        call_ensures(Keyspace::abandon, (writer, r2), left),
        call_ensures(ReadonlyKeyspace::abandon, (reader, r3), left_by_reader),
    ensures
        final(r1)@ == old(r1)@.released(task.state@) && release_step(
            old(r1)@,
            task.state@,
            action,
        ),
        final(r2)@ == old(r2)@.released(writer.state@) && release_step(
            old(r2)@,
            writer.state@,
            left.1,
        ),
        final(r3)@ == old(r3)@.released(reader.state@) && release_step(
            old(r3)@,
            reader.state@,
            left_by_reader.1,
        ),
        left.0 <==> old(r2)@.open.contains(writer.state@),
        left_by_reader.0 <==> old(r3)@.open.contains(reader.state@),
{
}

/// Freeing an engine gives its directory back, and touches no other, nor any handle.
pub proof fn freeing_gives_the_directory_back(r: &mut Registry, key: &FsPath, k: Seq<Part>)
    requires
        call_ensures(torn_down, (r, key), ()),
    ensures
        old(r)@.slots.dom().contains(key@) && old(r)@.slots[key@] is TearingDown ==> unused(
            final(r)@,
            key@,
        ),
        !(old(r)@.slots.dom().contains(key@) && old(r)@.slots[key@] is TearingDown) ==> same_at(
            old(r)@,
            final(r)@,
            key@,
        ),
        k != key@ ==> same_at(old(r)@, final(r)@, k),
        final(r)@.open == old(r)@.open,
        final(r).wf(),
{
}

/// What a registry says of a directory and of a handle: whether openers wait for it, how many
/// handles are open on its engine, whether a handle is open, which engine it reaches, and whether
/// there are numbers left.
pub proof fn a_registry_answers_what_is_so(
    r: &Registry,
    key: &FsPath,
    handle: &HandleState,
    busy: bool,
    refs: usize,
    engine: Option<&Engine>,
    open: bool,
    room: bool,
)
    requires
        r.wf(),
        call_ensures(Registry::busy, (r, key), busy),
        call_ensures(Registry::refs, (r, key), refs),
        call_ensures(Registry::engine_of, (r, handle), engine),
        call_ensures(warn_if_unclosed, (r, handle), open),
        call_ensures(Registry::has_room, (r,), room),
    ensures
        busy <==> waited_for(r@, key@),
        in_service(r@, key@) ==> refs == r@.open.filter(
            |h: HandleView| h.engine == r@.slots[key@]->engine.id,
        ).len() && refs == r@.slots[key@]->refs,
        !in_service(r@, key@) ==> refs == 0,
        open <==> r@.open.contains(handle@),
        engine is Some <==> r@.open.contains(handle@),
        engine is Some ==> engine->0@ == r@.slots[handle@.key]->engine && engine->0@.id
            == handle@.engine,
        room <==> r@.next_engine < usize::MAX && r@.next_handle < usize::MAX,
{
    r.is_sound();
    what_a_handle_reaches(r@, handle@, Seq::empty(), key@);
    if in_service(r@, key@) {
        an_engine_counts_its_handles(r@, key@, key@);
        assert(handles_of(r@.open, r@.slots[key@]->engine.id) =~= r@.open.filter(
            |h: HandleView| h.engine == r@.slots[key@]->engine.id,
        ));
    }
}

/// Through an open handle one reaches its engine's database and its engine's partitions, each under
/// its own name; through a closed one, nothing.
pub proof fn a_handle_reaches_its_engine(
    r: &Registry,
    handle: &HandleState,
    name: &String,
    database: Result<&fjall::Keyspace, EngineError>,
    known: Result<bool, EngineError>,
    partition: Result<&fjall::PartitionHandle, EngineError>,
)
    requires
        r.wf(),
        call_ensures(with_keyspace, (r, handle), database),
        call_ensures(open_partition, (r, handle, name), known),
        call_ensures(resolve_partition, (r, handle, name), partition),
    ensures
        r@.open.contains(handle@) ==> {
            let engine = r@.slots[handle@.key]->engine;
            &&& database is Ok && *database->Ok_0 == engine.keyspace
            &&& known == Ok::<bool, EngineError>(engine.partitions.dom().contains(name@))
            &&& partition is Ok <==> engine.partitions.dom().contains(name@)
            &&& partition is Ok ==> *partition->Ok_0 == engine.partitions[name@] && partition_name(
                *partition->Ok_0,
            ) == name@
        },
        !r@.open.contains(handle@) ==> database is Err && known is Err && partition is Err,
        database is Err ==> database->Err_0 is Closed,
        known is Err ==> known->Err_0 is Closed,
        partition is Err ==> partition->Err_0 is Closed,
{
    r.is_sound();
    what_a_handle_reaches(r@, handle@, name@, handle@.key);
}

/// A partition that was opened is found by its name from then on, through every open handle on the
/// directory, unless one of that name was there; through a closed handle nothing is recorded.
pub proof fn an_opened_partition_is_found_by_its_name(
    r: &mut Registry,
    handle: &HandleState,
    partition: fjall::PartitionHandle,
    recorded: Result<(), EngineError>,
    after: &Registry,
    other: &HandleState,
    name: &String,
    found: Result<&fjall::PartitionHandle, EngineError>,
)
    requires
        old(r).wf(),
        call_ensures(partition_opened, (r, handle, partition), recorded),
        *after == *final(r),
        call_ensures(resolve_partition, (after, other, name), found),
        name@ == partition_name(partition),
        old(r)@.open.contains(other@) && other@.key == handle@.key,
    ensures
        recorded is Ok <==> old(r)@.open.contains(handle@),
        recorded is Err ==> recorded->Err_0 is Closed && final(r)@ == old(r)@,
        recorded is Ok ==> found is Ok,
        recorded is Ok && !old(r)@.slots[handle@.key]->engine.partitions.dom().contains(name@)
            ==> *found->Ok_0 == partition,
        recorded is Ok && old(r)@.slots[handle@.key]->engine.partitions.dom().contains(name@)
            ==> *found->Ok_0 == old(r)@.slots[handle@.key]->engine.partitions[name@],
        final(r)@.open == old(r)@.open,
        final(r).wf(),
{
    old(r).is_sound();
    final(r).is_sound();
    what_a_handle_reaches(old(r)@, handle@, name@, handle@.key);
    what_a_handle_reaches(old(r)@, other@, name@, handle@.key);
    a_partition_is_recorded_under_its_name(old(r)@, handle@, partition, handle@.key, name@);
    what_a_handle_reaches(final(r)@, other@, name@, handle@.key);
}

/// A new registry has nothing in use.
pub proof fn a_new_registry_has_nothing_in_use(r: Registry, k: Seq<Part>, h: HandleView)
    requires
        call_ensures(Registry::new, (), r),
    ensures
        r.wf(),
        unused(r@, k),
        !r@.open.contains(h),
        r@.next_engine == 0 && r@.next_handle == 0,
{
}

/// A handle and an engine say of themselves what the registry knows of them.
pub proof fn handles_and_engines_say_what_they_are(
    handle: &HandleState,
    key: &FsPath,
    writable: bool,
    copy: HandleState,
    engine: &Engine,
    id: usize,
    database: &fjall::Keyspace,
    name: &String,
    partition: Option<&fjall::PartitionHandle>,
)
    requires
        call_ensures(HandleState::key, (handle,), key),
        call_ensures(HandleState::writable, (handle,), writable),
        call_ensures(HandleState::copied, (handle,), copy),
        call_ensures(Engine::ptr_id, (engine,), id),
        call_ensures(Engine::keyspace, (engine,), database),
        call_ensures(Engine::partition, (engine, name), partition),
    ensures
        key@ == handle@.key,
        writable <==> handle@.writable,
        copy@ == handle@,
        id == engine@.id,
        *database == engine@.keyspace,
        partition is Some <==> engine@.partitions.dom().contains(name@),
        partition is Some ==> *partition->0 == engine@.partitions[name@],
{
}

/// Whoever opened a database gets it on the handle that they opened.
pub proof fn an_opened_database_is_on_its_handle(
    writer: &OpenTask,
    reader: &OpenReadonlyTask,
    state: HandleState,
    database: Keyspace,
    read_only: ReadonlyKeyspace,
)
    requires
        call_ensures(OpenTask::resolve, (writer, state), database),
        call_ensures(OpenReadonlyTask::resolve, (reader, state), read_only),
    ensures
        database.state@ == state@,
        read_only.state@ == state@,
{
}

/// What is started on a database is done on its handle, with what the caller gave.
pub proof fn a_task_of_a_database_is_on_its_handle(
    database: &Keyspace,
    read_only: &ReadonlyKeyspace,
    name: String,
    mode: Option<String>,
    opening: PartitionTask,
    opening_read_only: ReadonlyPartitionTask,
    flush: PersistTask,
    close: CloseTask,
    close_read_only: CloseTask,
)
    requires
        call_ensures(Keyspace::partition, (database, name), opening),
        call_ensures(ReadonlyKeyspace::partition, (read_only, name), opening_read_only),
        call_ensures(Keyspace::persist, (database, mode), flush),
        call_ensures(Keyspace::close, (database,), close),
        call_ensures(ReadonlyKeyspace::close, (read_only,), close_read_only),
    ensures
        opening.state@ == database.state@ && opening.name@ == name@,
        opening_read_only.state@ == read_only.state@ && opening_read_only.name@ == name@,
        flush.state@ == database.state@ && flush.mode == mode,
        close.state@ == database.state@,
        close_read_only.state@ == read_only.state@,
{
}

/// A partition is to be opened exactly when the engine behind an open handle has none of its name;
/// through a closed handle the caller is told that it is closed.
pub proof fn a_partition_is_opened_if_it_is_not_open(
    task: &PartitionTask,
    reader: &ReadonlyPartitionTask,
    r: &Registry,
    known: Result<bool, String>,
    known_to_reader: Result<bool, String>,
)
    requires
        r.wf(),
        call_ensures(PartitionTask::compute, (task, r), known),
        call_ensures(ReadonlyPartitionTask::compute, (reader, r), known_to_reader),
    ensures
        r@.open.contains(task.state@) ==> known == Ok::<bool, String>(
            r@.slots[task.state@.key]->engine.partitions.dom().contains(task.name@),
        ),
        !r@.open.contains(task.state@) ==> known is Err && known->Err_0@ == "Keyspace is closed"@,
        r@.open.contains(reader.state@) ==> known_to_reader == Ok::<bool, String>(
            r@.slots[reader.state@.key]->engine.partitions.dom().contains(reader.name@),
        ),
        !r@.open.contains(reader.state@) ==> known_to_reader is Err && known_to_reader->Err_0@
            == "Keyspace is closed"@,
{
    r.is_sound();
    what_a_handle_reaches(r@, task.state@, task.name@, task.state@.key);
    what_a_handle_reaches(r@, reader.state@, reader.name@, reader.state@.key);
}

/// The partition that a caller gets is on the handle that it was asked for through, under the name
/// that was asked for.
pub proof fn a_partition_has_the_name_that_was_asked_for(
    task: &mut PartitionTask,
    reader: &mut ReadonlyPartitionTask,
    partition: Partition,
    read_only: ReadonlyPartition,
)
    requires
        call_ensures(PartitionTask::resolve, (task,), partition),
        call_ensures(ReadonlyPartitionTask::resolve, (reader,), read_only),
    ensures
        partition.state@ == old(task).state@ && partition.name@ == old(task).name@,
        read_only.state@ == old(reader).state@ && read_only.name@ == old(reader).name@,
{
}

/// A flush goes to the database of the handle, as far as the word says: the three words flush in
/// their modes, no word to the disk; any other word is refused, and so is a closed handle.
pub proof fn a_flush_goes_to_its_database_as_far_as_asked(
    task: &PersistTask,
    r: &Registry,
    result: Result<(PersistMode, &fjall::Keyspace), String>,
)
    requires
        r.wf(),
        call_ensures(PersistTask::compute, (task, r), result),
    ensures
        ({
            let open = r@.open.contains(task.state@);
            let default = task.mode is None;
            let word = task.mode->0@;
            let named = default || word == "sync-data"@ || word == "buffer"@ || word
                == "sync-all"@;
            &&& result is Ok <==> open && named
            &&& result is Ok ==> *result->Ok_0.1 == r@.slots[task.state@.key]->engine.keyspace
            &&& result is Ok && (default || word == "sync-data"@) ==> result->Ok_0.0 is SyncData
            &&& result is Ok && !default && word == "buffer"@ ==> result->Ok_0.0 is Buffer
            &&& result is Ok && !default && word == "sync-all"@ ==> result->Ok_0.0 is SyncAll
            &&& named && !open ==> result->Err_0@ == "Keyspace is closed"@
            &&& !named ==> result->Err_0@ == "invalid persist mode: '"@ + word
                + "' (expected 'buffer', 'sync-data', or 'sync-all')"@
        }),
{
    r.is_sound();
    what_a_handle_reaches(r@, task.state@, Seq::empty(), task.state@.key);
    a_flush_goes_as_far_as_its_word_says(task.mode);
}

/// An insert writes the key and the value that the caller gave, whole, to the partition of the name
/// in the engine of the handle.
pub proof fn an_insert_writes_what_was_given(
    partition: &Partition,
    key: &[u8],
    value: &[u8],
    task: &mut InsertTask,
    r: &Registry,
    result: Result<(&fjall::PartitionHandle, Vec<u8>, Vec<u8>), String>,
)
    requires
        r.wf(),
        call_ensures(Partition::insert, (partition, key, value), *old(task)),
        call_ensures(InsertTask::compute, (task, r), result),
    ensures
        ({
            let h = partition.state@;
            let there = r@.open.contains(h) && r@.slots[h.key]->engine.partitions.dom().contains(
                partition.name@,
            );
            &&& result is Ok <==> there
            &&& there ==> {
                &&& *result->Ok_0.0 == r@.slots[h.key]->engine.partitions[partition.name@]
                &&& partition_name(*result->Ok_0.0) == partition.name@
                &&& result->Ok_0.1@ == key@
                &&& result->Ok_0.2@ == value@
            }
            &&& !there ==> result->Err_0@ == "Keyspace is closed"@ && *final(task) == *old(task)
        }),
{
    r.is_sound();
    what_a_handle_reaches(r@, partition.state@, partition.name@, partition.state@.key);
}

/// A removal removes the key that the caller gave, whole, from the partition of the name in the
/// engine of the handle.
pub proof fn a_removal_removes_what_was_given(
    partition: &Partition,
    key: &[u8],
    task: &mut RemoveTask,
    r: &Registry,
    result: Result<(&fjall::PartitionHandle, Vec<u8>), String>,
)
    requires
        r.wf(),
        call_ensures(Partition::remove, (partition, key), *old(task)),
        call_ensures(RemoveTask::compute, (task, r), result),
    ensures
        ({
            let h = partition.state@;
            let there = r@.open.contains(h) && r@.slots[h.key]->engine.partitions.dom().contains(
                partition.name@,
            );
            &&& result is Ok <==> there
            &&& there ==> {
                &&& *result->Ok_0.0 == r@.slots[h.key]->engine.partitions[partition.name@]
                &&& partition_name(*result->Ok_0.0) == partition.name@
                &&& result->Ok_0.1@ == key@
            }
            &&& !there ==> result->Err_0@ == "Keyspace is closed"@ && *final(task) == *old(task)
        }),
{
    r.is_sound();
    what_a_handle_reaches(r@, partition.state@, partition.name@, partition.state@.key);
}

/// A read looks the key up that the caller gave, whole, in the partition of the name in the engine
/// of the handle, be the handle a reader's or a writer's.
pub proof fn a_read_looks_up_what_was_asked_for(
    writer: &Partition,
    reader: &ReadonlyPartition,
    r: &Registry,
    key: &[u8],
    by_writer: Result<(&fjall::PartitionHandle, &[u8]), String>,
    by_reader: Result<(&fjall::PartitionHandle, &[u8]), String>,
)
    requires
        r.wf(),
        call_ensures(Partition::get, (writer, r, key), by_writer),
        call_ensures(ReadonlyPartition::get, (reader, r, key), by_reader),
    ensures
        ({
            let h = writer.state@;
            let there = r@.open.contains(h) && r@.slots[h.key]->engine.partitions.dom().contains(
                writer.name@,
            );
            &&& by_writer is Ok <==> there
            &&& there ==> *by_writer->Ok_0.0 == r@.slots[h.key]->engine.partitions[writer.name@]
                && partition_name(*by_writer->Ok_0.0) == writer.name@ && by_writer->Ok_0.1@ == key@
            &&& !there ==> by_writer->Err_0@ == "Keyspace is closed"@
        }),
        ({
            let h = reader.state@;
            let there = r@.open.contains(h) && r@.slots[h.key]->engine.partitions.dom().contains(
                reader.name@,
            );
            &&& by_reader is Ok <==> there
            &&& there ==> *by_reader->Ok_0.0 == r@.slots[h.key]->engine.partitions[reader.name@]
                && partition_name(*by_reader->Ok_0.0) == reader.name@ && by_reader->Ok_0.1@ == key@
            &&& !there ==> by_reader->Err_0@ == "Keyspace is closed"@
        }),
{
    r.is_sound();
    what_a_handle_reaches(r@, writer.state@, writer.name@, writer.state@.key);
    what_a_handle_reaches(r@, reader.state@, reader.name@, reader.state@.key);
}

/// A read reaches what was written: an insert through one handle and a read through another on the
/// same directory, under one name and with one key, go to one partition with one key. Under
/// different names they go to different partitions.
pub proof fn a_read_reaches_an_insert(
    written: &Partition,
    read: &ReadonlyPartition,
    r: &Registry,
    key: &[u8],
    value: &[u8],
    task: &mut InsertTask,
    write: Result<(&fjall::PartitionHandle, Vec<u8>, Vec<u8>), String>,
    lookup: Result<(&fjall::PartitionHandle, &[u8]), String>,
)
    requires
        r.wf(),
        call_ensures(Partition::insert, (written, key, value), *old(task)),
        call_ensures(InsertTask::compute, (task, r), write),
        call_ensures(ReadonlyPartition::get, (read, r, key), lookup),
        r@.open.contains(written.state@) && r@.open.contains(read.state@),
        written.state@.key == read.state@.key,
    ensures
        written.name@ == read.name@ ==> (write is Ok <==> lookup is Ok),
        written.name@ == read.name@ && write is Ok ==> *lookup->Ok_0.0 == *write->Ok_0.0
            && lookup->Ok_0.1@ == write->Ok_0.1@,
        written.name@ != read.name@ && write is Ok && lookup is Ok ==> *lookup->Ok_0.0
            != *write->Ok_0.0,
{
    r.is_sound();
    what_a_handle_reaches(r@, written.state@, written.name@, written.state@.key);
    what_a_handle_reaches(r@, read.state@, read.name@, read.state@.key);
}

/// A batch holds every entry that the caller gave, once, in order, with its own key and value, for
/// the partition of the name, and goes to the database of the handle. No entries are no batch.
pub proof fn a_batch_holds_what_was_given(
    partition: &Partition,
    entries: Vec<BatchEntry>,
    task: &mut InsertBatchTask,
    r: &Registry,
    result: Result<Option<fjall::Batch>, String>,
)
    requires
        r.wf(),
        call_ensures(Partition::insert_batch, (partition, entries), *old(task)),
        call_ensures(InsertBatchTask::compute, (task, r), result),
    ensures
        ({
            let h = partition.state@;
            let there = r@.open.contains(h) && r@.slots[h.key]->engine.partitions.dom().contains(
                partition.name@,
            );
            &&& entries@.len() == 0 ==> result is Ok && result->Ok_0 is None
            &&& entries@.len() > 0 ==> (result is Ok <==> there)
            &&& entries@.len() > 0 && there ==> {
                let batch = result->Ok_0->0;
                &&& result->Ok_0 is Some
                &&& batch_keyspace(batch) == r@.slots[h.key]->engine.keyspace
                &&& batch_items(batch).len() == entries@.len()
                &&& forall|i: int|
                    0 <= i < entries@.len() ==> {
                        &&& (#[trigger] batch_items(batch)[i]).0 == partition.name@
                        &&& batch_items(batch)[i].1 == entries@[i].key@
                        &&& batch_items(batch)[i].2 == entries@[i].value@
                    }
            }
            &&& entries@.len() > 0 && !there ==> {
                &&& result->Err_0@ == "Keyspace is closed"@
                &&& final(task).entries@ == old(task).entries@
            }
        }),
{
    r.is_sound();
    what_a_handle_reaches(r@, partition.state@, partition.name@, partition.state@.key);
}

/// A batch fits exactly when every key has 1 to 65535 bytes and every value at most 4294967295.
pub proof fn a_batch_fits_if_its_entries_do(task: &InsertBatchTask, yes: bool)
    requires
        call_ensures(InsertBatchTask::fits, (task,), yes),
    ensures
        yes <==> forall|i: int|
            0 <= i < task.entries@.len() ==> 1 <= (#[trigger] task.entries@[i]).0@.len() <= 65535
                && task.entries@[i].1@.len() <= 4294967295,
{
}

/// What threads share is the lock and the condition variable that it was made of.
pub proof fn threads_share_what_was_put_together(
    lock: Mutex<Registry>,
    wakeups: Condvar,
    shared: Shared,
    got_lock: &Mutex<Registry>,
    got_wakeups: &Condvar,
)
    requires
        call_ensures(Shared::new, (lock, wakeups), shared),
        call_ensures(registry, (&shared,), got_lock),
        call_ensures(cv, (&shared,), got_wakeups),
    ensures
        *got_lock == lock,
        *got_wakeups == wakeups,
{
}

/// A map of paths gives back what was put in last under a path; other paths are not touched.
pub proof fn a_map_gives_back_what_was_put_in<V>(
    map: &mut PathMap<V>,
    key: FsPath,
    value: V,
    replaced: Option<V>,
    after: &PathMap<V>,
    other: &FsPath,
    got: Option<&V>,
)
    requires
        call_ensures(PathMap::<V>::insert, (map, key, value), replaced),
        *after == *final(map),
        call_ensures(PathMap::<V>::get, (after, other), got),
    ensures
        replaced is Some <==> old(map)@.dom().contains(key@),
        replaced is Some ==> replaced->0 == old(map)@[key@],
        other@ == key@ ==> got is Some && *got->0 == value,
        other@ != key@ ==> (got is Some <==> old(map)@.dom().contains(other@)),
        other@ != key@ && got is Some ==> *got->0 == old(map)@[other@],
{
}

/// A map of paths gives back nothing under a path once what stood there is taken out; other paths
/// are not touched.
pub proof fn a_map_gives_back_nothing_that_was_taken_out<V>(
    map: &mut PathMap<V>,
    key: &FsPath,
    taken: Option<V>,
    after: &PathMap<V>,
    other: &FsPath,
    got: Option<&V>,
)
    requires
        call_ensures(PathMap::<V>::remove, (map, key), taken),
        *after == *final(map),
        call_ensures(PathMap::<V>::get, (after, other), got),
    ensures
        taken is Some <==> old(map)@.dom().contains(key@),
        taken is Some ==> taken->0 == old(map)@[key@],
        other@ == key@ ==> got is None,
        other@ != key@ ==> (got is Some <==> old(map)@.dom().contains(other@)),
        other@ != key@ && got is Some ==> *got->0 == old(map)@[other@],
{
}

/// Whatever a caller asks for, writes or reads may be asked for: no request, word, number, name,
/// key or value is out of bounds.
pub proof fn anything_may_be_asked_for(
    c: DatabaseConfig,
    cfg: &EngineConfig,
    config: fjall::Config,
    bits: u64,
    word: Option<&str>,
    dir: &FsPath,
    path: &FsPath,
    partition: &Partition,
    key: &[u8],
    value: &[u8],
    entries: Vec<BatchEntry>,
    database: &Keyspace,
    name: String,
    mode: Option<String>,
)
    ensures
        call_requires(open, (c,)),
        call_requires(open_readonly, (c,)),
        call_requires(to_engine_config, (&c,)),
        call_requires(open_fjall, (cfg, config)),
        call_requires(whole_number, (bits,)),
        call_requires(parse_persist_mode, (word,)),
        call_requires(FsPath::join, (dir, path)),
        call_requires(Partition::insert, (partition, key, value)),
        call_requires(Partition::remove, (partition, key)),
        call_requires(Partition::insert_batch, (partition, entries)),
        call_requires(Keyspace::partition, (database, name)),
        call_requires(Keyspace::persist, (database, mode)),
        call_requires(Keyspace::close, (database,)),
{
}

/// A path has a key wherever the file system may be asked about every path.
pub proof fn every_path_has_a_key<F: Fn(&FsPath) -> Option<FsPath>, G: Fn() -> Option<FsPath>>(
    path: &FsPath,
    canonicalize: F,
    current_dir: G,
)
    requires
        forall|p: &FsPath| canonicalize.requires((p,)),
        current_dir.requires(()),
    ensures
        call_requires(canonical_key::<F, G>, (path, canonicalize, current_dir)),
{
}

/// A registry can be asked and used at any time, through any handle, open or closed.
pub proof fn a_registry_can_be_used_at_any_time(
    r: &Registry,
    key: &FsPath,
    handle: &HandleState,
    name: &String,
    writer: &Partition,
    reader: &ReadonlyPartition,
    bytes: &[u8],
    flush: &PersistTask,
    opening: &PartitionTask,
    opening_read_only: &ReadonlyPartitionTask,
)
    requires
        r.wf(),
    ensures
        call_requires(Registry::busy, (r, key)),
        call_requires(Registry::refs, (r, key)),
        call_requires(Registry::engine_of, (r, handle)),
        call_requires(warn_if_unclosed, (r, handle)),
        call_requires(with_keyspace, (r, handle)),
        call_requires(open_partition, (r, handle, name)),
        call_requires(resolve_partition, (r, handle, name)),
        call_requires(Partition::get, (writer, r, bytes)),
        call_requires(ReadonlyPartition::get, (reader, r, bytes)),
        call_requires(PersistTask::compute, (flush, r)),
        call_requires(PartitionTask::compute, (opening, r)),
        call_requires(ReadonlyPartitionTask::compute, (opening_read_only, r)),
{
}

/// A registry can be changed at any time: handles can always be closed, engines freed, partitions
/// recorded and failures reported, and openers go on as long as there are numbers left.
pub proof fn a_registry_can_be_changed_at_any_time(
    r: &mut Registry,
    cfg: &EngineConfig,
    w: Writability,
    event: AttachEvent,
    handle: &HandleState,
    key: &FsPath,
    partition: fjall::PartitionHandle,
    close: &CloseTask,
    writer: &Keyspace,
    reader: &ReadonlyKeyspace,
)
    requires
        old(r).wf(),
    ensures
        event is OpenFailed || (old(r)@.next_engine < usize::MAX && old(r)@.next_handle
            < usize::MAX) ==> call_requires(attach_or_create, (r, cfg, w, event)),
        call_requires(release, (r, handle)),
        call_requires(torn_down, (r, key)),
        call_requires(partition_opened, (r, handle, partition)),
        call_requires(CloseTask::compute, (close, r)),
        call_requires(Keyspace::abandon, (writer, r)),
        call_requires(ReadonlyKeyspace::abandon, (reader, r)),
{
}

/// A write can be computed at any time; a batch, if its entries fit or its partition is not open.
pub proof fn a_write_can_be_computed_at_any_time(
    r: &Registry,
    insert: &mut InsertTask,
    remove: &mut RemoveTask,
    batch: &mut InsertBatchTask,
)
    requires
        r.wf(),
    ensures
        call_requires(InsertTask::compute, (insert, r)),
        call_requires(RemoveTask::compute, (remove, r)),
        (forall|i: int|
            0 <= i < old(batch).entries@.len() ==> 1 <= (
            #[trigger] old(batch).entries@[i]).0@.len() <= 65535
                && old(batch).entries@[i].1@.len() <= 4294967295)
            ==> call_requires(InsertBatchTask::compute, (batch, r)),
        !r@.open.contains(old(batch).state@) ==> call_requires(
            InsertBatchTask::compute,
            (batch, r),
        ),
{
    r.is_sound();
    a_batch_takes_keys_and_values_that_fit(old(batch).entries@);
    what_a_handle_reaches(
        r@,
        old(batch).state@,
        old(batch).name@,
        old(batch).state@.key,
    );
}

} // verus!
