//! What many openers of one directory arrive at, one after another or all at once.

use vstd::prelude::*;
use vstd::set_lib::{lemma_int_range, lemma_len_subset, set_int_range};

use crate::config::{EngineConfig, Writability};
use crate::engine::{attach_step, AttachAction, AttachEvent};
use crate::laws::every_step_is_sound;
use crate::model::{HandleView, RegistryView, SlotView, Step};
use crate::path::Part;

verus! {

/// The openers that may write.
pub open spec fn writers(kinds: Seq<Writability>) -> Set<int> {
    Set::new(|i: int| 0 <= i < kinds.len() && kinds[i] is Writable)
}

/// A set of some of the first `n` numbers is finite.
proof fn lemma_bounded(s: Set<int>, n: int)
    requires
        n >= 0,
        forall|i: int| #[trigger] s.contains(i) ==> 0 <= i < n,
    ensures
        s.finite(),
{
    lemma_int_range(0, n);
    assert(s.subset_of(set_int_range(0, n)));
    lemma_len_subset(s, set_int_range(0, n));
}

/// The registry once the openers of a directory have come one after another. The first claims it
/// as `early`; once the directory exists, its key is `key`.
pub open spec fn opened_in_turn(
    s: RegistryView,
    early: Seq<Part>,
    key: Seq<Part>,
    cache_size_bytes: Option<u64>,
    keyspace: fjall::Keyspace,
    kinds: Seq<Writability>,
) -> RegistryView
    decreases kinds.len(),
{
    if kinds.len() == 0 {
        s
    } else if kinds.len() == 1 {
        s.take(Step::Arrived { key: early, w: kinds[0] }).take(
            Step::Opened { key: early, canonical: key, cache_size_bytes, keyspace, w: kinds[0] },
        )
    } else {
        opened_in_turn(s, early, key, cache_size_bytes, keyspace, kinds.drop_last()).take(
            Step::Arrived { key, w: kinds.last() },
        )
    }
}

/// The handle that the opener `i` of them got.
pub open spec fn handle_in_turn(
    s: RegistryView,
    key: Seq<Part>,
    kinds: Seq<Writability>,
    i: int,
) -> HandleView {
    HandleView {
        id: s.next_handle + i,
        engine: s.next_engine,
        key,
        writable: kinds[i] is Writable,
    }
}

/// Openers that come one after another, writers and readers in any order, all get the engine that
/// the first of them made; it counts as many handles as there are openers, and as many writers.
pub proof fn openers_in_turn_share_the_first_engine(
    s: RegistryView,
    early: Seq<Part>,
    key: Seq<Part>,
    cache_size_bytes: Option<u64>,
    keyspace: fjall::Keyspace,
    kinds: Seq<Writability>,
)
    requires
        s.wf(),
        s.slot(early) is None,
        s.slot(key) is None,
        kinds.len() >= 1,
    ensures
        ({
            let t = opened_in_turn(s, early, key, cache_size_bytes, keyspace, kinds);
            let engine = s.new_engine(key, cache_size_bytes, keyspace);
            &&& t.wf()
            &&& t.slots == s.slots.insert(
                key,
                SlotView::Live {
                    engine,
                    refs: kinds.len() as int,
                    writable: writers(kinds).len() as int,
                },
            )
            &&& t.next_handle == s.next_handle + kinds.len()
            &&& forall|i: int|
                0 <= i < kinds.len() ==> t.engine_of(
                    #[trigger] handle_in_turn(s, key, kinds, i),
                ) == Some(engine)
        }),
    decreases kinds.len(),
{
    let t = opened_in_turn(s, early, key, cache_size_bytes, keyspace, kinds);
    let engine = s.new_engine(key, cache_size_bytes, keyspace);
    let n = kinds.len() - 1;
    let before = kinds.drop_last();
    lemma_bounded(writers(before), n);
    if kinds[n] is Writable {
        assert(writers(kinds) =~= writers(before).insert(n));
    } else {
        assert(writers(kinds) =~= writers(before));
    }
    if kinds.len() == 1 {
        assert(writers(before) =~= Set::empty());
        let claimed = s.take(Step::Arrived { key: early, w: kinds[0] });
        every_step_is_sound(s, Step::Arrived { key: early, w: kinds[0] });
        every_step_is_sound(
            claimed,
            Step::Opened { key: early, canonical: key, cache_size_bytes, keyspace, w: kinds[0] },
        );
        assert(claimed.unclaimed(early).slots =~= s.slots);
    } else {
        openers_in_turn_share_the_first_engine(
            s,
            early,
            key,
            cache_size_bytes,
            keyspace,
            before,
        );
        let u = opened_in_turn(s, early, key, cache_size_bytes, keyspace, before);
        every_step_is_sound(u, Step::Arrived { key, w: kinds.last() });
        assert forall|i: int| 0 <= i < kinds.len() implies t.engine_of(
            #[trigger] handle_in_turn(s, key, kinds, i),
        ) == Some(engine) by {
            if i < n {
                assert(handle_in_turn(s, key, kinds, i) == handle_in_turn(s, key, before, i));
                assert(u.engine_of(handle_in_turn(s, key, before, i)) == Some(engine));
            }
        }
    }
    assert(t.slots =~= s.slots.insert(
        key,
        SlotView::Live {
            engine,
            refs: kinds.len() as int,
            writable: writers(kinds).len() as int,
        },
    ));
}

/// How far an opener is.
pub enum Progress {
    /// It has no engine yet: it has not asked, or was told to wait and to ask again.
    Asking,
    /// It has claimed the directory as `key` and is opening it.
    Opening { key: Seq<Part> },
    /// It has its handle.
    Attached { handle: HandleView },
    /// It could not open the directory, and has given up.
    Failed,
}

/// What an opener does next.
pub enum Move {
    /// It derives this key for the directory and asks for an engine.
    Asks { key: Seq<Part> },
    /// It has opened the directory that it claimed.
    Opens { cache_size_bytes: Option<u64>, keyspace: fjall::Keyspace },
    /// It could not open the directory that it claimed.
    Fails,
}

/// Openers of one directory, and the registry that they share.
pub struct Crowd {
    pub registry: RegistryView,
    pub progress: Seq<Progress>,
}

impl Crowd {
    /// Nobody has asked yet.
    pub open spec fn gathered(registry: RegistryView, n: nat) -> Crowd {
        Crowd { registry, progress: Seq::new(n, |i: int| Progress::Asking) }
    }

    /// The openers after the opener `i`, of the kind `w`, has moved. Once the directory exists,
    /// its key is `key`. A move that the opener is not up to changes nothing.
    pub open spec fn moved(self, i: int, w: Writability, key: Seq<Part>, m: Move) -> Crowd {
        match (self.progress[i], m) {
            (Progress::Asking, Move::Asks { key: asked }) => Crowd {
                registry: self.registry.take(Step::Arrived { key: asked, w }),
                progress: self.progress.update(
                    i,
                    match self.registry.slot(asked) {
                        Some(SlotView::Live { engine, .. }) => Progress::Attached {
                            handle: self.registry.new_handle(engine.id, asked, w),
                        },
                        Some(_) => Progress::Asking,
                        None => Progress::Opening { key: asked },
                    },
                ),
            },
            (Progress::Opening { key: claimed }, Move::Opens { cache_size_bytes, keyspace }) => {
                let unclaimed = self.registry.unclaimed(claimed);
                Crowd {
                    registry: self.registry.take(
                        Step::Opened {
                            key: claimed,
                            canonical: key,
                            cache_size_bytes,
                            keyspace,
                            w,
                        },
                    ),
                    progress: self.progress.update(
                        i,
                        Progress::Attached {
                            handle: match unclaimed.engine_at(key) {
                                Some(engine) => unclaimed.new_handle(engine.id, key, w),
                                None => unclaimed.new_handle(unclaimed.next_engine, key, w),
                            },
                        },
                    ),
                }
            },
            (Progress::Opening { key: claimed }, Move::Fails) => Crowd {
                registry: self.registry.take(Step::OpenFailed { key: claimed }),
                progress: self.progress.update(i, Progress::Failed),
            },
            _ => self,
        }
    }

    /// The openers after these moves, each of the opener that it names.
    pub open spec fn moved_all(
        self,
        kinds: Seq<Writability>,
        key: Seq<Part>,
        moves: Seq<(int, Move)>,
    ) -> Crowd
        decreases moves.len(),
    {
        if moves.len() == 0 {
            self
        } else {
            let (i, m) = moves.last();
            self.moved_all(kinds, key, moves.drop_last()).moved(i, kinds[i], key, m)
        }
    }

    /// The openers that have their handle.
    pub open spec fn attached(self) -> Set<int> {
        Set::new(|i: int| 0 <= i < self.progress.len() && self.progress[i] is Attached)
    }

    /// Everybody has their handle, or has given up.
    pub open spec fn done(self) -> bool {
        forall|i: int|
            0 <= i < self.progress.len() ==> (#[trigger] self.progress[i]) is Attached
                || self.progress[i] is Failed
    }

    /// Everybody has their handle.
    pub open spec fn served(self) -> bool {
        forall|i: int|
            0 <= i < self.progress.len() ==> (#[trigger] self.progress[i]) is Attached
    }
}

/// What an action says of the opener's progress.
pub open spec fn progress_after(action: AttachAction) -> Progress {
    match action {
        AttachAction::Attached { handle, .. } => Progress::Attached { handle: handle@ },
        AttachAction::Open { key } => Progress::Opening { key: key@ },
        AttachAction::Wait { .. } => Progress::Asking,
        AttachAction::Failed { .. } => Progress::Failed,
    }
}

/// What an opener's event is as a move.
pub open spec fn move_of(cfg: EngineConfig, event: AttachEvent) -> Move {
    match event {
        AttachEvent::Opened { keyspace, .. } => Move::Opens {
            cache_size_bytes: cfg.cache_size_bytes,
            keyspace,
        },
        AttachEvent::Arrived { key } => Move::Asks { key: key@ },
        AttachEvent::OpenFailed { .. } => Move::Fails,
    }
}

/// A move is what an opener's event does: the same registry and the same progress.
pub proof fn an_event_is_a_move(
    c: Crowd,
    i: int,
    key: Seq<Part>,
    after: RegistryView,
    cfg: EngineConfig,
    w: Writability,
    event: AttachEvent,
    action: AttachAction,
)
    requires
        0 <= i < c.progress.len(),
        attach_step(c.registry, after, cfg, w, event, action),
        match event {
            AttachEvent::Arrived { .. } => c.progress[i] is Asking,
            AttachEvent::Opened { key: claimed, canonical, .. } => c.progress[i]
                == (Progress::Opening { key: claimed@ }) && canonical@ == key,
            AttachEvent::OpenFailed { key: claimed, .. } => c.progress[i] == (Progress::Opening {
                key: claimed@,
            }),
        },
    ensures
        c.moved(i, w, key, move_of(cfg, event)).registry == after,
        c.moved(i, w, key, move_of(cfg, event)).progress == c.progress.update(
            i,
            progress_after(action),
        ),
{
}

/// Whatever is in use that was not in use before is the directory, or is claimed by an opener that
/// is still opening it.
spec fn accounted_for(s: RegistryView, c: Crowd, key: Seq<Part>, k: Seq<Part>) -> bool {
    if s.slots.dom().contains(k) {
        c.registry.slot(k) == s.slot(k)
    } else {
        ||| c.registry.slot(k) is None
        ||| k == key && c.registry.engine_at(k) is Some
        ||| c.registry.slot(k) == Some(SlotView::Creating) && exists|i: int|
            0 <= i < c.progress.len() && #[trigger] c.progress[i] == (Progress::Opening { key: k })
    }
}

/// The opener has no handle, or one on the engine of the directory.
spec fn well_served(c: Crowd, kinds: Seq<Writability>, key: Seq<Part>, i: int) -> bool {
    c.progress[i] matches Progress::Attached { handle } ==> {
        &&& c.registry.engine_at(key) is Some
        &&& c.registry.open.contains(handle)
        &&& handle.key == key
        &&& handle.engine == c.registry.engine_at(key)->0.id
        &&& handle.writable == (kinds[i] is Writable)
    }
}

/// The engine of the directory counts the openers that have a handle.
spec fn well_counted(c: Crowd, kinds: Seq<Writability>, key: Seq<Part>) -> bool {
    match c.registry.slot(key) {
        Some(SlotView::Live { engine, refs, writable }) => {
            &&& refs == c.attached().len()
            &&& writable == c.attached().intersect(writers(kinds)).len()
        },
        _ => c.attached().len() == 0 && c.attached().intersect(writers(kinds)).len() == 0,
    }
}

/// No two openers have one handle.
spec fn apart(c: Crowd) -> bool {
    forall|i: int, j: int|
        0 <= i < c.progress.len() && 0 <= j < c.progress.len() && i != j && c.progress[i] is Attached
            && c.progress[j] is Attached ==> (#[trigger] c.progress[i])->handle != (
        #[trigger] c.progress[j])->handle
}

/// What every move keeps.
spec fn in_order(s: RegistryView, c: Crowd, kinds: Seq<Writability>, key: Seq<Part>) -> bool {
    &&& c.registry.wf()
    &&& c.progress.len() == kinds.len()
    &&& forall|k: Seq<Part>| #[trigger] accounted_for(s, c, key, k)
    &&& forall|i: int| 0 <= i < kinds.len() ==> #[trigger] well_served(c, kinds, key, i)
    &&& well_counted(c, kinds, key)
    &&& apart(c)
    &&& forall|i: int|
        0 <= i < kinds.len() ==> (#[trigger] c.progress[i] matches Progress::Opening { key: k }
            ==> !s.slots.dom().contains(k))
}

/// The openers that have a handle, once the opener `i` has moved.
proof fn lemma_attached(c: Crowd, d: Crowd, i: int, kinds: Seq<Writability>)
    requires
        c.progress.len() == kinds.len(),
        0 <= i < kinds.len(),
        !(c.progress[i] is Attached),
        d.progress == c.progress.update(i, d.progress[i]),
    ensures
        d.attached().len() == c.attached().len() + if d.progress[i] is Attached {
            1int
        } else {
            0int
        },
        d.attached().intersect(writers(kinds)).len() == c.attached().intersect(
            writers(kinds),
        ).len() + if d.progress[i] is Attached && kinds[i] is Writable {
            1int
        } else {
            0int
        },
{
    let w = writers(kinds);
    lemma_bounded(c.attached(), kinds.len() as int);
    if d.progress[i] is Attached {
        assert(d.attached() =~= c.attached().insert(i));
        if kinds[i] is Writable {
            assert(d.attached().intersect(w) =~= c.attached().intersect(w).insert(i));
        } else {
            assert(d.attached().intersect(w) =~= c.attached().intersect(w));
        }
    } else {
        assert(d.attached() =~= c.attached());
    }
}

/// A move keeps the openers in order.
proof fn lemma_move_keeps_order(
    s: RegistryView,
    c: Crowd,
    kinds: Seq<Writability>,
    key: Seq<Part>,
    i: int,
    m: Move,
)
    requires
        in_order(s, c, kinds, key),
        s.slot(key) is None,
        0 <= i < kinds.len(),
        m matches Move::Asks { key: k } ==> s.slot(k) is None,
    ensures
        in_order(s, c.moved(i, kinds[i], key, m), kinds, key),
{
    let w = kinds[i];
    match (c.progress[i], m) {
        (Progress::Asking, Move::Asks { key: asked }) => {
            every_step_is_sound(c.registry, Step::Arrived { key: asked, w });
            lemma_order_after_asking(s, c, kinds, key, i, asked);
        },
        (Progress::Opening { key: claimed }, Move::Opens { cache_size_bytes, keyspace }) => {
            every_step_is_sound(
                c.registry,
                Step::Opened { key: claimed, canonical: key, cache_size_bytes, keyspace, w },
            );
            lemma_order_after_opening(s, c, kinds, key, i, cache_size_bytes, keyspace);
        },
        (Progress::Opening { key: claimed }, Move::Fails) => {
            every_step_is_sound(c.registry, Step::OpenFailed { key: claimed });
            lemma_order_after_failing(s, c, kinds, key, i);
        },
        _ => {},
    }
}

proof fn lemma_order_after_asking(
    s: RegistryView,
    c: Crowd,
    kinds: Seq<Writability>,
    key: Seq<Part>,
    i: int,
    asked: Seq<Part>,
)
    requires
        in_order(s, c, kinds, key),
        s.slot(key) is None,
        s.slot(asked) is None,
        0 <= i < kinds.len(),
        c.progress[i] is Asking,
        c.moved(i, kinds[i], key, Move::Asks { key: asked }).registry.wf(),
    ensures
        in_order(s, c.moved(i, kinds[i], key, Move::Asks { key: asked }), kinds, key),
{
    let d = c.moved(i, kinds[i], key, Move::Asks { key: asked });
    assert(accounted_for(s, c, key, asked));
    assert(accounted_for(s, c, key, key));
    lemma_attached(c, d, i, kinds);
    assert forall|k: Seq<Part>| #[trigger] accounted_for(s, d, key, k) by {
        assert(accounted_for(s, c, key, k));
        lemma_still_opening(c, d, i, k);
    }
    assert forall|j: int| 0 <= j < kinds.len() implies #[trigger] well_served(d, kinds, key, j) by {
        assert(well_served(c, kinds, key, j));
    }
    lemma_apart(c, d, kinds, key, i);
}

proof fn lemma_order_after_opening(
    s: RegistryView,
    c: Crowd,
    kinds: Seq<Writability>,
    key: Seq<Part>,
    i: int,
    cache_size_bytes: Option<u64>,
    keyspace: fjall::Keyspace,
)
    requires
        in_order(s, c, kinds, key),
        s.slot(key) is None,
        0 <= i < kinds.len(),
        c.progress[i] is Opening,
        c.moved(i, kinds[i], key, Move::Opens { cache_size_bytes, keyspace }).registry.wf(),
    ensures
        in_order(
            s,
            c.moved(i, kinds[i], key, Move::Opens { cache_size_bytes, keyspace }),
            kinds,
            key,
        ),
{
    let d = c.moved(i, kinds[i], key, Move::Opens { cache_size_bytes, keyspace });
    let claimed = c.progress[i]->key;
    assert(accounted_for(s, c, key, claimed));
    assert(accounted_for(s, c, key, key));
    lemma_attached(c, d, i, kinds);
    assert forall|k: Seq<Part>| #[trigger] accounted_for(s, d, key, k) by {
        assert(accounted_for(s, c, key, k));
        lemma_still_opening(c, d, i, k);
    }
    assert forall|j: int| 0 <= j < kinds.len() implies #[trigger] well_served(d, kinds, key, j) by {
        assert(well_served(c, kinds, key, j));
    }
    lemma_apart(c, d, kinds, key, i);
}

proof fn lemma_order_after_failing(
    s: RegistryView,
    c: Crowd,
    kinds: Seq<Writability>,
    key: Seq<Part>,
    i: int,
)
    requires
        in_order(s, c, kinds, key),
        s.slot(key) is None,
        0 <= i < kinds.len(),
        c.progress[i] is Opening,
        c.moved(i, kinds[i], key, Move::Fails).registry.wf(),
    ensures
        in_order(s, c.moved(i, kinds[i], key, Move::Fails), kinds, key),
{
    let d = c.moved(i, kinds[i], key, Move::Fails);
    let claimed = c.progress[i]->key;
    assert(accounted_for(s, c, key, claimed));
    assert(accounted_for(s, c, key, key));
    lemma_attached(c, d, i, kinds);
    assert forall|k: Seq<Part>| #[trigger] accounted_for(s, d, key, k) by {
        assert(accounted_for(s, c, key, k));
        lemma_still_opening(c, d, i, k);
    }
    assert forall|j: int| 0 <= j < kinds.len() implies #[trigger] well_served(d, kinds, key, j) by {
        assert(well_served(c, kinds, key, j));
    }
    lemma_apart(c, d, kinds, key, i);
}

/// An opener that is opening a directory and does not move is still opening it.
proof fn lemma_still_opening(c: Crowd, d: Crowd, i: int, k: Seq<Part>)
    requires
        0 <= i < c.progress.len(),
        d.progress == c.progress.update(i, d.progress[i]),
    ensures
        (exists|j: int|
            0 <= j < c.progress.len() && j != i && #[trigger] c.progress[j] == (Progress::Opening {
                key: k,
            })) ==> exists|j: int|
            0 <= j < d.progress.len() && #[trigger] d.progress[j] == (Progress::Opening { key: k }),
{
    if exists|j: int|
        0 <= j < c.progress.len() && j != i && #[trigger] c.progress[j] == (Progress::Opening {
            key: k,
        }) {
        let j = choose|j: int|
            0 <= j < c.progress.len() && j != i && #[trigger] c.progress[j] == (Progress::Opening {
                key: k,
            });
        assert(d.progress[j] == (Progress::Opening { key: k }));
    }
}

/// A handle that was not open before is none that another opener has.
proof fn lemma_apart(c: Crowd, d: Crowd, kinds: Seq<Writability>, key: Seq<Part>, i: int)
    requires
        apart(c),
        c.progress.len() == kinds.len(),
        forall|j: int| 0 <= j < kinds.len() ==> #[trigger] well_served(c, kinds, key, j),
        0 <= i < kinds.len(),
        d.progress == c.progress.update(i, d.progress[i]),
        d.progress[i] matches Progress::Attached { handle } ==> !c.registry.open.contains(handle),
    ensures
        apart(d),
{
    assert forall|j: int, k: int|
        0 <= j < d.progress.len() && 0 <= k < d.progress.len() && j != k && d.progress[j] is Attached
            && d.progress[k] is Attached implies (#[trigger] d.progress[j])->handle != (
    #[trigger] d.progress[k])->handle by {
        assert(well_served(c, kinds, key, j));
        assert(well_served(c, kinds, key, k));
        if j != i && k != i {
            assert(c.progress[j]->handle != c.progress[k]->handle);
        }
    }
}

/// Every move is made by an opener there is, and asks for a key that was not in use before any of
/// them came.
pub open spec fn playable(s: RegistryView, n: nat, moves: Seq<(int, Move)>) -> bool {
    forall|j: int|
        0 <= j < moves.len() ==> 0 <= (#[trigger] moves[j]).0 < n && (moves[j].1 matches Move::Asks {
            key,
        } ==> s.slot(key) is None)
}

/// Whatever moves were made, the openers are in order.
proof fn lemma_always_in_order(
    s: RegistryView,
    kinds: Seq<Writability>,
    key: Seq<Part>,
    moves: Seq<(int, Move)>,
)
    requires
        s.wf(),
        s.slot(key) is None,
        playable(s, kinds.len(), moves),
    ensures
        in_order(s, Crowd::gathered(s, kinds.len()).moved_all(kinds, key, moves), kinds, key),
    decreases moves.len(),
{
    let start = Crowd::gathered(s, kinds.len());
    if moves.len() == 0 {
        assert(start.attached() =~= Set::empty());
        assert(start.attached().intersect(writers(kinds)) =~= Set::empty());
    } else {
        let before = moves.drop_last();
        assert forall|j: int| 0 <= j < before.len() implies 0 <= (#[trigger] before[j]).0
            < kinds.len() && (before[j].1 matches Move::Asks { key: k } ==> s.slot(k) is None) by {
            assert(before[j] == moves[j]);
        }
        lemma_always_in_order(s, kinds, key, before);
        let last = moves[moves.len() - 1];
        lemma_move_keeps_order(
            s,
            start.moved_all(kinds, key, before),
            kinds,
            key,
            last.0,
            last.1,
        );
    }
}

/// Openers of one unused directory that come all at once, some of which may fail to open it: those
/// who succeed share one engine, in whichever order all make their moves and whichever keys they
/// derive before the directory exists. When nobody is left who asks or opens, the engine counts
/// exactly those with a handle, no two of them have one handle, and nothing else is in use that
/// was not in use before: no claim is left. Where all have failed, nothing is left at all.
pub proof fn openers_that_succeed_share_one_engine(
    s: RegistryView,
    kinds: Seq<Writability>,
    key: Seq<Part>,
    moves: Seq<(int, Move)>,
)
    requires
        s.wf(),
        s.slot(key) is None,
        playable(s, kinds.len(), moves),
        Crowd::gathered(s, kinds.len()).moved_all(kinds, key, moves).done(),
    ensures
        ({
            let c = Crowd::gathered(s, kinds.len()).moved_all(kinds, key, moves);
            let t = c.registry;
            &&& t.wf()
            &&& c.progress.len() == kinds.len()
            &&& c.attached().finite()
            &&& if c.attached().len() == 0 {
                t.slots == s.slots
            } else {
                &&& t.engine_at(key) is Some
                &&& t.slots[key]->refs == c.attached().len()
                &&& t.slots[key]->writable == c.attached().intersect(writers(kinds)).len()
            }
            &&& forall|i: int|
                0 <= i < kinds.len() ==> (#[trigger] c.progress[i] matches Progress::Attached {
                    handle,
                } ==> {
                    &&& handle.key == key
                    &&& handle.writable == (kinds[i] is Writable)
                    &&& t.engine_at(key) is Some
                    &&& t.engine_of(handle) == t.engine_at(key)
                })
            &&& forall|i: int, j: int|
                0 <= i < kinds.len() && 0 <= j < kinds.len() && i != j && c.progress[i] is Attached
                    && c.progress[j] is Attached ==> (#[trigger] c.progress[i])->handle != (
                #[trigger] c.progress[j])->handle
            &&& forall|k: Seq<Part>| k != key ==> #[trigger] t.slot(k) == s.slot(k)
        }),
{
    let c = Crowd::gathered(s, kinds.len()).moved_all(kinds, key, moves);
    let t = c.registry;
    lemma_always_in_order(s, kinds, key, moves);
    lemma_bounded(c.attached(), kinds.len() as int);
    assert forall|i: int| 0 <= i < kinds.len() implies (#[trigger] c.progress[i] matches
        Progress::Attached { handle } ==> {
        &&& handle.key == key
        &&& handle.writable == (kinds[i] is Writable)
        &&& t.engine_at(key) is Some
        &&& t.engine_of(handle) == t.engine_at(key)
    }) by {
        assert(well_served(c, kinds, key, i));
    }
    assert forall|k: Seq<Part>| k != key implies #[trigger] t.slot(k) == s.slot(k) by {
        assert(accounted_for(s, c, key, k));
    }
    assert(accounted_for(s, c, key, key));
    if c.attached().len() == 0 {
        if t.engine_at(key) is Some {
            assert(t.slots.dom().contains(key) && t.slot_ok(key));
        }
        assert(t.slot(key) is None);
        assert forall|k: Seq<Part>| #[trigger] t.slots.dom().contains(k)
            <==> s.slots.dom().contains(k) by {
            assert(t.slot(k) == s.slot(k));
        }
        assert forall|k: Seq<Part>| #[trigger] t.slots.dom().contains(k) implies t.slots[k]
            == s.slots[k] by {
            assert(t.slot(k) == s.slot(k));
        }
        assert(t.slots =~= s.slots);
    }
}

/// Openers of one unused directory that come all at once and all succeed share one engine, which
/// counts as many handles as there are openers, and as many writers.
pub proof fn openers_at_once_share_one_engine(
    s: RegistryView,
    kinds: Seq<Writability>,
    key: Seq<Part>,
    moves: Seq<(int, Move)>,
)
    requires
        s.wf(),
        s.slot(key) is None,
        kinds.len() >= 1,
        playable(s, kinds.len(), moves),
        Crowd::gathered(s, kinds.len()).moved_all(kinds, key, moves).served(),
    ensures
        ({
            let c = Crowd::gathered(s, kinds.len()).moved_all(kinds, key, moves);
            let t = c.registry;
            &&& t.wf()
            &&& t.engine_at(key) is Some
            &&& t.slots[key]->refs == kinds.len()
            &&& t.slots[key]->writable == writers(kinds).len()
            &&& c.progress.len() == kinds.len()
            &&& forall|i: int|
                0 <= i < kinds.len() ==> {
                    let handle = (#[trigger] c.progress[i])->handle;
                    &&& handle.key == key
                    &&& handle.writable == (kinds[i] is Writable)
                    &&& t.engine_of(handle) == t.engine_at(key)
                }
            &&& forall|i: int, j: int|
                0 <= i < kinds.len() && 0 <= j < kinds.len() && i != j ==> (
                #[trigger] c.progress[i])->handle != (#[trigger] c.progress[j])->handle
            &&& forall|k: Seq<Part>| k != key ==> #[trigger] t.slot(k) == s.slot(k)
        }),
{
    let c = Crowd::gathered(s, kinds.len()).moved_all(kinds, key, moves);
    openers_that_succeed_share_one_engine(s, kinds, key, moves);
    let n = kinds.len() as int;
    lemma_int_range(0, n);
    assert(c.attached() =~= set_int_range(0, n));
    assert(c.attached().intersect(writers(kinds)) =~= writers(kinds));
}

/// Openers never all wait for each other, though some may have failed: where nobody is opening the
/// directory, whoever asks is told to go on.
pub proof fn openers_do_not_all_wait(
    s: RegistryView,
    kinds: Seq<Writability>,
    key: Seq<Part>,
    moves: Seq<(int, Move)>,
    asked: Seq<Part>,
)
    requires
        s.wf(),
        s.slot(key) is None,
        s.slot(asked) is None,
        playable(s, kinds.len(), moves),
        forall|i: int|
            0 <= i < kinds.len() ==> !((#[trigger] Crowd::gathered(s, kinds.len()).moved_all(
                kinds,
                key,
                moves,
            ).progress[i]) is Opening),
    ensures
        !Crowd::gathered(s, kinds.len()).moved_all(kinds, key, moves).registry.busy(asked),
{
    let c = Crowd::gathered(s, kinds.len()).moved_all(kinds, key, moves);
    lemma_always_in_order(s, kinds, key, moves);
    assert(accounted_for(s, c, key, asked));
}

} // verus!
