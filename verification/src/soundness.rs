//! Every step of the registry keeps its invariant.

use vstd::prelude::*;

use crate::config::Writability;
use crate::model::{handles_of, writers_of, HandleView, RegistryView, SlotView};
use crate::path::Part;

verus! {

/// One more handle counts for its own engine and for no other.
pub proof fn lemma_count_one_more(open: Set<HandleView>, h: HandleView, id: int)
    requires
        open.finite(),
        !open.contains(h),
    ensures
        handles_of(open, id).finite(),
        writers_of(open, id).finite(),
        handles_of(open.insert(h), id).len() == handles_of(open, id).len() + if h.engine == id {
            1int
        } else {
            0int
        },
        writers_of(open.insert(h), id).len() == writers_of(open, id).len() + if h.engine == id
            && h.writable {
            1int
        } else {
            0int
        },
{
    open.lemma_len_filter(|g: HandleView| g.engine == id);
    open.lemma_len_filter(|g: HandleView| g.engine == id && g.writable);
    if h.engine == id {
        assert(handles_of(open.insert(h), id) =~= handles_of(open, id).insert(h));
    } else {
        assert(handles_of(open.insert(h), id) =~= handles_of(open, id));
    }
    if h.engine == id && h.writable {
        assert(writers_of(open.insert(h), id) =~= writers_of(open, id).insert(h));
    } else {
        assert(writers_of(open.insert(h), id) =~= writers_of(open, id));
    }
}

/// Closing a handle takes it from the count of its own engine and of no other.
pub proof fn lemma_count_one_less(open: Set<HandleView>, h: HandleView, id: int)
    requires
        open.finite(),
        open.contains(h),
    ensures
        handles_of(open.remove(h), id).len() == handles_of(open, id).len() - if h.engine == id {
            1int
        } else {
            0int
        },
        writers_of(open.remove(h), id).len() == writers_of(open, id).len() - if h.engine == id
            && h.writable {
            1int
        } else {
            0int
        },
{
    lemma_count_one_more(open.remove(h), h, id);
    assert(open.remove(h).insert(h) =~= open);
}

/// No handle that was given out is attached to an engine that is still to come.
proof fn lemma_unborn_engine_has_no_handles(s: RegistryView)
    requires
        s.wf(),
    ensures
        handles_of(s.open, s.next_engine).len() == 0,
        writers_of(s.open, s.next_engine).len() == 0,
{
    assert(handles_of(s.open, s.next_engine) =~= Set::empty());
    assert(writers_of(s.open, s.next_engine) =~= Set::empty());
}

/// The empty registry is sound.
pub proof fn empty_is_sound()
    ensures
        RegistryView::empty().wf(),
{
}

/// Attaching a handle to a live engine keeps the registry sound.
pub proof fn attaching_is_sound(s: RegistryView, key: Seq<Part>, w: Writability)
    requires
        s.wf(),
        s.engine_at(key) is Some,
    ensures
        s.attached(key, w).wf(),
{
    let t = s.attached(key, w);
    let engine = s.engine_at(key)->0;
    let h = s.new_handle(engine.id, key, w);
    assert(!s.open.contains(h));
    assert forall|k: Seq<Part>| #[trigger] t.slots.dom().contains(k) implies t.slot_ok(k) by {
        assert(s.slots.dom().contains(k));
        assert(s.slot_ok(k));
        match s.slots[k] {
            SlotView::Live { engine: e, refs, writable } => {
                lemma_count_one_more(s.open, h, e.id);
                if k != key {
                    assert(s.engine_at(k)->0.id != s.engine_at(key)->0.id);
                }
            },
            _ => {},
        }
    }
    assert forall|k: Seq<Part>| (#[trigger] t.engine_at(k)) == s.engine_at(k) by {}
}

/// Claiming a directory that no engine serves keeps the registry sound.
pub proof fn claiming_is_sound(s: RegistryView, key: Seq<Part>)
    requires
        s.wf(),
        s.engine_at(key) is None,
    ensures
        s.claimed(key).wf(),
{
    let t = s.claimed(key);
    assert forall|k: Seq<Part>| #[trigger] t.slots.dom().contains(k) implies t.slot_ok(k) by {
        if k != key {
            assert(s.slots.dom().contains(k));
            assert(s.slot_ok(k));
        }
    }
    assert forall|k: Seq<Part>| (#[trigger] t.engine_at(k)) is Some implies t.engine_at(k)
        == s.engine_at(k) by {}
}

/// Forgetting a directory that no engine serves keeps the registry sound.
pub proof fn forgetting_is_sound(s: RegistryView, key: Seq<Part>)
    requires
        s.wf(),
        s.engine_at(key) is None,
    ensures
        s.forgotten(key).wf(),
{
    let t = s.forgotten(key);
    assert forall|k: Seq<Part>| #[trigger] t.slots.dom().contains(k) implies t.slot_ok(k) by {
        assert(s.slots.dom().contains(k));
        assert(s.slot_ok(k));
    }
    assert forall|k: Seq<Part>| (#[trigger] t.engine_at(k)) is Some implies t.engine_at(k)
        == s.engine_at(k) by {}
}

/// Ending a claim keeps the registry sound.
pub proof fn unclaiming_is_sound(s: RegistryView, key: Seq<Part>)
    requires
        s.wf(),
    ensures
        s.unclaimed(key).wf(),
{
    if s.engine_at(key) is None {
        forgetting_is_sound(s, key);
    }
}

/// Putting a new engine into service keeps the registry sound.
pub proof fn creating_is_sound(
    s: RegistryView,
    key: Seq<Part>,
    cache_size_bytes: Option<u64>,
    keyspace: fjall::Keyspace,
    w: Writability,
)
    requires
        s.wf(),
        s.engine_at(key) is None,
    ensures
        s.created(key, cache_size_bytes, keyspace, w).wf(),
{
    let t = s.created(key, cache_size_bytes, keyspace, w);
    let h = s.new_handle(s.next_engine, key, w);
    assert(!s.open.contains(h));
    lemma_unborn_engine_has_no_handles(s);
    lemma_count_one_more(s.open, h, s.next_engine);
    assert forall|k: Seq<Part>| #[trigger] t.slots.dom().contains(k) implies t.slot_ok(k) by {
        if k != key {
            assert(s.slots.dom().contains(k));
            assert(s.slot_ok(k));
            match s.slots[k] {
                SlotView::Live { engine: e, refs, writable } => {
                    lemma_count_one_more(s.open, h, e.id);
                },
                _ => {},
            }
        }
    }
    assert forall|k: Seq<Part>| k != key implies (#[trigger] t.engine_at(k)) == s.engine_at(k) by {}
    assert forall|k: Seq<Part>| (#[trigger] s.engine_at(k)) is Some implies s.engine_at(k)->0.id
        < s.next_engine by {
        assert(s.slots.dom().contains(k));
        assert(s.slot_ok(k));
    }
    assert forall|k1: Seq<Part>, k2: Seq<Part>|
        t.engine_at(k1) is Some && t.engine_at(k2) is Some && (#[trigger] t.engine_at(k1))->0.id
            == (#[trigger] t.engine_at(k2))->0.id implies k1 == k2 by {
        if k1 != key && k2 != key {
            assert(s.engine_at(k1)->0.id == s.engine_at(k2)->0.id);
        } else if k1 != key {
            assert(s.engine_at(k1) is Some);
        } else if k2 != key {
            assert(s.engine_at(k2) is Some);
        }
    }
    assert forall|g: HandleView| #[trigger] t.open.contains(g) implies t.engine_at(g.key) is Some
        && t.engine_at(g.key)->0.id == g.engine by {
        if g != h {
            assert(s.open.contains(g));
            assert(g.key != key);
        }
    }
}

/// Closing a handle keeps the registry sound.
pub proof fn releasing_is_sound(s: RegistryView, h: HandleView)
    requires
        s.wf(),
    ensures
        s.released(h).wf(),
{
    let t = s.released(h);
    if s.open.contains(h) {
        assert forall|k: Seq<Part>| #[trigger] t.slots.dom().contains(k) implies t.slot_ok(k) by {
            assert(s.slots.dom().contains(k));
            assert(s.slot_ok(k));
            match s.slots[k] {
                SlotView::Live { engine: e, refs, writable } => {
                    lemma_count_one_less(s.open, h, e.id);
                    assert(s.engine_at(k) == Some(e));
                    if h.engine == e.id {
                        assert(s.engine_at(h.key)->0.id == s.engine_at(k)->0.id);
                        assert(s.engine_of(h) == Some(e));
                    }
                },
                _ => {},
            }
        }
        assert forall|g: HandleView| #[trigger] t.open.contains(g) implies t.engine_at(g.key) is Some
            && t.engine_at(g.key)->0.id == g.engine by {
            assert(s.open.contains(g));
            if g.key == h.key {
                assert(s.slots.dom().contains(h.key));
                assert(s.slot_ok(h.key));
                let mine = handles_of(s.open, h.engine);
                s.open.lemma_len_filter(|x: HandleView| x.engine == h.engine);
                assert(mine.contains(h) && mine.contains(g));
                assert(mine.remove(h).contains(g));
                assert(mine.remove(h).len() > 0);
            }
        }
        assert forall|k: Seq<Part>| (#[trigger] t.engine_at(k)) is Some implies t.engine_at(k)
            == s.engine_at(k) by {}
    }
}

/// Freeing an engine keeps the registry sound.
pub proof fn tearing_down_is_sound(s: RegistryView, key: Seq<Part>)
    requires
        s.wf(),
    ensures
        s.torn_down(key).wf(),
{
    if s.engine_at(key) is None {
        forgetting_is_sound(s, key);
    }
}

/// Opening a partition keeps the registry sound.
pub proof fn opening_a_partition_is_sound(
    s: RegistryView,
    h: HandleView,
    partition: fjall::PartitionHandle,
)
    requires
        s.wf(),
    ensures
        s.with_partition(h, partition).wf(),
{
    let t = s.with_partition(h, partition);
    assert forall|k: Seq<Part>| #[trigger] t.slots.dom().contains(k) implies t.slot_ok(k) by {
        assert(s.slots.dom().contains(k) || k == h.key);
        if s.slots.dom().contains(k) {
            assert(s.slot_ok(k));
        }
    }
    assert forall|k: Seq<Part>|
        (#[trigger] t.engine_at(k)) is Some <==> s.engine_at(k) is Some by {}
    assert forall|k: Seq<Part>| (#[trigger] t.engine_at(k)) is Some implies t.engine_at(k)->0.id
        == s.engine_at(k)->0.id by {}
}

} // verus!
