use vstd::prelude::*;

use crate::com_struct_impl::{find_iid, lemma_find_iid, lemma_find_iid_none};
use crate::iid::Iid;
use crate::runtime::{
    add_ref_objs, agg_ok, find_delegate, in_prefix, kill_obj, lemma_release_wf, obj_ok,
    objects_ok, qi_target, release_objs, resolve, ComObject,
};

verus! {

/// AddRef followed immediately by Release restores the whole object table:
/// the pair is a no-op on every reference count and on every instance's
/// liveness, so anything that succeeded before the pair — an identity query
/// included — succeeds identically after it.
pub proof fn law_add_ref_release_round_trip(objs: Seq<ComObject>, o: int)
    requires
        objects_ok(objs),
        0 <= o < objs.len(),
        objs[resolve(objs, o)].alive,
        objs[resolve(objs, o)].ref_count < u64::MAX,
    ensures
        release_objs(add_ref_objs(objs, o), o) == objs,
{
    let t = resolve(objs, o);
    let mid = add_ref_objs(objs, o);
    assert(obj_ok(objs, o));
    assert(obj_ok(objs, t));
    assert(mid[o].outer == objs[o].outer);
    assert(resolve(mid, o) == t);
    assert(mid[t].ref_count == objs[t].ref_count + 1);
    assert(release_objs(mid, o) =~= objs);
}

/// The zero transition of the reference count is unique: one Release call
/// observes it (count was one, the instance dies) and every other Release
/// leaves the instance alive. Together with liveness being required for any
/// dispatch, teardown can happen at most once per instance.
pub proof fn law_release_zero_transition(objs: Seq<ComObject>, o: int)
    requires
        objects_ok(objs),
        objs.len() <= usize::MAX,
        0 <= o < objs.len(),
        objs[resolve(objs, o)].alive,
    ensures
        release_objs(objs, o)[resolve(objs, o)].alive <==> objs[resolve(objs, o)].ref_count > 1,
        release_objs(objs, o)[resolve(objs, o)].ref_count == objs[resolve(objs, o)].ref_count - 1,
{
    lemma_release_wf(objs, o);
    assert(obj_ok(objs, o));
    assert(obj_ok(objs, resolve(objs, o)));
}

/// An identity the governing instance implements directly is always found:
/// the query cannot fail with "no such interface" for an implemented pair.
pub proof fn law_implemented_identity_found(objs: Seq<ComObject>, o: int, iid: Iid, k: int)
    requires
        objects_ok(objs),
        0 <= o < objs.len(),
        0 <= k < objs[resolve(objs, o)].interfaces@.len(),
        objs[resolve(objs, o)].interfaces@[k] == iid,
    ensures
        qi_target(objs, o, iid) is Some,
{
    let t = resolve(objs, o);
    lemma_find_iid(objs[t].interfaces@, iid);
    if find_iid(objs[t].interfaces@, iid) is None {
        assert(objs[t].interfaces@[k] != iid);
    }
}

/// No aggregated inner named by `aggs` implements the identity, so the
/// forwarding scan finds nothing.
proof fn lemma_find_delegate_none(objs: Seq<ComObject>, aggs: Seq<usize>, iid: Iid)
    requires
        forall|j: int|
            0 <= j < aggs.len() ==> find_iid(
                objs[#[trigger] aggs[j] as int].interfaces@,
                iid,
            ) is None,
    ensures
        find_delegate(objs, aggs, iid) is None,
    decreases aggs.len(),
{
    if aggs.len() > 0 {
        assert(aggs[0] == aggs.skip(0)[0]);
        assert forall|j: int|
            0 <= j < aggs.skip(1).len() implies find_iid(
            objs[#[trigger] aggs.skip(1)[j] as int].interfaces@,
            iid,
        ) is None by {
            assert(aggs.skip(1)[j] == aggs[j + 1]);
        }
        lemma_find_delegate_none(objs, aggs.skip(1), iid);
    }
}

/// A successful forwarding scan names an aggregated inner that implements
/// the identity.
proof fn lemma_find_delegate_member(objs: Seq<ComObject>, aggs: Seq<usize>, iid: Iid)
    requires
        find_delegate(objs, aggs, iid) is Some,
    ensures
        exists|j: int|
            0 <= j < aggs.len() && #[trigger] aggs[j] as int == find_delegate(
                objs,
                aggs,
                iid,
            )->Some_0.0 && find_iid(objs[aggs[j] as int].interfaces@, iid) == Some(
                find_delegate(objs, aggs, iid)->Some_0.1,
            ),
    decreases aggs.len(),
{
    if find_iid(objs[aggs[0] as int].interfaces@, iid) is Some {
        assert(aggs[0] as int == find_delegate(objs, aggs, iid)->Some_0.0);
    } else {
        lemma_find_delegate_member(objs, aggs.skip(1), iid);
        let j = choose|j: int|
            0 <= j < aggs.skip(1).len() && #[trigger] aggs.skip(1)[j] as int == find_delegate(
                objs,
                aggs.skip(1),
                iid,
            )->Some_0.0 && find_iid(objs[aggs.skip(1)[j] as int].interfaces@, iid) == Some(
                find_delegate(objs, aggs.skip(1), iid)->Some_0.1,
            );
        assert(aggs.skip(1)[j] == aggs[j + 1]);
        assert(0 <= j + 1 < aggs.len() && aggs[j + 1] as int == find_delegate(
            objs,
            aggs,
            iid,
        )->Some_0.0 && find_iid(objs[aggs[j + 1] as int].interfaces@, iid) == Some(
            find_delegate(objs, aggs, iid)->Some_0.1,
        ));
    }
}

/// An identity implemented neither by the governing instance nor by any of
/// its aggregated inners is never found: the query fails with "no such
/// interface" (and, by the query operation's contract, writes a null output
/// pointer and changes nothing).
pub proof fn law_unimplemented_identity_rejected(objs: Seq<ComObject>, o: int, iid: Iid)
    requires
        objects_ok(objs),
        0 <= o < objs.len(),
        ({
            let t = resolve(objs, o);
            &&& (forall|k: int|
                0 <= k < objs[t].interfaces@.len() ==> objs[t].interfaces@[k] != iid)
            &&& (forall|j: int, k: int|
                #![trigger objs[objs[t].aggregates@[j] as int].interfaces@[k]]
                0 <= j < objs[t].aggregates@.len() && 0 <= k < objs[objs[t].aggregates@[j] as int].interfaces@.len()
                    ==> objs[objs[t].aggregates@[j] as int].interfaces@[k] != iid)
        }),
    ensures
        qi_target(objs, o, iid) is None,
{
    let t = resolve(objs, o);
    lemma_find_iid_none(objs[t].interfaces@, iid);
    assert forall|j: int|
        0 <= j < objs[t].aggregates@.len() implies find_iid(
        objs[#[trigger] objs[t].aggregates@[j] as int].interfaces@,
        iid,
    ) is None by {
        lemma_find_iid_none(objs[objs[t].aggregates@[j] as int].interfaces@, iid);
    }
    lemma_find_delegate_none(objs, objs[t].aggregates@, iid);
}

/// Interface pointers are interchangeable: whatever interface a successful
/// query hands out, the pointer is governed by the same instance as the one
/// queried, so AddRef, Release and further identity queries through it are
/// exactly the operations on the original pointer.
pub proof fn law_interface_pointers_interchangeable(objs: Seq<ComObject>, o: int, iid: Iid)
    requires
        objects_ok(objs),
        objs.len() <= usize::MAX,
        0 <= o < objs.len(),
        qi_target(objs, o, iid) is Some,
    ensures
        ({
            let pt = qi_target(objs, o, iid)->Some_0;
            &&& 0 <= pt.0 < objs.len()
            &&& resolve(objs, pt.0) == resolve(objs, o)
            &&& add_ref_objs(objs, pt.0) == add_ref_objs(objs, o)
            &&& release_objs(objs, pt.0) == release_objs(objs, o)
            &&& (forall|q: Iid| qi_target(objs, pt.0, q) == qi_target(objs, o, q))
        }),
{
    let t = resolve(objs, o);
    let pt = qi_target(objs, o, iid)->Some_0;
    assert(obj_ok(objs, o));
    assert(obj_ok(objs, t));
    if find_iid(objs[t].interfaces@, iid) is Some {
        assert(pt.0 == t);
    } else {
        lemma_find_delegate_member(objs, objs[t].aggregates@, iid);
        let j = choose|j: int|
            0 <= j < objs[t].aggregates@.len() && #[trigger] objs[t].aggregates@[j] as int == pt.0
                && find_iid(objs[objs[t].aggregates@[j] as int].interfaces@, iid) == Some(pt.1);
        assert(agg_ok(objs, t, j));
        assert(objs[pt.0].outer == Some(t as usize));
    }
    assert(resolve(objs, pt.0) == t);
}

/// Aggregation delegates lifetime to the outer: a pointer obtained from the
/// outer for a delegated identity points into the inner, yet AddRef through
/// it raises the outer's reference count and leaves the inner's untouched.
pub proof fn law_delegated_query_governed_by_outer(objs: Seq<ComObject>, o: int, iid: Iid)
    requires
        objects_ok(objs),
        objs.len() <= usize::MAX,
        0 <= o < objs.len(),
        objs[o].outer is None,
        objs[o].ref_count < u64::MAX,
        find_iid(objs[o].interfaces@, iid) is None,
        find_delegate(objs, objs[o].aggregates@, iid) is Some,
    ensures
        ({
            let pt = qi_target(objs, o, iid)->Some_0;
            &&& qi_target(objs, o, iid) is Some
            &&& pt.0 != o
            &&& objs[pt.0].outer == Some(o as usize)
            &&& add_ref_objs(objs, pt.0)[o].ref_count == objs[o].ref_count + 1
            &&& add_ref_objs(objs, pt.0)[pt.0].ref_count == objs[pt.0].ref_count
        }),
{
    assert(obj_ok(objs, o));
    assert(resolve(objs, o) == o);
    lemma_find_delegate_member(objs, objs[o].aggregates@, iid);
    let pt = qi_target(objs, o, iid)->Some_0;
    let j = choose|j: int|
        0 <= j < objs[o].aggregates@.len() && #[trigger] objs[o].aggregates@[j] as int == pt.0
            && find_iid(objs[objs[o].aggregates@[j] as int].interfaces@, iid) == Some(pt.1);
    assert(agg_ok(objs, o, j));
    assert(objs[pt.0].outer == Some(o as usize));
    assert(resolve(objs, pt.0) == o);
}

/// Releasing the outer's last reference tears down the outer and every
/// aggregated inner it owns, each exactly once: all of them are dead
/// afterwards, with their counts at zero, and teardown cannot recur because
/// every operation demands a live instance.
pub proof fn law_outer_release_tears_down_inners(objs: Seq<ComObject>, o: int)
    requires
        objects_ok(objs),
        objs.len() <= usize::MAX,
        0 <= o < objs.len(),
        objs[o].outer is None,
        objs[o].alive,
        objs[o].ref_count == 1,
    ensures
        release_objs(objs, o)[o] == kill_obj(objs[o]),
        forall|j: int|
            0 <= j < objs[o].aggregates@.len()
                ==> release_objs(objs, o)[(#[trigger] objs[o].aggregates@[j]) as int]
                == kill_obj(objs[objs[o].aggregates@[j] as int]),
{
    assert(obj_ok(objs, o));
    assert(resolve(objs, o) == o);
    lemma_release_wf(objs, o);
    let aggs = objs[o].aggregates@;
    assert forall|j: int|
        0 <= j < aggs.len() implies release_objs(objs, o)[#[trigger] aggs[j] as int] == kill_obj(
        objs[aggs[j] as int],
    ) by {
        assert(agg_ok(objs, o, j));
        assert(in_prefix(aggs, aggs.len() as int, aggs[j] as int));
    }
}

/// Once the last outstanding instance's final reference is released, nothing
/// but registry-held factories stays alive: the module may report that it can
/// be unloaded (given a zero lock count).
pub proof fn law_unload_after_last_release(objs: Seq<ComObject>, o: int)
    requires
        objects_ok(objs),
        objs.len() <= usize::MAX,
        0 <= o < objs.len(),
        objs[o].outer is None,
        objs[o].alive,
        objs[o].ref_count == 1,
        objs[o].factory_of is None,
        forall|i: int|
            0 <= i < objs.len() && objs[i].alive && (#[trigger] objs[i].factory_of) is None ==> i
                == o || in_prefix(objs[o].aggregates@, objs[o].aggregates@.len() as int, i),
    ensures
        crate::runtime::no_instance_outstanding(release_objs(objs, o)),
{
    assert(obj_ok(objs, o));
    assert(resolve(objs, o) == o);
    lemma_release_wf(objs, o);
    let r = release_objs(objs, o);
    let aggs = objs[o].aggregates@;
    assert forall|i: int| 0 <= i < r.len() implies (r[i].alive ==> (#[trigger] r[i].factory_of)
        is Some) by {
        if i == o {
        } else if in_prefix(aggs, aggs.len() as int, i) {
        } else {
            assert(r[i] == objs[i]);
        }
    }
}

} // verus!
