use vstd::prelude::*;

use crate::co_class::CoClassDef;
use crate::com_struct_impl::{find_iid, interface_slot, lemma_find_iid_at, lemma_find_iid_none};
use crate::comoutptr::ComOutPtr;
use crate::comptr::{ComPtr, InterfacePtr};
use crate::hresult::{CLASS_E_CLASSNOTAVAILABLE, E_INVALIDARG, E_NOINTERFACE, S_FALSE, S_OK};
use crate::iid::{iclassfactory_iid, iid_iclassfactory, iid_iunknown, iunknown_iid, Iid};

verus! {

/// One component instance of the in-process model. Interface pointers into
/// the instance are (instance, slot) pairs; the dispatch-table-pointer slots
/// themselves are read-only after construction, so the mutable state shared
/// by all holders of a pointer is the reference count alone.
pub struct ComObject {
    /// Identities of the directly implemented interfaces, declaration order.
    pub interfaces: Vec<Iid>,
    /// Instance identifiers of the aggregated inner components this instance
    /// owns, in declared order. They live exactly as long as this instance.
    pub aggregates: Vec<usize>,
    /// For an aggregated inner component: the outer instance whose reference
    /// count and identity queries subsume this one's.
    pub outer: Option<usize>,
    /// The single shared reference count.
    pub ref_count: u64,
    /// Whether the count has not yet reached zero. The transition to zero
    /// happens exactly once and is the unique trigger for teardown.
    pub alive: bool,
    /// For a class factory object: the class registration it constructs
    /// instances of.
    pub factory_of: Option<usize>,
}

/// One class registration: read-only after generation, process lifetime.
pub struct ClassReg {
    pub clsid: Iid,
    /// The class's directly implemented interfaces, declaration order.
    pub interfaces: Vec<Iid>,
    /// The factory object constructing instances of this class.
    pub factory: usize,
}

/// The process-wide component runtime: every instance ever allocated (dead
/// ones stay as tombstones so instance identifiers are never reused), the
/// class registrations, and the module lock counter.
pub struct Runtime {
    pub objects: Vec<ComObject>,
    pub classes: Vec<ClassReg>,
    pub lock_count: u64,
}

/// The instance whose reference count and identity queries govern `o`: the
/// outer instance if `o` is an aggregated inner, otherwise `o` itself.
pub open spec fn resolve(objs: Seq<ComObject>, o: int) -> int {
    match objs[o].outer {
        Some(p) => p as int,
        None => o,
    }
}

/// What must hold of aggregation entry `j` of instance `i`: the inner exists,
/// is a distinct non-factory instance that knows `i` as its outer, aggregates
/// nothing itself, and lives exactly as long as `i`, held by `i`'s single
/// owning reference.
pub open spec fn agg_ok(objs: Seq<ComObject>, i: int, j: int) -> bool {
    let n = objs[i].aggregates@[j] as int;
    &&& 0 <= n < objs.len()
    &&& n != i
    &&& objs[n].outer == Some(i as usize)
    &&& objs[n].aggregates@.len() == 0
    &&& objs[n].factory_of is None
    &&& (objs[i].alive ==> objs[n].alive && objs[n].ref_count == 1)
    &&& (!objs[i].alive ==> !objs[n].alive)
}

/// Well-formedness of one instance: liveness is exactly a positive count, an
/// aggregated inner points at a top-level outer and owns nothing itself, and
/// the owned inners are distinct and well-wired.
pub open spec fn obj_ok(objs: Seq<ComObject>, i: int) -> bool {
    let o = objs[i];
    &&& (o.alive <==> o.ref_count > 0)
    &&& (match o.outer {
        Some(p) => p < objs.len() && p as int != i && objs[p as int].outer is None
            && o.aggregates@.len() == 0,
        None => true,
    })
    &&& (forall|j: int| 0 <= j < o.aggregates@.len() ==> #[trigger] agg_ok(objs, i, j))
    &&& (forall|j1: int, j2: int|
        0 <= j1 < j2 < o.aggregates@.len() ==> o.aggregates@[j1] != o.aggregates@[j2])
}

pub open spec fn objects_ok(objs: Seq<ComObject>) -> bool {
    forall|i: int| 0 <= i < objs.len() ==> #[trigger] obj_ok(objs, i)
}

/// Well-formedness of one class registration: its factory object exists, is a
/// top-level object bound back to the registration, implements exactly the
/// universal interface and the creation interface, and the class itself
/// implements at least one interface.
pub open spec fn class_ok(classes: Seq<ClassReg>, objs: Seq<ComObject>, c: int) -> bool {
    let k = classes[c];
    &&& (k.factory as int) < objs.len()
    &&& objs[k.factory as int].factory_of == Some(c as usize)
    &&& objs[k.factory as int].outer is None
    &&& objs[k.factory as int].aggregates@.len() == 0
    &&& objs[k.factory as int].interfaces@ == seq![iunknown_iid(), iclassfactory_iid()]
    &&& k.interfaces@.len() > 0
}

pub open spec fn classes_ok(classes: Seq<ClassReg>, objs: Seq<ComObject>) -> bool {
    &&& (forall|c: int| 0 <= c < classes.len() ==> #[trigger] class_ok(classes, objs, c))
    &&& (forall|i: int|
        0 <= i < objs.len() && (#[trigger] objs[i].factory_of) is Some
            ==> objs[i].factory_of->Some_0 < classes.len())
}

impl Runtime {
    /// The runtime's global well-formedness invariant: every operation
    /// requires it and re-establishes it.
    pub open spec fn wf(self) -> bool {
        &&& objects_ok(self.objects@)
        &&& classes_ok(self.classes@, self.objects@)
    }

    /// Initializes the component runtime: nothing registered, nothing
    /// allocated, lock counter zero. Teardown is scoped: it happens when the
    /// value goes out of scope, so a second teardown cannot be expressed.
    pub fn new() -> (r: Runtime)
        ensures
            r.wf(),
            r.objects@.len() == 0,
            r.classes@.len() == 0,
            r.lock_count == 0,
    {
        Runtime { objects: Vec::new(), classes: Vec::new(), lock_count: 0 }
    }

    /// Tears the process-wide state down after the last component operation.
    /// Consuming the runtime makes a second teardown inexpressible, which is
    /// how the forbidden double-uninitialize is ruled out.
    pub fn uninitialize(self) {
    }

    /// Resolves an instance to the instance governing it (its outer, if it is
    /// an aggregated inner).
    fn target_of(&self, obj: usize) -> (t: usize)
        requires
            self.wf(),
            obj < self.objects@.len(),
        ensures
            t as int == resolve(self.objects@, obj as int),
            t < self.objects@.len(),
            self.objects@[t as int].outer is None,
    {
        proof {
            assert(obj_ok(self.objects@, obj as int));
        }
        match self.objects[obj].outer {
            Some(p) => p,
            None => obj,
        }
    }
}

/// An instance with only its reference count and liveness changed.
pub open spec fn patched(o: ComObject, count: u64, alive: bool) -> ComObject {
    ComObject { ref_count: count, alive, ..o }
}

/// The state after an AddRef addressed to `o`: the governing instance's count
/// grows by one and nothing else changes.
pub open spec fn add_ref_objs(objs: Seq<ComObject>, o: int) -> Seq<ComObject> {
    let t = resolve(objs, o);
    objs.update(t, patched(objs[t], (objs[t].ref_count + 1) as u64, true))
}

/// Two object tables that differ at most in reference counts and liveness.
pub open spec fn same_wiring(objs: Seq<ComObject>, objs2: Seq<ComObject>) -> bool {
    &&& objs2.len() == objs.len()
    &&& (forall|i: int|
        0 <= i < objs.len() ==> (#[trigger] objs2[i]).interfaces == objs[i].interfaces
            && objs2[i].aggregates == objs[i].aggregates && objs2[i].outer == objs[i].outer
            && objs2[i].factory_of == objs[i].factory_of)
}

/// Class registrations stay well-formed under any change that keeps every
/// instance's wiring (everything but count and liveness).
pub proof fn lemma_classes_ok_same_wiring(
    classes: Seq<ClassReg>,
    objs: Seq<ComObject>,
    objs2: Seq<ComObject>,
)
    requires
        classes_ok(classes, objs),
        same_wiring(objs, objs2),
    ensures
        classes_ok(classes, objs2),
{
    assert forall|c: int| 0 <= c < classes.len() implies #[trigger] class_ok(
        classes,
        objs2,
        c,
    ) by {
        assert(class_ok(classes, objs, c));
        assert(objs2[classes[c].factory as int].interfaces == objs[classes[c].factory as int].interfaces);
    }
    assert forall|i: int|
        0 <= i < objs2.len() && (#[trigger] objs2[i].factory_of) is Some implies objs2[i].factory_of->Some_0
        < classes.len() by {
        assert(objs2[i].factory_of == objs[i].factory_of);
    }
}

impl Runtime {
    /// Atomically increments the shared reference count of the instance
    /// governing `obj` and returns the resulting count. The returned value is
    /// informational only; callers may rely on non-zero meaning "still
    /// alive", never on its exact value.
    pub fn add_ref(&mut self, obj: usize) -> (count: u64)
        requires
            old(self).wf(),
            obj < old(self).objects@.len(),
            old(self).objects@[resolve(old(self).objects@, obj as int)].alive,
            old(self).objects@[resolve(old(self).objects@, obj as int)].ref_count < u64::MAX,
        ensures
            final(self).wf(),
            final(self).objects@ == add_ref_objs(old(self).objects@, obj as int),
            final(self).classes == old(self).classes,
            final(self).lock_count == old(self).lock_count,
            count == final(self).objects@[resolve(old(self).objects@, obj as int)].ref_count,
            count > 0,
    {
        let t = self.target_of(obj);
        let c = self.objects[t].ref_count + 1;
        self.objects[t].ref_count = c;
        self.objects[t].alive = true;
        proof {
            assert(self.objects@ =~= add_ref_objs(old(self).objects@, obj as int));
            lemma_add_ref_wf(old(self).objects@, obj as int);
            lemma_classes_ok_same_wiring(self.classes@, old(self).objects@, self.objects@);
        }
        c
    }
}

/// AddRef keeps the object table well-formed.
pub proof fn lemma_add_ref_wf(objs: Seq<ComObject>, o: int)
    requires
        objects_ok(objs),
        0 <= o < objs.len(),
        objs[resolve(objs, o)].alive,
        objs[resolve(objs, o)].ref_count < u64::MAX,
    ensures
        objects_ok(add_ref_objs(objs, o)),
        same_wiring(objs, add_ref_objs(objs, o)),
{
    let t = resolve(objs, o);
    let r = add_ref_objs(objs, o);
    assert(obj_ok(objs, o));
    assert(obj_ok(objs, t));
    assert(objs[t].outer is None);
    assert forall|i: int| 0 <= i < r.len() implies #[trigger] obj_ok(r, i) by {
        assert(obj_ok(objs, i));
        assert forall|j: int| 0 <= j < r[i].aggregates@.len() implies #[trigger] agg_ok(
            r,
            i,
            j,
        ) by {
            assert(agg_ok(objs, i, j));
            let n = objs[i].aggregates@[j] as int;
            assert(objs[n].outer is Some);
        }
    }
}

/// An instance after its teardown: count zero, no longer alive, wiring kept
/// as a tombstone.
pub open spec fn kill_obj(o: ComObject) -> ComObject {
    ComObject { ref_count: 0u64, alive: false, ..o }
}

/// The object table after tearing down the first `n` aggregated inners named
/// by `aggs`.
pub open spec fn kill_inners_upto(objs: Seq<ComObject>, aggs: Seq<usize>, n: int) -> Seq<ComObject>
    decreases n,
{
    if n <= 0 {
        objs
    } else {
        let prev = kill_inners_upto(objs, aggs, n - 1);
        prev.update(aggs[n - 1] as int, kill_obj(prev[aggs[n - 1] as int]))
    }
}

/// Whether instance `i` is named among the first `n` entries of `aggs`.
pub open spec fn in_prefix(aggs: Seq<usize>, n: int, i: int) -> bool {
    exists|j: int| 0 <= j < n && aggs[j] as int == i
}

/// Characterizes `kill_inners_upto` pointwise: named instances are dead
/// tombstones of their old selves, all others are untouched.
pub proof fn lemma_kill_upto(objs: Seq<ComObject>, aggs: Seq<usize>, n: int)
    requires
        0 <= n <= aggs.len(),
        forall|j: int| 0 <= j < aggs.len() ==> (#[trigger] aggs[j]) < objs.len(),
        forall|j1: int, j2: int| 0 <= j1 < j2 < aggs.len() ==> aggs[j1] != aggs[j2],
    ensures
        kill_inners_upto(objs, aggs, n).len() == objs.len(),
        forall|i: int|
            0 <= i < objs.len() && !in_prefix(aggs, n, i) ==> kill_inners_upto(objs, aggs, n)[i]
                == objs[i],
        forall|i: int|
            0 <= i < objs.len() && in_prefix(aggs, n, i) ==> kill_inners_upto(objs, aggs, n)[i]
                == kill_obj(objs[i]),
    decreases n,
{
    if n > 0 {
        lemma_kill_upto(objs, aggs, n - 1);
        let prev = kill_inners_upto(objs, aggs, n - 1);
        let hit = aggs[n - 1] as int;
        assert(!in_prefix(aggs, n - 1, hit));
        assert(prev[hit] == objs[hit]);
        assert forall|i: int|
            0 <= i < objs.len() && !in_prefix(aggs, n, i) implies kill_inners_upto(objs, aggs, n)[i]
            == objs[i] by {
            assert(!in_prefix(aggs, n - 1, i));
            assert(i != hit);
        }
        assert forall|i: int|
            0 <= i < objs.len() && in_prefix(aggs, n, i) implies kill_inners_upto(objs, aggs, n)[i]
            == kill_obj(objs[i]) by {
            if i == hit {
            } else {
                let j = choose|j: int| 0 <= j < n && aggs[j] as int == i;
                assert(0 <= j < n - 1);
                assert(in_prefix(aggs, n - 1, i));
            }
        }
    }
}

/// The state after a Release addressed to `o`: the governing instance's count
/// shrinks by one; if that is the transition to zero, the instance and every
/// aggregated inner it owns are torn down, exactly once.
pub open spec fn release_objs(objs: Seq<ComObject>, o: int) -> Seq<ComObject> {
    let t = resolve(objs, o);
    if objs[t].ref_count > 1 {
        objs.update(t, patched(objs[t], (objs[t].ref_count - 1) as u64, true))
    } else {
        let d = objs.update(t, kill_obj(objs[t]));
        kill_inners_upto(d, objs[t].aggregates@, objs[t].aggregates@.len() as int)
    }
}

/// Release keeps the object table well-formed, and touches only the governing
/// instance and — on the zero transition — its aggregated inners.
pub proof fn lemma_release_wf(objs: Seq<ComObject>, o: int)
    requires
        objects_ok(objs),
        objs.len() <= usize::MAX,
        0 <= o < objs.len(),
        objs[resolve(objs, o)].alive,
    ensures
        objects_ok(release_objs(objs, o)),
        same_wiring(objs, release_objs(objs, o)),
        objs[resolve(objs, o)].ref_count > 1 ==> release_objs(objs, o)[resolve(objs, o)]
            == patched(
            objs[resolve(objs, o)],
            (objs[resolve(objs, o)].ref_count - 1) as u64,
            true,
        ) && (forall|i: int|
            0 <= i < objs.len() && i != resolve(objs, o) ==> release_objs(objs, o)[i] == objs[i]),
        objs[resolve(objs, o)].ref_count == 1 ==> release_objs(objs, o)[resolve(objs, o)]
            == kill_obj(objs[resolve(objs, o)]) && (forall|i: int|
            0 <= i < objs.len() && in_prefix(
                objs[resolve(objs, o)].aggregates@,
                objs[resolve(objs, o)].aggregates@.len() as int,
                i,
            ) ==> release_objs(objs, o)[i] == kill_obj(objs[i])) && (forall|i: int|
            0 <= i < objs.len() && i != resolve(objs, o) && !in_prefix(
                objs[resolve(objs, o)].aggregates@,
                objs[resolve(objs, o)].aggregates@.len() as int,
                i,
            ) ==> release_objs(objs, o)[i] == objs[i]),
{
    let t = resolve(objs, o);
    let r = release_objs(objs, o);
    let aggs = objs[t].aggregates@;
    assert(obj_ok(objs, o));
    assert(obj_ok(objs, t));
    assert(objs[t].outer is None);
    assert(objs[t].ref_count >= 1);
    assert forall|j: int| 0 <= j < aggs.len() implies (#[trigger] aggs[j]) < objs.len() by {
        assert(agg_ok(objs, t, j));
    }
    if objs[t].ref_count > 1 {
        assert forall|i: int| 0 <= i < r.len() implies #[trigger] obj_ok(r, i) by {
            assert(obj_ok(objs, i));
            assert forall|j: int| 0 <= j < r[i].aggregates@.len() implies #[trigger] agg_ok(
                r,
                i,
                j,
            ) by {
                assert(agg_ok(objs, i, j));
                let n = objs[i].aggregates@[j] as int;
                assert(objs[n].outer is Some);
            }
        }
    } else {
        let d = objs.update(t, kill_obj(objs[t]));
        lemma_kill_upto(d, aggs, aggs.len() as int);
        assert(!in_prefix(aggs, aggs.len() as int, t)) by {
            if in_prefix(aggs, aggs.len() as int, t) {
                let j = choose|j: int| 0 <= j < aggs.len() && aggs[j] as int == t;
                assert(agg_ok(objs, t, j));
            }
        }
        assert(release_objs(objs, o) == kill_inners_upto(d, aggs, aggs.len() as int));
        assert(kill_inners_upto(d, aggs, aggs.len() as int)[t] == d[t]);
        assert(r[t] == kill_obj(objs[t]));
        assert forall|i: int|
            0 <= i < objs.len() && in_prefix(aggs, aggs.len() as int, i) implies r[i] == kill_obj(
            objs[i],
        ) by {
            assert(i != t);
            assert(d[i] == objs[i]);
        }
        assert forall|i: int|
            0 <= i < objs.len() && i != t && !in_prefix(aggs, aggs.len() as int, i) implies r[i]
            == objs[i] by {
            assert(d[i] == objs[i]);
        }
        assert forall|i: int| 0 <= i < r.len() implies #[trigger] obj_ok(r, i) by {
            assert(obj_ok(objs, i));
            if i == t {
                assert forall|j: int| 0 <= j < r[t].aggregates@.len() implies #[trigger] agg_ok(
                    r,
                    t,
                    j,
                ) by {
                    assert(agg_ok(objs, t, j));
                    let n = aggs[j] as int;
                    assert(in_prefix(aggs, aggs.len() as int, n));
                    assert(r[n] == kill_obj(objs[n]));
                }
            } else if in_prefix(aggs, aggs.len() as int, i) {
                let j = choose|j: int| 0 <= j < aggs.len() && aggs[j] as int == i;
                assert(agg_ok(objs, t, j));
                assert(objs[i].aggregates@.len() == 0);
                assert(objs[i].outer == Some(t as usize));
                assert(r[t].outer is None);
            } else {
                assert forall|j: int| 0 <= j < r[i].aggregates@.len() implies #[trigger] agg_ok(
                    r,
                    i,
                    j,
                ) by {
                    assert(agg_ok(objs, i, j));
                    let n = objs[i].aggregates@[j] as int;
                    assert(objs[n].outer == Some(i as usize));
                    assert(n != t);
                    assert(!in_prefix(aggs, aggs.len() as int, n)) by {
                        if in_prefix(aggs, aggs.len() as int, n) {
                            let jj = choose|jj: int|
                                0 <= jj < aggs.len() && aggs[jj] as int == n;
                            assert(agg_ok(objs, t, jj));
                            assert(objs[n].outer == Some(t as usize));
                        }
                    }
                    assert(r[n] == objs[n]);
                    assert(r[i] == objs[i]);
                }
            }
        }
    }
}

impl Runtime {
    /// Atomically decrements the shared reference count of the instance
    /// governing `obj`. The single call that observes the transition to zero
    /// tears the instance down: every aggregated inner it owns is released,
    /// then the instance itself is dead; that call returns zero. Any other
    /// call returns the remaining non-zero count.
    pub fn release(&mut self, obj: usize) -> (count: u64)
        requires
            old(self).wf(),
            obj < old(self).objects@.len(),
            old(self).objects@[resolve(old(self).objects@, obj as int)].alive,
        ensures
            final(self).wf(),
            final(self).objects@ == release_objs(old(self).objects@, obj as int),
            final(self).classes == old(self).classes,
            final(self).lock_count == old(self).lock_count,
            count == final(self).objects@[resolve(old(self).objects@, obj as int)].ref_count,
            count == old(self).objects@[resolve(old(self).objects@, obj as int)].ref_count - 1,
            (count == 0) == !final(self).objects@[resolve(
                old(self).objects@,
                obj as int,
            )].alive,
    {
        let t = self.target_of(obj);
        let total = self.objects.len();
        proof {
            assert(self.objects@.len() == total);
            assert(obj_ok(self.objects@, t as int));
            lemma_release_wf(old(self).objects@, obj as int);
        }
        let c = self.objects[t].ref_count - 1;
        if c > 0 {
            self.objects[t].ref_count = c;
            proof {
                assert(self.objects@ =~= release_objs(old(self).objects@, obj as int));
                lemma_classes_ok_same_wiring(self.classes@, old(self).objects@, self.objects@);
            }
            c
        } else {
            self.objects[t].ref_count = 0;
            self.objects[t].alive = false;
            let ghost d = old(self).objects@.update(t as int, kill_obj(old(self).objects@[t as int]));
            assert(self.objects@ =~= d);
            let ghost aggs = old(self).objects@[t as int].aggregates@;
            proof {
                assert forall|k: int| 0 <= k < aggs.len() implies (#[trigger] aggs[k]) as int
                    != t as int && aggs[k] < old(self).objects@.len() by {
                    assert(agg_ok(old(self).objects@, t as int, k));
                }
            }
            let n_aggs = self.objects[t].aggregates.len();
            let mut j: usize = 0;
            while j < n_aggs
                invariant
                    j <= n_aggs,
                    old(self).wf(),
                    obj < old(self).objects@.len(),
                    t as int == resolve(old(self).objects@, obj as int),
                    t < old(self).objects@.len(),
                    aggs == old(self).objects@[t as int].aggregates@,
                    d == old(self).objects@.update(
                        t as int,
                        kill_obj(old(self).objects@[t as int]),
                    ),
                    self.objects@.len() == old(self).objects@.len(),
                    self.objects@[t as int].aggregates@ == aggs,
                    n_aggs == aggs.len(),
                    forall|k: int| 0 <= k < aggs.len() ==> (#[trigger] aggs[k]) as int
                        != t as int && aggs[k] < old(self).objects@.len(),
                    forall|k1: int, k2: int| 0 <= k1 < k2 < aggs.len() ==> aggs[k1] != aggs[k2],
                    self.objects@ == kill_inners_upto(d, aggs, j as int),
                    self.classes == old(self).classes,
                    self.lock_count == old(self).lock_count,
                decreases n_aggs - j,
            {
                proof {
                    lemma_kill_upto(d, aggs, j as int);
                    assert(obj_ok(old(self).objects@, t as int));
                    assert(agg_ok(old(self).objects@, t as int, j as int));
                }
                let inner = self.objects[t].aggregates[j];
                self.objects[inner].ref_count = 0;
                self.objects[inner].alive = false;
                proof {
                    assert(self.objects@ =~= kill_inners_upto(d, aggs, j + 1 as int));
                }
                j = j + 1;
            }
            proof {
                assert(self.objects@ == release_objs(old(self).objects@, obj as int));
                lemma_classes_ok_same_wiring(self.classes@, old(self).objects@, self.objects@);
            }
            0
        }
    }
}

/// Which aggregated inner, scanned in declared order, first implements the
/// requested identity, and at which of its slots.
pub open spec fn find_delegate(objs: Seq<ComObject>, aggs: Seq<usize>, iid: Iid) -> Option<
    (int, int),
>
    decreases aggs.len(),
{
    if aggs.len() == 0 {
        None
    } else {
        let n = aggs[0] as int;
        match find_iid(objs[n].interfaces@, iid) {
            Some(slot) => Some((n, slot)),
            None => find_delegate(objs, aggs.skip(1), iid),
        }
    }
}

/// The answer an identity query addressed to `o` must give: the first direct
/// match on the governing instance's own interfaces, in declaration order;
/// failing that, the first aggregated inner that implements the identity, in
/// declared order; failing that, nothing.
pub open spec fn qi_target(objs: Seq<ComObject>, o: int, iid: Iid) -> Option<(int, int)> {
    let t = resolve(objs, o);
    match find_iid(objs[t].interfaces@, iid) {
        Some(slot) => Some((t, slot)),
        None => find_delegate(objs, objs[t].aggregates@, iid),
    }
}

impl Runtime {
    /// Compares the requested identity against every interface the instance
    /// governing `obj` exposes — its own in declaration order, then each
    /// aggregated inner's in declared order. On the first match it increments
    /// the shared reference count, writes the matching interface pointer to
    /// the output slot and succeeds; otherwise it leaves everything
    /// unchanged, writes a null pointer and fails with "no such interface".
    pub fn query_interface(&mut self, obj: usize, iid: &Iid, out: &mut ComOutPtr) -> (hr: i32)
        requires
            old(self).wf(),
            obj < old(self).objects@.len(),
            old(self).objects@[resolve(old(self).objects@, obj as int)].alive,
            old(self).objects@[resolve(old(self).objects@, obj as int)].ref_count < u64::MAX,
        ensures
            final(self).wf(),
            final(self).classes == old(self).classes,
            final(self).lock_count == old(self).lock_count,
            match qi_target(old(self).objects@, obj as int, *iid) {
                Some(pt) => hr == S_OK && final(out).value == Some(
                    InterfacePtr { object: pt.0 as usize, slot: pt.1 as usize },
                ) && final(self).objects@ == add_ref_objs(old(self).objects@, obj as int),
                None => hr == E_NOINTERFACE && final(out).value is None && final(self).objects@
                    == old(self).objects@,
            },
    {
        let t = self.target_of(obj);
        let direct = interface_slot(&self.objects[t].interfaces, iid);
        match direct {
            Some(slot) => {
                let c = self.objects[t].ref_count + 1;
                self.objects[t].ref_count = c;
                self.objects[t].alive = true;
                out.value = Some(InterfacePtr { object: t, slot });
                proof {
                    assert(self.objects@ =~= add_ref_objs(old(self).objects@, obj as int));
                    lemma_add_ref_wf(old(self).objects@, obj as int);
                    lemma_classes_ok_same_wiring(self.classes@, old(self).objects@, self.objects@);
                }
                S_OK
            },
            None => {
                let ghost aggs = self.objects@[t as int].aggregates@;
                proof {
                    assert(aggs.skip(0) =~= aggs);
                }
                let n_aggs = self.objects[t].aggregates.len();
                let mut j: usize = 0;
                while j < n_aggs
                    invariant
                        *self == *old(self),
                        self.wf(),
                        j <= n_aggs,
                        obj < self.objects@.len(),
                        t as int == resolve(self.objects@, obj as int),
                        t < self.objects@.len(),
                        self.objects@[t as int].alive,
                        self.objects@[t as int].ref_count < u64::MAX,
                        aggs == self.objects@[t as int].aggregates@,
                        n_aggs == aggs.len(),
                        find_iid(self.objects@[t as int].interfaces@, *iid) is None,
                        find_delegate(self.objects@, aggs, *iid) == find_delegate(
                            self.objects@,
                            aggs.skip(j as int),
                            *iid,
                        ),
                    decreases n_aggs - j,
                {
                    proof {
                        assert(obj_ok(self.objects@, t as int));
                        assert(agg_ok(self.objects@, t as int, j as int));
                        assert(aggs.skip(j as int)[0] == aggs[j as int]);
                    }
                    let inner = self.objects[t].aggregates[j];
                    let hit = interface_slot(&self.objects[inner].interfaces, iid);
                    match hit {
                        Some(slot) => {
                            proof {
                                assert(find_delegate(self.objects@, aggs.skip(j as int), *iid)
                                    == Some((inner as int, slot as int)));
                            }
                            let c = self.objects[t].ref_count + 1;
                            self.objects[t].ref_count = c;
                            self.objects[t].alive = true;
                            out.value = Some(InterfacePtr { object: inner, slot });
                            proof {
                                assert(self.objects@ =~= add_ref_objs(
                                    old(self).objects@,
                                    obj as int,
                                ));
                                lemma_add_ref_wf(old(self).objects@, obj as int);
                                lemma_classes_ok_same_wiring(
                                    self.classes@,
                                    old(self).objects@,
                                    self.objects@,
                                );
                            }
                            return S_OK;
                        },
                        None => {
                            proof {
                                assert(aggs.skip(j as int).skip(1) =~= aggs.skip(j + 1 as int));
                                assert(find_delegate(self.objects@, aggs.skip(j as int), *iid)
                                    == find_delegate(self.objects@, aggs.skip(j + 1 as int), *iid));
                            }
                            j = j + 1;
                        },
                    }
                }
                proof {
                    assert(aggs.skip(n_aggs as int) =~= Seq::<usize>::empty());
                    assert(find_delegate(self.objects@, aggs, *iid) is None);
                }
                out.value = None;
                E_NOINTERFACE
            },
        }
    }
}

/// The registered class identities, registration order.
pub open spec fn clsids_of(classes: Seq<ClassReg>) -> Seq<Iid> {
    classes.map_values(|k: ClassReg| k.clsid)
}

/// Which registration, if any, carries the class identity.
pub open spec fn class_lookup(classes: Seq<ClassReg>, clsid: Iid) -> Option<int> {
    find_iid(clsids_of(classes), clsid)
}

/// A brand-new component instance: one counted reference, no inners yet.
pub open spec fn fresh_instance(o: ComObject, interfaces: Seq<Iid>, outer: Option<usize>) -> bool {
    &&& o.interfaces@ == interfaces
    &&& o.aggregates@.len() == 0
    &&& o.outer == outer
    &&& o.ref_count == 1
    &&& o.alive
    &&& o.factory_of is None
}

/// The first `n` instances are untouched between two object tables.
pub open spec fn unchanged_prefix(pre: Seq<ComObject>, post: Seq<ComObject>, n: int) -> bool {
    forall|i: int| 0 <= i < n ==> post[i] == pre[i]
}

/// Copies an identity list.
fn copy_iids(src: &Vec<Iid>) -> (r: Vec<Iid>)
    ensures
        r@ == src@,
{
    let mut out: Vec<Iid> = Vec::new();
    let n = src.len();
    let mut i: usize = 0;
    while i < n
        invariant
            i <= n,
            n == src@.len(),
            out@ =~= src@.take(i as int),
        decreases n - i,
    {
        out.push(src[i]);
        proof {
            assert(out@ =~= src@.take(i + 1 as int));
        }
        i = i + 1;
    }
    proof {
        assert(out@ =~= src@);
    }
    out
}

/// Appending instances never disturbs well-formedness of what is already
/// there, provided each appended instance is well-formed in the longer table.
pub proof fn lemma_push_objects_ok(pre: Seq<ComObject>, post: Seq<ComObject>)
    requires
        objects_ok(pre),
        pre.len() <= post.len(),
        forall|i: int| 0 <= i < pre.len() ==> post[i] == pre[i],
        forall|i: int| pre.len() <= i < post.len() ==> #[trigger] obj_ok(post, i),
    ensures
        objects_ok(post),
{
    assert forall|i: int| 0 <= i < post.len() implies #[trigger] obj_ok(post, i) by {
        if i < pre.len() {
            assert(obj_ok(pre, i));
            assert forall|j: int| 0 <= j < post[i].aggregates@.len() implies #[trigger] agg_ok(
                post,
                i,
                j,
            ) by {
                assert(agg_ok(pre, i, j));
            }
        }
    }
}

impl Runtime {
    /// Finds the registration carrying a class identity, if any.
    fn find_class(&self, clsid: &Iid) -> (r: Option<usize>)
        ensures
            match r {
                Some(c) => class_lookup(self.classes@, *clsid) == Some(c as int) && (c as int)
                    < self.classes@.len() && self.classes@[c as int].clsid == *clsid,
                None => class_lookup(self.classes@, *clsid) is None,
            },
    {
        let n = self.classes.len();
        let mut i: usize = 0;
        while i < n
            invariant
                i <= n,
                n == self.classes@.len(),
                forall|m: int| 0 <= m < i ==> clsids_of(self.classes@)[m] != *clsid,
            decreases n - i,
        {
            if self.classes[i].clsid == *clsid {
                proof {
                    assert(clsids_of(self.classes@)[i as int] == *clsid);
                    lemma_find_iid_at(clsids_of(self.classes@), *clsid, i as int);
                }
                return Some(i);
            }
            proof {
                assert(clsids_of(self.classes@)[i as int] != *clsid);
            }
            i = i + 1;
        }
        proof {
            lemma_find_iid_none(clsids_of(self.classes@), *clsid);
        }
        None
    }

    /// Registers one generated component type: validates the generated
    /// declaration (at least one interface, a fresh class identity, every
    /// aggregation target already registered), then creates the class's
    /// factory object holding the registry's own counted reference, and
    /// records the registration. Read-only afterwards, for the process
    /// lifetime.
    pub fn register_class(&mut self, def: &CoClassDef) -> (r: Result<usize, i32>)
        requires
            old(self).wf(),
        ensures
            final(self).wf(),
            final(self).lock_count == old(self).lock_count,
            match r {
                Ok(c) => {
                    &&& def.interfaces@.len() > 0
                    &&& class_lookup(old(self).classes@, def.clsid) is None
                    &&& (forall|k: int|
                        0 <= k < def.agg_targets@.len() ==> class_lookup(
                            old(self).classes@,
                            def.agg_targets@[k],
                        ) is Some)
                    &&& c as int == old(self).classes@.len()
                    &&& final(self).classes@.len() == old(self).classes@.len() + 1
                    &&& (forall|i: int|
                        0 <= i < old(self).classes@.len() ==> final(self).classes@[i] == old(
                            self,
                        ).classes@[i])
                    &&& final(self).classes@[c as int].clsid == def.clsid
                    &&& final(self).classes@[c as int].interfaces@ == def.interfaces@
                    &&& final(self).classes@[c as int].factory as int == old(
                        self,
                    ).objects@.len()
                    &&& final(self).objects@.len() == old(self).objects@.len() + 1
                    &&& unchanged_prefix(
                        old(self).objects@,
                        final(self).objects@,
                        old(self).objects@.len() as int,
                    )
                    &&& ({
                        let f = final(self).objects@[old(self).objects@.len() as int];
                        f.interfaces@ == seq![iunknown_iid(), iclassfactory_iid()]
                            && f.aggregates@.len() == 0 && f.outer is None && f.ref_count == 1
                            && f.alive && f.factory_of == Some(c)
                    })
                },
                Err(e) => {
                    &&& *final(self) == *old(self)
                    &&& !(def.interfaces@.len() > 0 && class_lookup(
                        old(self).classes@,
                        def.clsid,
                    ) is None && (forall|k: int|
                        0 <= k < def.agg_targets@.len() ==> class_lookup(
                            old(self).classes@,
                            def.agg_targets@[k],
                        ) is Some))
                    &&& (e == E_INVALIDARG || e == CLASS_E_CLASSNOTAVAILABLE)
                    &&& (e == E_INVALIDARG ==> def.interfaces@.len() == 0 || class_lookup(
                        old(self).classes@,
                        def.clsid,
                    ) is Some)
                    &&& (e == CLASS_E_CLASSNOTAVAILABLE ==> exists|k: int|
                        0 <= k < def.agg_targets@.len() && class_lookup(
                            old(self).classes@,
                            def.agg_targets@[k],
                        ) is None)
                },
            },
    {
        if def.interfaces.len() == 0 {
            return Err(E_INVALIDARG);
        }
        match self.find_class(&def.clsid) {
            Some(_) => {
                return Err(E_INVALIDARG);
            },
            None => {},
        }
        let n_targets = def.agg_targets.len();
        let mut k: usize = 0;
        while k < n_targets
            invariant
                k <= n_targets,
                n_targets == def.agg_targets@.len(),
                *self == *old(self),
                self.wf(),
                forall|m: int| 0 <= m < k ==> class_lookup(
                    self.classes@,
                    def.agg_targets@[m],
                ) is Some,
            decreases n_targets - k,
        {
            match self.find_class(&def.agg_targets[k]) {
                Some(_) => {},
                None => {
                    return Err(CLASS_E_CLASSNOTAVAILABLE);
                },
            }
            k = k + 1;
        }
        let c = self.classes.len();
        let fid = self.objects.len();
        let mut factory_ifaces: Vec<Iid> = Vec::new();
        factory_ifaces.push(iid_iunknown());
        factory_ifaces.push(iid_iclassfactory());
        proof {
            assert(factory_ifaces@ =~= seq![iunknown_iid(), iclassfactory_iid()]);
        }
        let factory_obj = ComObject {
            interfaces: factory_ifaces,
            aggregates: Vec::new(),
            outer: None,
            ref_count: 1,
            alive: true,
            factory_of: Some(c),
        };
        self.objects.push(factory_obj);
        let reg = ClassReg {
            clsid: def.clsid,
            interfaces: copy_iids(&def.interfaces),
            factory: fid,
        };
        self.classes.push(reg);
        proof {
            let pre = old(self).objects@;
            let post = self.objects@;
            assert(post[fid as int].aggregates@.len() == 0);
            assert(obj_ok(post, fid as int));
            lemma_push_objects_ok(pre, post);
            assert forall|cc: int| 0 <= cc < self.classes@.len() implies #[trigger] class_ok(
                self.classes@,
                post,
                cc,
            ) by {
                if cc < old(self).classes@.len() {
                    assert(class_ok(old(self).classes@, pre, cc));
                    assert(self.classes@[cc] == old(self).classes@[cc]);
                } else {
                    assert(cc == c as int);
                }
            }
        }
        Ok(c)
    }

    /// The generated allocation function for one registered class: creates
    /// the augmented instance with every dispatch-table-pointer slot wired,
    /// the reference count at one, and no inners, and returns its identity.
    pub fn allocate(&mut self, class: usize) -> (id: usize)
        requires
            old(self).wf(),
            (class as int) < old(self).classes@.len(),
        ensures
            final(self).wf(),
            final(self).classes == old(self).classes,
            final(self).lock_count == old(self).lock_count,
            id as int == old(self).objects@.len(),
            final(self).objects@.len() == old(self).objects@.len() + 1,
            unchanged_prefix(
                old(self).objects@,
                final(self).objects@,
                old(self).objects@.len() as int,
            ),
            fresh_instance(
                final(self).objects@[id as int],
                old(self).classes@[class as int].interfaces@,
                None,
            ),
    {
        proof {
            assert(class_ok(self.classes@, self.objects@, class as int));
        }
        let id = self.objects.len();
        let obj = ComObject {
            interfaces: copy_iids(&self.classes[class].interfaces),
            aggregates: Vec::new(),
            outer: None,
            ref_count: 1,
            alive: true,
            factory_of: None,
        };
        self.objects.push(obj);
        proof {
            assert(self.objects@[id as int].aggregates@.len() == 0);
            assert(obj_ok(self.objects@, id as int));
            lemma_push_objects_ok(old(self).objects@, self.objects@);
            lemma_classes_ok_push_object(self.classes@, old(self).objects@, self.objects@);
        }
        id
    }

    /// Increments or decrements the process-wide lock counter a hosting
    /// module uses to stay loaded; no individual instance's count changes.
    pub fn lock_server(&mut self, lock: bool) -> (hr: i32)
        requires
            old(self).wf(),
            lock ==> old(self).lock_count < u64::MAX,
            !lock ==> old(self).lock_count > 0,
        ensures
            final(self).wf(),
            final(self).objects == old(self).objects,
            final(self).classes == old(self).classes,
            final(self).lock_count == if lock {
                old(self).lock_count + 1
            } else {
                old(self).lock_count - 1
            },
            hr == S_OK,
    {
        if lock {
            self.lock_count = self.lock_count + 1;
        } else {
            self.lock_count = self.lock_count - 1;
        }
        S_OK
    }

    /// Whether the hosting module may be unloaded: true exactly when no
    /// component instance is outstanding (factories, held by the registry for
    /// the process lifetime, do not count) and the lock counter is zero.
    pub fn can_unload_now(&self) -> (hr: i32)
        requires
            self.wf(),
        ensures
            hr == S_OK || hr == S_FALSE,
            (hr == S_OK) == spec_can_unload(*self),
    {
        if self.lock_count != 0 {
            return S_FALSE;
        }
        let n = self.objects.len();
        let mut i: usize = 0;
        while i < n
            invariant
                i <= n,
                n == self.objects@.len(),
                forall|m: int| 0 <= m < i ==> (self.objects@[m].alive
                    ==> (#[trigger] self.objects@[m].factory_of) is Some),
            decreases n - i,
        {
            if self.objects[i].alive && self.objects[i].factory_of.is_none() {
                return S_FALSE;
            }
            i = i + 1;
        }
        S_OK
    }
}

/// No outstanding component instance in the table: nothing but registry-held
/// factories is alive.
pub open spec fn no_instance_outstanding(objs: Seq<ComObject>) -> bool {
    forall|i: int| 0 <= i < objs.len() ==> (objs[i].alive
        ==> (#[trigger] objs[i].factory_of) is Some)
}

/// The module may be unloaded exactly when nothing but registry-held
/// factories is alive and nobody holds the server lock.
pub open spec fn spec_can_unload(r: Runtime) -> bool {
    &&& r.lock_count == 0
    &&& no_instance_outstanding(r.objects@)
}

impl Runtime {
    /// Duplicates an owning pointer: the copy carries a counted reference of
    /// its own, taken on the instance governing the pointer.
    pub fn clone_com_ptr(&mut self, p: &ComPtr) -> (r: ComPtr)
        requires
            old(self).wf(),
            p.raw().object < old(self).objects@.len(),
            old(self).objects@[resolve(old(self).objects@, p.raw().object as int)].alive,
            old(self).objects@[resolve(old(self).objects@, p.raw().object as int)].ref_count
                < u64::MAX,
        ensures
            final(self).wf(),
            final(self).objects@ == add_ref_objs(old(self).objects@, p.raw().object as int),
            final(self).classes == old(self).classes,
            final(self).lock_count == old(self).lock_count,
            r.raw() == p.raw(),
    {
        let raw = p.as_raw();
        let _ = self.add_ref(raw.object);
        ComPtr::from_raw(raw)
    }

    /// Gives an owning pointer's counted reference up, exactly once, by
    /// consuming the pointer.
    pub fn release_com_ptr(&mut self, p: ComPtr) -> (count: u64)
        requires
            old(self).wf(),
            p.raw().object < old(self).objects@.len(),
            old(self).objects@[resolve(old(self).objects@, p.raw().object as int)].alive,
        ensures
            final(self).wf(),
            final(self).objects@ == release_objs(old(self).objects@, p.raw().object as int),
            final(self).classes == old(self).classes,
            final(self).lock_count == old(self).lock_count,
            count == old(self).objects@[resolve(
                old(self).objects@,
                p.raw().object as int,
            )].ref_count - 1,
    {
        let raw = p.into_raw();
        self.release(raw.object)
    }
}

/// Reviving a dead, inner-less, top-level instance with a single counted
/// reference keeps the object table well-formed.
pub proof fn lemma_revive_wf(objs: Seq<ComObject>, f: int)
    requires
        objects_ok(objs),
        0 <= f < objs.len(),
        objs[f].aggregates@.len() == 0,
        objs[f].outer is None,
    ensures
        objects_ok(objs.update(f, patched(objs[f], 1u64, true))),
        same_wiring(objs, objs.update(f, patched(objs[f], 1u64, true))),
{
    let r = objs.update(f, patched(objs[f], 1u64, true));
    assert forall|i: int| 0 <= i < r.len() implies #[trigger] obj_ok(r, i) by {
        assert(obj_ok(objs, i));
        assert forall|j: int| 0 <= j < r[i].aggregates@.len() implies #[trigger] agg_ok(
            r,
            i,
            j,
        ) by {
            assert(agg_ok(objs, i, j));
            let n = objs[i].aggregates@[j] as int;
            assert(objs[n].outer is Some);
        }
    }
}

impl Runtime {
    /// The standard creation operation of a class factory. Without an
    /// aggregating outer it allocates a fresh instance, asks that instance
    /// itself for the requested identity, and hands the caller exactly one
    /// counted reference (the allocator's transient reference is released);
    /// if the class does not implement the identity, the stillborn instance
    /// is torn down and the call fails with "no such interface". With an
    /// aggregating outer, the requested identity must be exactly the
    /// universal lifetime/query interface — anything else is an invalid
    /// argument — and on success the fresh inner is wired under the outer,
    /// which owns it for the rest of its own lifetime.
    pub fn create_instance(
        &mut self,
        factory: usize,
        outer: Option<usize>,
        iid: &Iid,
        out: &mut ComOutPtr,
    ) -> (hr: i32)
        requires
            old(self).wf(),
            factory < old(self).objects@.len(),
            old(self).objects@[factory as int].alive,
            old(self).objects@[factory as int].factory_of is Some,
            outer matches Some(o) ==> o < old(self).objects@.len() && old(
                self,
            ).objects@[o as int].alive && old(self).objects@[o as int].outer is None && old(
                self,
            ).objects@[o as int].factory_of is None,
        ensures
            final(self).wf(),
            final(self).classes == old(self).classes,
            final(self).lock_count == old(self).lock_count,
            ({
                let c = old(self).objects@[factory as int].factory_of->Some_0 as int;
                let ifaces = old(self).classes@[c].interfaces@;
                let id = old(self).objects@.len() as int;
                match outer {
                    Some(o) => if *iid != iunknown_iid() {
                        hr == E_INVALIDARG && final(out).value is None
                            && *final(self) == *old(self)
                    } else {
                        match find_iid(ifaces, iunknown_iid()) {
                            Some(slot) => {
                                &&& hr == S_OK
                                &&& final(out).value == Some(
                                    InterfacePtr { object: id as usize, slot: slot as usize },
                                )
                                &&& final(self).objects@.len() == id + 1
                                &&& (forall|i: int|
                                    0 <= i < id && i != o as int ==> final(self).objects@[i]
                                        == old(self).objects@[i])
                                &&& fresh_instance(final(self).objects@[id], ifaces, Some(o))
                                &&& final(self).objects@[o as int].aggregates@ == old(
                                    self,
                                ).objects@[o as int].aggregates@.push(id as usize)
                                &&& same_but_aggregates(
                                    old(self).objects@[o as int],
                                    final(self).objects@[o as int],
                                )
                            },
                            None => hr == E_NOINTERFACE && final(out).value is None
                                && *final(self) == *old(self),
                        }
                    },
                    None => match find_iid(ifaces, *iid) {
                        Some(slot) => {
                            &&& hr == S_OK
                            &&& final(out).value == Some(
                                InterfacePtr { object: id as usize, slot: slot as usize },
                            )
                            &&& final(self).objects@.len() == id + 1
                            &&& unchanged_prefix(old(self).objects@, final(self).objects@, id)
                            &&& fresh_instance(final(self).objects@[id], ifaces, None)
                        },
                        None => {
                            &&& hr == E_NOINTERFACE
                            &&& final(out).value is None
                            &&& final(self).objects@.len() == id + 1
                            &&& unchanged_prefix(old(self).objects@, final(self).objects@, id)
                            &&& !final(self).objects@[id].alive
                            &&& final(self).objects@[id].ref_count == 0
                        },
                    },
                }
            }),
    {
        proof {
            assert(obj_ok(self.objects@, factory as int));
        }
        let c_opt = self.objects[factory].factory_of;
        let c = match c_opt {
            Some(cc) => cc,
            None => 0,
        };
        proof {
            assert(c as int == old(self).objects@[factory as int].factory_of->Some_0 as int);
            assert(class_ok(self.classes@, self.objects@, c as int));
        }
        match outer {
            Some(o) => {
                let iu = iid_iunknown();
                if !(*iid == iu) {
                    out.value = None;
                    return E_INVALIDARG;
                }
                let slot_opt = interface_slot(&self.classes[c].interfaces, &iu);
                match slot_opt {
                    None => {
                        out.value = None;
                        E_NOINTERFACE
                    },
                    Some(slot) => {
                        let id = self.objects.len();
                        let obj = ComObject {
                            interfaces: copy_iids(&self.classes[c].interfaces),
                            aggregates: Vec::new(),
                            outer: Some(o),
                            ref_count: 1,
                            alive: true,
                            factory_of: None,
                        };
                        self.objects.push(obj);
                        self.objects[o].aggregates.push(id);
                        out.value = Some(InterfacePtr { object: id, slot });
                        proof {
                            lemma_aggregate_wire_wf(
                                old(self).objects@,
                                self.objects@,
                                o as int,
                                id as int,
                            );
                            lemma_classes_ok_wire(
                                self.classes@,
                                old(self).objects@,
                                self.objects@,
                                o as int,
                                id as int,
                            );
                        }
                        S_OK
                    },
                }
            },
            None => {
                let id = self.allocate(c);
                let ghost s1 = self.objects@;
                proof {
                    assert(resolve(s1, id as int) == id as int);
                    assert(s1[id as int].aggregates@.len() == 0);
                    assert(find_delegate(s1, s1[id as int].aggregates@, *iid) is None);
                }
                let hr = self.query_interface(id, iid, out);
                let ghost s2 = self.objects@;
                let _ = self.release(id);
                proof {
                    let ifaces = old(self).classes@[c as int].interfaces@;
                    match find_iid(ifaces, *iid) {
                        Some(slot) => {
                            assert(s2 == add_ref_objs(s1, id as int));
                            assert(s2[id as int].ref_count == 2);
                            assert(self.objects@ == release_objs(s2, id as int));
                            assert(self.objects@[id as int].interfaces@ == ifaces);
                        },
                        None => {
                            assert(s2 == s1);
                            assert(self.objects@ == release_objs(s1, id as int));
                            assert(s1[id as int].ref_count == 1);
                        },
                    }
                }
                hr
            },
        }
    }
}

/// Two instances that differ at most in their owned-inner list.
pub open spec fn same_but_aggregates(pre: ComObject, post: ComObject) -> bool {
    &&& post.interfaces == pre.interfaces
    &&& post.outer == pre.outer
    &&& post.ref_count == pre.ref_count
    &&& post.alive == pre.alive
    &&& post.factory_of == pre.factory_of
}

/// Wiring one fresh aggregated inner under a live, top-level, non-factory
/// outer keeps the object table well-formed.
pub proof fn lemma_aggregate_wire_wf(pre: Seq<ComObject>, post: Seq<ComObject>, o: int, id: int)
    requires
        objects_ok(pre),
        pre.len() <= usize::MAX,
        0 <= o < pre.len(),
        pre[o].alive,
        pre[o].outer is None,
        pre[o].factory_of is None,
        id == pre.len(),
        post.len() == pre.len() + 1,
        forall|i: int| 0 <= i < pre.len() && i != o ==> post[i] == pre[i],
        post[o].aggregates@ == pre[o].aggregates@.push(id as usize),
        same_but_aggregates(pre[o], post[o]),
        post[id].aggregates@.len() == 0,
        post[id].outer == Some(o as usize),
        post[id].ref_count == 1,
        post[id].alive,
        post[id].factory_of is None,
    ensures
        objects_ok(post),
{
    assert forall|i: int| 0 <= i < post.len() implies #[trigger] obj_ok(post, i) by {
        if i == id {
            assert(post[o].outer is None);
        } else {
            assert(obj_ok(pre, i));
            if i == o {
                assert forall|j: int| 0 <= j < post[o].aggregates@.len() implies #[trigger] agg_ok(
                    post,
                    o,
                    j,
                ) by {
                    if j < pre[o].aggregates@.len() {
                        assert(agg_ok(pre, o, j));
                        let n = pre[o].aggregates@[j] as int;
                        assert(post[o].aggregates@[j] == pre[o].aggregates@[j]);
                        assert(objects_ok(pre));
                        assert(0 <= n < pre.len());
                        assert(n != o);
                        assert(pre[n].outer is Some);
                        assert(n != id);
                        assert(post[n] == pre[n]);
                    } else {
                        assert(post[o].aggregates@[j] == id as usize);
                    }
                }
                assert forall|j1: int, j2: int|
                    0 <= j1 < j2 < post[o].aggregates@.len() implies post[o].aggregates@[j1]
                    != post[o].aggregates@[j2] by {
                    if j2 < pre[o].aggregates@.len() {
                    } else {
                        assert(agg_ok(pre, o, j1));
                        assert((pre[o].aggregates@[j1] as int) < pre.len());
                    }
                }
            } else {
                assert forall|j: int| 0 <= j < post[i].aggregates@.len() implies #[trigger] agg_ok(
                    post,
                    i,
                    j,
                ) by {
                    assert(agg_ok(pre, i, j));
                    let n = pre[i].aggregates@[j] as int;
                    assert(pre[n].outer == Some(i as usize));
                    assert(n != id);
                    assert(n != o) by {
                        if n == o {
                            assert(pre[o].outer is None);
                        }
                    }
                    assert(post[n] == pre[n]);
                    assert(post[i] == pre[i]);
                }
            }
        }
    }
}

/// Wiring one fresh aggregated inner keeps every class registration
/// well-formed: factories are never the outer and never the inner.
pub proof fn lemma_classes_ok_wire(
    classes: Seq<ClassReg>,
    pre: Seq<ComObject>,
    post: Seq<ComObject>,
    o: int,
    id: int,
)
    requires
        classes_ok(classes, pre),
        0 <= o < pre.len(),
        pre[o].factory_of is None,
        id == pre.len(),
        post.len() == pre.len() + 1,
        forall|i: int| 0 <= i < pre.len() && i != o ==> post[i] == pre[i],
        same_but_aggregates(pre[o], post[o]),
        post[id].factory_of is None,
    ensures
        classes_ok(classes, post),
{
    assert forall|c: int| 0 <= c < classes.len() implies #[trigger] class_ok(
        classes,
        post,
        c,
    ) by {
        assert(class_ok(classes, pre, c));
        let f = classes[c].factory as int;
        assert(pre[f].factory_of == Some(c as usize));
        assert(f != o);
        assert(post[f] == pre[f]);
    }
    assert forall|i: int|
        0 <= i < post.len() && (#[trigger] post[i].factory_of) is Some implies post[i].factory_of->Some_0
        < classes.len() by {
        if i < pre.len() {
            assert(post[i].factory_of == pre[i].factory_of);
        }
    }
}

impl Runtime {
    /// The first in-process entry point a host loader calls: looks the class
    /// registration up and returns a counted factory reference through the
    /// factory's own identity query; an unregistered class identity fails
    /// with "class not available". The registry re-establishes its own
    /// factory reference first if a caller had released it away.
    pub fn get_class_object(&mut self, clsid: &Iid, iid: &Iid, out: &mut ComOutPtr) -> (hr: i32)
        requires
            old(self).wf(),
            class_lookup(old(self).classes@, *clsid) matches Some(c) ==> old(self).objects@[old(
                self,
            ).classes@[c].factory as int].ref_count < u64::MAX,
        ensures
            final(self).wf(),
            final(self).classes == old(self).classes,
            final(self).lock_count == old(self).lock_count,
            match class_lookup(old(self).classes@, *clsid) {
                None => hr == CLASS_E_CLASSNOTAVAILABLE && final(out).value is None
                    && *final(self) == *old(self),
                Some(c) => ({
                    let fid = old(self).classes@[c].factory as int;
                    let revived = if old(self).objects@[fid].alive {
                        old(self).objects@
                    } else {
                        old(self).objects@.update(fid, patched(old(self).objects@[fid], 1u64, true))
                    };
                    &&& final(self).objects@.len() == old(self).objects@.len()
                    &&& (forall|i: int|
                        0 <= i < old(self).objects@.len() && i != fid ==> final(self).objects@[i]
                            == old(self).objects@[i])
                    &&& ((*iid == iunknown_iid() || *iid == iclassfactory_iid()) ==> hr == S_OK
                        && (final(out).value matches Some(p) && p.object as int == fid)
                        && final(self).objects@ == add_ref_objs(revived, fid))
                    &&& ((*iid != iunknown_iid() && *iid != iclassfactory_iid()) ==> hr
                        == E_NOINTERFACE && final(out).value is None && final(self).objects@
                        == revived)
                }),
            },
    {
        match self.find_class(clsid) {
            None => {
                out.value = None;
                CLASS_E_CLASSNOTAVAILABLE
            },
            Some(c) => {
                proof {
                    assert(class_ok(self.classes@, self.objects@, c as int));
                }
                let fid = self.classes[c].factory;
                if !self.objects[fid].alive {
                    self.objects[fid].ref_count = 1;
                    self.objects[fid].alive = true;
                    proof {
                        assert(self.objects@ =~= old(self).objects@.update(
                            fid as int,
                            patched(old(self).objects@[fid as int], 1u64, true),
                        ));
                        lemma_revive_wf(old(self).objects@, fid as int);
                        lemma_classes_ok_same_wiring(
                            self.classes@,
                            old(self).objects@,
                            self.objects@,
                        );
                    }
                }
                let ghost revived = self.objects@;
                proof {
                    let fseq = seq![iunknown_iid(), iclassfactory_iid()];
                    assert(revived[fid as int].interfaces@ == fseq);
                    assert(resolve(revived, fid as int) == fid as int);
                    assert(revived[fid as int].aggregates@.len() == 0);
                    assert(find_delegate(revived, revived[fid as int].aggregates@, *iid) is None);
                    if *iid == iunknown_iid() {
                        lemma_find_iid_at(fseq, *iid, 0);
                    } else if *iid == iclassfactory_iid() {
                        lemma_find_iid_at(fseq, *iid, 1);
                    } else {
                        lemma_find_iid_none(fseq, *iid);
                    }
                }
                let hr = self.query_interface(fid, iid, out);
                hr
            },
        }
    }
}

/// Appending instances keeps every class registration well-formed.
pub proof fn lemma_classes_ok_push_object(
    classes: Seq<ClassReg>,
    pre: Seq<ComObject>,
    post: Seq<ComObject>,
)
    requires
        classes_ok(classes, pre),
        pre.len() <= post.len(),
        forall|i: int| 0 <= i < pre.len() ==> post[i] == pre[i],
        forall|i: int|
            pre.len() <= i < post.len() ==> ((#[trigger] post[i].factory_of) is Some
                ==> post[i].factory_of->Some_0 < classes.len()),
    ensures
        classes_ok(classes, post),
{
    assert forall|c: int| 0 <= c < classes.len() implies #[trigger] class_ok(
        classes,
        post,
        c,
    ) by {
        assert(class_ok(classes, pre, c));
    }
}

} // verus!
