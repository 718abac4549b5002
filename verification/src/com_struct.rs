use vstd::prelude::*;

use crate::co_class::{distinct_iids, iids_of, ClassDecl, GenError};
use crate::iid::Iid;

verus! {

/// One slot of the augmented record layout. The order of slots is fixed at
/// generation time; nothing is added conditionally at run time.
#[derive(Clone, Copy, PartialEq, Eq, Structural, Debug)]
pub enum Slot {
    /// A dispatch-table pointer for one directly implemented interface.
    VTablePtr(Iid),
    /// The single shared reference-count field.
    RefCount,
    /// An ownership slot for one aggregated inner component, named by the
    /// user field that declared it.
    AggregateSlot(u64),
    /// One of the user record's own fields.
    UserField(u64),
}

/// The dispatch-table-pointer slots, one per directly implemented interface,
/// in declaration order.
pub open spec fn vtable_slots(d: ClassDecl) -> Seq<Slot> {
    Seq::new(d.interfaces@.len(), |i: int| Slot::VTablePtr(d.interfaces@[i].iid))
}

/// The ownership slots, one per aggregation entry, in declaration order.
pub open spec fn aggregate_slots(d: ClassDecl) -> Seq<Slot> {
    Seq::new(d.aggregates@.len(), |i: int| Slot::AggregateSlot(d.aggregates@[i].field))
}

/// The user record's own fields, in declaration order.
pub open spec fn user_field_slots(d: ClassDecl) -> Seq<Slot> {
    Seq::new(d.user_fields@.len(), |i: int| Slot::UserField(d.user_fields@[i]))
}

/// The augmented layout: dispatch-table pointers first (declaration order),
/// then the reference count, then the aggregation ownership slots, then the
/// user fields.
pub open spec fn spec_layout(d: ClassDecl) -> Seq<Slot> {
    vtable_slots(d) + seq![Slot::RefCount] + aggregate_slots(d) + user_field_slots(d)
}

/// Reports whether two declared interfaces collide on identity.
fn has_duplicate_iid(d: &ClassDecl) -> (r: bool)
    ensures
        r == !distinct_iids(iids_of(d.interfaces@)),
{
    let n = d.interfaces.len();
    let mut i: usize = 0;
    while i < n
        invariant
            i <= n,
            n == d.interfaces@.len(),
            forall|a: int, b: int| 0 <= a < b < n && a < i ==> iids_of(d.interfaces@)[a]
                != iids_of(d.interfaces@)[b],
        decreases n - i,
    {
        let mut j: usize = i + 1;
        while j < n
            invariant
                i < j <= n,
                n == d.interfaces@.len(),
                forall|b: int| i < b < j ==> iids_of(d.interfaces@)[i as int] != iids_of(
                    d.interfaces@,
                )[b],
            decreases n - j,
        {
            if d.interfaces[i].iid == d.interfaces[j].iid {
                assert(iids_of(d.interfaces@)[i as int] == iids_of(d.interfaces@)[j as int]);
                return true;
            }
            j = j + 1;
        }
        i = i + 1;
    }
    false
}

/// Builds the augmented record layout for one declaration. Fails, producing
/// no layout, exactly when two declared interfaces collide on identity.
pub fn generate(decl: &ClassDecl) -> (r: Result<Vec<Slot>, GenError>)
    ensures
        match r {
            Ok(slots) => distinct_iids(iids_of(decl.interfaces@)) && slots@ == spec_layout(*decl),
            Err(e) => e == GenError::DuplicateInterface && !distinct_iids(
                iids_of(decl.interfaces@),
            ),
        },
{
    if has_duplicate_iid(decl) {
        return Err(GenError::DuplicateInterface);
    }
    let mut slots: Vec<Slot> = Vec::new();
    let n_ifaces = decl.interfaces.len();
    let mut i: usize = 0;
    while i < n_ifaces
        invariant
            i <= n_ifaces,
            n_ifaces == decl.interfaces@.len(),
            slots@ =~= vtable_slots(*decl).take(i as int),
        decreases n_ifaces - i,
    {
        slots.push(Slot::VTablePtr(decl.interfaces[i].iid));
        proof {
            assert(slots@ =~= vtable_slots(*decl).take(i + 1 as int));
        }
        i = i + 1;
    }
    assert(slots@ =~= vtable_slots(*decl));
    slots.push(Slot::RefCount);
    let ghost mid = vtable_slots(*decl) + seq![Slot::RefCount];
    assert(slots@ =~= mid);
    let n_aggs = decl.aggregates.len();
    let mut j: usize = 0;
    while j < n_aggs
        invariant
            j <= n_aggs,
            n_aggs == decl.aggregates@.len(),
            slots@ =~= mid + aggregate_slots(*decl).take(j as int),
        decreases n_aggs - j,
    {
        slots.push(Slot::AggregateSlot(decl.aggregates[j].field));
        proof {
            assert(slots@ =~= mid + aggregate_slots(*decl).take(j + 1 as int));
        }
        j = j + 1;
    }
    let ghost mid2 = mid + aggregate_slots(*decl);
    assert(slots@ =~= mid2);
    let n_fields = decl.user_fields.len();
    let mut k: usize = 0;
    while k < n_fields
        invariant
            k <= n_fields,
            n_fields == decl.user_fields@.len(),
            slots@ =~= mid2 + user_field_slots(*decl).take(k as int),
        decreases n_fields - k,
    {
        slots.push(Slot::UserField(decl.user_fields[k]));
        proof {
            assert(slots@ =~= mid2 + user_field_slots(*decl).take(k + 1 as int));
        }
        k = k + 1;
    }
    proof {
        assert(slots@ =~= spec_layout(*decl));
    }
    Ok(slots)
}

} // verus!
