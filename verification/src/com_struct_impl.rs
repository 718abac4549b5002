use vstd::prelude::*;

use crate::co_class::ClassDecl;
use crate::iid::{Iid, InterfaceDecl, MethodSlot};

verus! {

/// One process-wide dispatch-table instance for one (component type,
/// interface category) pair: constructed once at generation time, shared by
/// every instance of the class, and never mutated afterwards.
#[derive(Clone, PartialEq, Eq, Debug)]
pub struct VTable {
    pub iid: Iid,
    pub methods: Vec<MethodSlot>,
}

/// The method column of one interface's dispatch table: the three universal
/// lifetime/query operations first, then the interface's own methods in
/// declaration order.
pub open spec fn spec_vtable_methods(d: InterfaceDecl) -> Seq<MethodSlot> {
    seq![MethodSlot::QueryInterface, MethodSlot::AddRef, MethodSlot::Release]
        + d.user_methods@.map_values(|m: u64| MethodSlot::User(m))
}

/// The generated tables agree with the declaration: one table per interface,
/// in declaration order, each shaped by `spec_vtable_methods`.
pub open spec fn vtables_match(tables: Seq<VTable>, ifaces: Seq<InterfaceDecl>) -> bool {
    &&& tables.len() == ifaces.len()
    &&& forall|i: int| 0 <= i < tables.len() ==> #[trigger] tables[i].iid == ifaces[i].iid
        && tables[i].methods@ == spec_vtable_methods(ifaces[i])
}

/// Builds the method column for one interface category.
fn generate_methods(d: &InterfaceDecl) -> (r: Vec<MethodSlot>)
    ensures
        r@ == spec_vtable_methods(*d),
{
    let mut methods: Vec<MethodSlot> = Vec::new();
    methods.push(MethodSlot::QueryInterface);
    methods.push(MethodSlot::AddRef);
    methods.push(MethodSlot::Release);
    let ghost head = seq![
        MethodSlot::QueryInterface,
        MethodSlot::AddRef,
        MethodSlot::Release,
    ];
    assert(methods@ =~= head);
    let n = d.user_methods.len();
    let mut i: usize = 0;
    while i < n
        invariant
            i <= n,
            n == d.user_methods@.len(),
            methods@ =~= head + d.user_methods@.map_values(|m: u64| MethodSlot::User(m)).take(
                i as int,
            ),
        decreases n - i,
    {
        methods.push(MethodSlot::User(d.user_methods[i]));
        proof {
            assert(methods@ =~= head + d.user_methods@.map_values(
                |m: u64| MethodSlot::User(m),
            ).take(i + 1 as int));
        }
        i = i + 1;
    }
    proof {
        assert(methods@ =~= spec_vtable_methods(*d));
    }
    methods
}

/// Builds one static dispatch-table instance per directly implemented
/// interface, in declaration order.
pub fn generate(decl: &ClassDecl) -> (r: Vec<VTable>)
    ensures
        vtables_match(r@, decl.interfaces@),
{
    let mut tables: Vec<VTable> = Vec::new();
    let n = decl.interfaces.len();
    let mut i: usize = 0;
    while i < n
        invariant
            i <= n,
            n == decl.interfaces@.len(),
            tables@.len() == i,
            forall|k: int| 0 <= k < i ==> #[trigger] tables@[k].iid == decl.interfaces@[k].iid
                && tables@[k].methods@ == spec_vtable_methods(decl.interfaces@[k]),
        decreases n - i,
    {
        let methods = generate_methods(&decl.interfaces[i]);
        tables.push(VTable { iid: decl.interfaces[i].iid, methods });
        i = i + 1;
    }
    tables
}

/// Where the requested identity first occurs in an identity list, if at all:
/// the accessor mechanism by which a dispatcher finds any of an object's
/// interfaces from any other.
pub open spec fn find_iid(s: Seq<Iid>, iid: Iid) -> Option<int>
    decreases s.len(),
{
    if s.len() == 0 {
        None
    } else if s[0] == iid {
        Some(0int)
    } else {
        match find_iid(s.skip(1), iid) {
            Some(k) => Some(k + 1),
            None => None,
        }
    }
}

/// `find_iid` returns the first occurrence of the identity, and `None`
/// exactly when the identity does not occur.
pub proof fn lemma_find_iid(s: Seq<Iid>, iid: Iid)
    ensures
        match find_iid(s, iid) {
            Some(k) => 0 <= k < s.len() && s[k] == iid && (forall|m: int|
                0 <= m < k ==> s[m] != iid),
            None => forall|m: int| 0 <= m < s.len() ==> s[m] != iid,
        },
    decreases s.len(),
{
    if s.len() == 0 {
    } else if s[0] == iid {
    } else {
        lemma_find_iid(s.skip(1), iid);
        match find_iid(s.skip(1), iid) {
            Some(k) => {
                assert(s.skip(1)[k] == s[k + 1]);
                assert forall|m: int| 0 <= m < k + 1 implies s[m] != iid by {
                    if m > 0 {
                        assert(s.skip(1)[m - 1] == s[m]);
                    }
                }
            },
            None => {
                assert forall|m: int| 0 <= m < s.len() implies s[m] != iid by {
                    if m > 0 {
                        assert(s.skip(1)[m - 1] == s[m]);
                    }
                }
            },
        }
    }
}

/// The first occurrence determines `find_iid` exactly.
pub proof fn lemma_find_iid_at(s: Seq<Iid>, iid: Iid, k: int)
    requires
        0 <= k < s.len(),
        s[k] == iid,
        forall|m: int| 0 <= m < k ==> s[m] != iid,
    ensures
        find_iid(s, iid) == Some(k),
    decreases k,
{
    if k == 0 {
    } else {
        assert(s[0] != iid);
        assert(forall|m: int| 0 <= m < k - 1 ==> s.skip(1)[m] == s[m + 1]);
        lemma_find_iid_at(s.skip(1), iid, k - 1);
    }
}

/// An identity that occurs nowhere is not found.
pub proof fn lemma_find_iid_none(s: Seq<Iid>, iid: Iid)
    requires
        forall|m: int| 0 <= m < s.len() ==> s[m] != iid,
    ensures
        find_iid(s, iid) is None,
{
    lemma_find_iid(s, iid);
    if find_iid(s, iid) is Some {
        let k = find_iid(s, iid)->Some_0;
        assert(s[k] == iid);
        assert(false);
    }
}

/// The generated per-interface accessor: maps an identity list and a
/// requested identity to the index of the matching dispatch-table-pointer
/// slot, or reports that the instance does not expose it.
pub fn interface_slot(interfaces: &Vec<Iid>, iid: &Iid) -> (r: Option<usize>)
    ensures
        match r {
            Some(k) => find_iid(interfaces@, *iid) == Some(k as int),
            None => find_iid(interfaces@, *iid) is None,
        },
{
    let n = interfaces.len();
    let mut i: usize = 0;
    while i < n
        invariant
            i <= n,
            n == interfaces@.len(),
            forall|m: int| 0 <= m < i ==> interfaces@[m] != *iid,
        decreases n - i,
    {
        if interfaces[i] == *iid {
            proof {
                lemma_find_iid_at(interfaces@, *iid, i as int);
            }
            return Some(i);
        }
        i = i + 1;
    }
    proof {
        lemma_find_iid_none(interfaces@, *iid);
    }
    None
}

} // verus!
