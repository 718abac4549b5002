use vstd::prelude::*;

use crate::class_factory;
use crate::class_factory::FactoryDef;
use crate::com_struct;
use crate::com_struct::Slot;
use crate::com_struct_impl;
use crate::com_struct_impl::VTable;
use crate::iid::{iclassfactory_iid, iunknown_iid, Iid, InterfaceDecl};
use crate::iunknown_impl;
use crate::iunknown_impl::QueryStep;

verus! {

/// What the generator is fed for one component type: the user record (its
/// fields identified opaquely — the generator places them, it never reads
/// them), the ordered interface list, and the aggregation map.
pub struct ClassDecl {
    /// The class identifier of the component type being generated.
    pub clsid: Iid,
    /// The directly implemented interface categories, in declaration order.
    /// This order is fixed forever for the class: reordering it would break
    /// already-compiled callers.
    pub interfaces: Vec<InterfaceDecl>,
    /// The aggregation map: one entry per field that owns an inner component.
    pub aggregates: Vec<AggDecl>,
    /// The identities of the user record's own fields, in declaration order.
    pub user_fields: Vec<u64>,
}

/// One entry of the aggregation map: a field of the user record that owns an
/// inner component of the named class, with the interface identities the
/// outer expects to delegate to it. The set documents the declaration; at run
/// time the dispatcher forwards an unmatched query to each aggregated inner
/// in declared order and the first inner to satisfy it wins.
pub struct AggDecl {
    pub field: u64,
    pub inner_class: Iid,
    pub delegated: Vec<Iid>,
}

/// A failure reported at generation time, never deferred to run time.
#[derive(Clone, Copy, PartialEq, Eq, Structural, Debug)]
pub enum GenError {
    /// The declaration implements no interface category at all.
    NoInterfaces,
    /// Two declared interface categories collide on their identity.
    DuplicateInterface,
}

/// The identity list of a declared interface sequence, in declaration order.
pub open spec fn iids_of(ifaces: Seq<InterfaceDecl>) -> Seq<Iid> {
    ifaces.map_values(|d: InterfaceDecl| d.iid)
}

/// No two identities in the sequence collide.
pub open spec fn distinct_iids(s: Seq<Iid>) -> bool {
    forall|i: int, j: int| 0 <= i < j < s.len() ==> s[i] != s[j]
}

/// Everything the generator produces for one component type: the augmented
/// layout, the static dispatch tables, the identity-query plan, and the class
/// factory description, together with the plain identity lists the runtime
/// registers.
pub struct CoClassDef {
    pub clsid: Iid,
    /// Identities of the directly implemented interfaces, declaration order.
    pub interfaces: Vec<Iid>,
    /// Class identities of the aggregation targets, declaration order.
    pub agg_targets: Vec<Iid>,
    pub layout: Vec<Slot>,
    pub vtables: Vec<VTable>,
    pub plan: Vec<QueryStep>,
    pub factory: FactoryDef,
}

/// Extracts the identity of every declared interface, in order.
fn interface_iids(ifaces: &Vec<InterfaceDecl>) -> (r: Vec<Iid>)
    ensures
        r@ == iids_of(ifaces@),
{
    let mut out: Vec<Iid> = Vec::new();
    let n = ifaces.len();
    let mut i: usize = 0;
    while i < n
        invariant
            i <= n,
            n == ifaces@.len(),
            out@ =~= iids_of(ifaces@).take(i as int),
        decreases n - i,
    {
        out.push(ifaces[i].iid);
        proof {
            assert(out@ =~= iids_of(ifaces@).take(i + 1 as int));
        }
        i = i + 1;
    }
    proof {
        assert(out@ =~= iids_of(ifaces@));
    }
    out
}

/// Extracts the class identity of every aggregation target, in order.
fn aggregate_targets(aggs: &Vec<AggDecl>) -> (r: Vec<Iid>)
    ensures
        r@ == aggs@.map_values(|a: AggDecl| a.inner_class),
{
    let mut out: Vec<Iid> = Vec::new();
    let n = aggs.len();
    let mut i: usize = 0;
    while i < n
        invariant
            i <= n,
            n == aggs@.len(),
            out@ =~= aggs@.map_values(|a: AggDecl| a.inner_class).take(i as int),
        decreases n - i,
    {
        out.push(aggs[i].inner_class);
        proof {
            assert(out@ =~= aggs@.map_values(|a: AggDecl| a.inner_class).take(i + 1 as int));
        }
        i = i + 1;
    }
    proof {
        assert(out@ =~= aggs@.map_values(|a: AggDecl| a.inner_class));
    }
    out
}

/// The generation pipeline for one component type: validates the declaration,
/// then produces the augmented layout, the dispatch-table wiring, the
/// identity-query plan and the class factory description. Generation fails,
/// and nothing is produced, exactly when the declaration implements no
/// interface or two declared interfaces collide on identity.
pub fn expand_co_class(decl: &ClassDecl) -> (r: Result<CoClassDef, GenError>)
    ensures
        match r {
            Ok(def) => {
                &&& decl.interfaces@.len() > 0
                &&& distinct_iids(iids_of(decl.interfaces@))
                &&& def.clsid == decl.clsid
                &&& def.interfaces@ == iids_of(decl.interfaces@)
                &&& def.agg_targets@ == decl.aggregates@.map_values(|a: AggDecl| a.inner_class)
                &&& def.layout@ == com_struct::spec_layout(*decl)
                &&& com_struct_impl::vtables_match(def.vtables@, decl.interfaces@)
                &&& def.plan@ == iunknown_impl::spec_plan(*decl)
                &&& def.factory.clsid == decl.clsid
                &&& def.factory.interfaces@ == seq![iunknown_iid(), iclassfactory_iid()]
            },
            Err(e) => match e {
                GenError::NoInterfaces => decl.interfaces@.len() == 0,
                GenError::DuplicateInterface => decl.interfaces@.len() > 0
                    && !distinct_iids(iids_of(decl.interfaces@)),
            },
        },
{
    if decl.interfaces.len() == 0 {
        return Err(GenError::NoInterfaces);
    }
    let layout = match com_struct::generate(decl) {
        Ok(l) => l,
        Err(e) => {
            return Err(e);
        },
    };
    let vtables = com_struct_impl::generate(decl);
    let plan = iunknown_impl::generate(decl);
    let factory = class_factory::generate(decl);
    let interfaces = interface_iids(&decl.interfaces);
    let agg_targets = aggregate_targets(&decl.aggregates);
    Ok(CoClassDef { clsid: decl.clsid, interfaces, agg_targets, layout, vtables, plan, factory })
}

} // verus!
