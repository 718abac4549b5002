use vstd::prelude::*;

use crate::co_class::ClassDecl;
use crate::iid::{iclassfactory_iid, iid_iclassfactory, iid_iunknown, iunknown_iid, Iid};

verus! {

/// The generated class factory for one component type: a standard component
/// of its own that implements the universal lifetime/query interface and the
/// standard creation interface, and constructs instances of exactly one
/// class.
#[derive(Clone, PartialEq, Eq, Debug)]
pub struct FactoryDef {
    /// The class whose instances this factory constructs.
    pub clsid: Iid,
    /// The factory component's own interface identities, declaration order.
    pub interfaces: Vec<Iid>,
}

/// Builds the class factory description for one declaration.
pub fn generate(decl: &ClassDecl) -> (r: FactoryDef)
    ensures
        r.clsid == decl.clsid,
        r.interfaces@ == seq![iunknown_iid(), iclassfactory_iid()],
{
    let mut interfaces: Vec<Iid> = Vec::new();
    interfaces.push(iid_iunknown());
    interfaces.push(iid_iclassfactory());
    proof {
        assert(interfaces@ =~= seq![iunknown_iid(), iclassfactory_iid()]);
    }
    FactoryDef { clsid: decl.clsid, interfaces }
}

} // verus!
