use vstd::prelude::*;

verus! {

/// A 128-bit interface or class identifier, compared for bitwise equality.
/// Global uniqueness per interface category is a convention of the callers,
/// not enforced here.
#[derive(Clone, Copy, PartialEq, Eq, Structural, Debug)]
pub struct Iid {
    pub data1: u32,
    pub data2: u16,
    pub data3: u16,
    pub data4: u64,
}

/// The identity of the universal lifetime/query interface that every
/// interface category begins with.
pub open spec fn iunknown_iid() -> Iid {
    Iid { data1: 0u32, data2: 0u16, data3: 0u16, data4: 0xC000000000000046u64 }
}

/// The identity of the standard creation (class factory) interface.
pub open spec fn iclassfactory_iid() -> Iid {
    Iid { data1: 1u32, data2: 0u16, data3: 0u16, data4: 0xC000000000000046u64 }
}

pub fn iid_iunknown() -> (r: Iid)
    ensures
        r == iunknown_iid(),
{
    Iid { data1: 0u32, data2: 0u16, data3: 0u16, data4: 0xC000000000000046u64 }
}

pub fn iid_iclassfactory() -> (r: Iid)
    ensures
        r == iclassfactory_iid(),
{
    Iid { data1: 1u32, data2: 0u16, data3: 0u16, data4: 0xC000000000000046u64 }
}

/// A single slot of a dispatch table: either one of the three universal
/// lifetime/query operations every interface category begins with, or a
/// user-supplied method identified by an opaque method identity.
#[derive(Clone, Copy, PartialEq, Eq, Structural, Debug)]
pub enum MethodSlot {
    QueryInterface,
    AddRef,
    Release,
    User(u64),
}

/// The dispatch-table shape of the universal lifetime/query interface:
/// exactly the three universal operations.
#[derive(Clone, PartialEq, Eq, Debug)]
pub struct IUnknownVTable {
    pub methods: Vec<MethodSlot>,
}

/// The dispatch-table shape of the standard creation interface: the three
/// universal operations followed by the two creation operations.
#[derive(Clone, PartialEq, Eq, Debug)]
pub struct IClassFactoryVTable {
    pub methods: Vec<MethodSlot>,
}

impl IUnknownVTable {
    /// The universal interface's one table shape: exactly the three
    /// universal operations, in their fixed order.
    pub fn new() -> (r: IUnknownVTable)
        ensures
            r.methods@ == seq![
                MethodSlot::QueryInterface,
                MethodSlot::AddRef,
                MethodSlot::Release,
            ],
    {
        let mut methods: Vec<MethodSlot> = Vec::new();
        methods.push(MethodSlot::QueryInterface);
        methods.push(MethodSlot::AddRef);
        methods.push(MethodSlot::Release);
        proof {
            assert(methods@ =~= seq![
                MethodSlot::QueryInterface,
                MethodSlot::AddRef,
                MethodSlot::Release,
            ]);
        }
        IUnknownVTable { methods }
    }
}

impl IClassFactoryVTable {
    /// The creation interface's table shape: the three universal operations
    /// followed by the two creation operations, named here by the method
    /// identities the dispatcher reserves for them.
    pub fn new(create_instance: u64, lock_server: u64) -> (r: IClassFactoryVTable)
        ensures
            r.methods@ == seq![
                MethodSlot::QueryInterface,
                MethodSlot::AddRef,
                MethodSlot::Release,
                MethodSlot::User(create_instance),
                MethodSlot::User(lock_server),
            ],
    {
        let mut methods: Vec<MethodSlot> = Vec::new();
        methods.push(MethodSlot::QueryInterface);
        methods.push(MethodSlot::AddRef);
        methods.push(MethodSlot::Release);
        methods.push(MethodSlot::User(create_instance));
        methods.push(MethodSlot::User(lock_server));
        proof {
            assert(methods@ =~= seq![
                MethodSlot::QueryInterface,
                MethodSlot::AddRef,
                MethodSlot::Release,
                MethodSlot::User(create_instance),
                MethodSlot::User(lock_server),
            ]);
        }
        IClassFactoryVTable { methods }
    }
}

/// An interface category as the generator sees it: its unique identifier and
/// the identities of its own methods, which follow the three universal
/// lifetime/query operations in its dispatch table.
pub struct InterfaceDecl {
    pub iid: Iid,
    pub user_methods: Vec<u64>,
}

/// Binds an interface category to its dispatch-table shape and its unique
/// identifier constant. This binding is the sole mechanism by which identity
/// queries compare identities.
pub trait ComInterface {
    type VTable;

    /// The identifier constant of this interface category.
    spec fn spec_iid() -> Iid;

    /// Returns the identifier constant of this interface category.
    fn iid() -> (r: Iid)
        ensures
            r == Self::spec_iid(),
    ;
}

/// Marker for the universal lifetime/query interface category.
pub struct IUnknown;

/// Marker for the standard creation interface category.
pub struct IClassFactory;

impl ComInterface for IUnknown {
    type VTable = IUnknownVTable;

    open spec fn spec_iid() -> Iid {
        iunknown_iid()
    }

    fn iid() -> (r: Iid) {
        iid_iunknown()
    }
}

impl ComInterface for IClassFactory {
    type VTable = IClassFactoryVTable;

    open spec fn spec_iid() -> Iid {
        iclassfactory_iid()
    }

    fn iid() -> (r: Iid) {
        iid_iclassfactory()
    }
}

} // verus!
