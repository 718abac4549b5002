use com::co_class::{AggDecl, ClassDecl, GenError};
use com::com_struct::Slot;
use com::com_struct_impl::interface_slot;
use com::iid::{InterfaceDecl, MethodSlot};
use com::iunknown_impl::QueryStep;
use com::{expand_co_class, failed, iid_iclassfactory, iid_iunknown, Iid};
use com::{ComInterface, E_NOINTERFACE, S_FALSE, S_OK};

fn iid(n: u32) -> Iid {
    Iid { data1: n, data2: 0, data3: 0, data4: 0 }
}

fn iface(n: u32) -> InterfaceDecl {
    InterfaceDecl { iid: iid(n), user_methods: vec![] }
}

#[test]
fn failed_tests_the_sign_bit() {
    assert!(!failed(S_OK));
    assert!(!failed(S_FALSE));
    assert!(failed(-1));
    assert!(failed(E_NOINTERFACE));
    assert!(!failed(i32::MAX));
    assert!(failed(i32::MIN));
}

#[test]
fn universal_table_shapes_are_fixed() {
    let unk = com::IUnknownVTable::new();
    assert_eq!(
        unk.methods,
        vec![MethodSlot::QueryInterface, MethodSlot::AddRef, MethodSlot::Release]
    );
    let fac = com::IClassFactoryVTable::new(20, 21);
    assert_eq!(fac.methods.len(), 5);
    assert_eq!(fac.methods[3], MethodSlot::User(20));
    assert_eq!(fac.methods[4], MethodSlot::User(21));
}

#[test]
fn identity_constants_differ() {
    assert_ne!(iid_iunknown(), iid_iclassfactory());
    assert_eq!(iid_iunknown().data4, 0xC000000000000046u64);
    assert_eq!(<com::IUnknown as ComInterface>::iid(), iid_iunknown());
    assert_eq!(<com::IClassFactory as ComInterface>::iid(), iid_iclassfactory());
}

#[test]
fn layout_orders_vtables_refcount_aggregates_fields() {
    let decl = ClassDecl {
        clsid: iid(1),
        interfaces: vec![
            InterfaceDecl { iid: iid_iunknown(), user_methods: vec![] },
            InterfaceDecl { iid: iid(100), user_methods: vec![7, 8] },
        ],
        aggregates: vec![AggDecl { field: 5, inner_class: iid(2), delegated: vec![iid(100)] }],
        user_fields: vec![9, 10],
    };
    let def = expand_co_class(&decl).unwrap();
    assert_eq!(
        def.layout,
        vec![
            Slot::VTablePtr(iid_iunknown()),
            Slot::VTablePtr(iid(100)),
            Slot::RefCount,
            Slot::AggregateSlot(5),
            Slot::UserField(9),
            Slot::UserField(10),
        ]
    );
    assert_eq!(def.interfaces, vec![iid_iunknown(), iid(100)]);
    assert_eq!(def.agg_targets, vec![iid(2)]);
}

#[test]
fn vtables_begin_with_the_universal_operations() {
    let decl = ClassDecl {
        clsid: iid(1),
        interfaces: vec![
            InterfaceDecl { iid: iid_iunknown(), user_methods: vec![] },
            InterfaceDecl { iid: iid(100), user_methods: vec![7, 8] },
        ],
        aggregates: vec![],
        user_fields: vec![],
    };
    let def = expand_co_class(&decl).unwrap();
    assert_eq!(def.vtables.len(), 2);
    assert_eq!(def.vtables[0].iid, iid_iunknown());
    assert_eq!(
        def.vtables[0].methods,
        vec![MethodSlot::QueryInterface, MethodSlot::AddRef, MethodSlot::Release]
    );
    assert_eq!(def.vtables[1].iid, iid(100));
    assert_eq!(
        def.vtables[1].methods,
        vec![
            MethodSlot::QueryInterface,
            MethodSlot::AddRef,
            MethodSlot::Release,
            MethodSlot::User(7),
            MethodSlot::User(8),
        ]
    );
}

#[test]
fn query_plan_walks_interfaces_then_aggregates() {
    let decl = ClassDecl {
        clsid: iid(1),
        interfaces: vec![iface(50), iface(60)],
        aggregates: vec![
            AggDecl { field: 1, inner_class: iid(2), delegated: vec![iid(70)] },
            AggDecl { field: 2, inner_class: iid(3), delegated: vec![] },
        ],
        user_fields: vec![],
    };
    let def = expand_co_class(&decl).unwrap();
    assert_eq!(
        def.plan,
        vec![
            QueryStep::Direct { iid: iid(50), slot: 0 },
            QueryStep::Direct { iid: iid(60), slot: 1 },
            QueryStep::Forward { entry: 0 },
            QueryStep::Forward { entry: 1 },
        ]
    );
}

#[test]
fn factory_description_binds_the_class() {
    let decl = ClassDecl {
        clsid: iid(42),
        interfaces: vec![iface(50)],
        aggregates: vec![],
        user_fields: vec![],
    };
    let def = expand_co_class(&decl).unwrap();
    assert_eq!(def.factory.clsid, iid(42));
    assert_eq!(def.factory.interfaces, vec![iid_iunknown(), iid_iclassfactory()]);
}

#[test]
fn generation_rejects_colliding_identities() {
    let decl = ClassDecl {
        clsid: iid(1),
        interfaces: vec![iface(50), iface(60), iface(50)],
        aggregates: vec![],
        user_fields: vec![],
    };
    match expand_co_class(&decl) {
        Err(e) => assert_eq!(e, GenError::DuplicateInterface),
        Ok(_) => panic!("generation must fail on colliding identities"),
    }
}

#[test]
fn generation_rejects_an_empty_interface_list() {
    let decl = ClassDecl {
        clsid: iid(1),
        interfaces: vec![],
        aggregates: vec![],
        user_fields: vec![],
    };
    match expand_co_class(&decl) {
        Err(e) => assert_eq!(e, GenError::NoInterfaces),
        Ok(_) => panic!("generation must fail on an empty interface list"),
    }
}

#[test]
fn accessor_finds_the_first_matching_slot() {
    let ifaces = vec![iid(50), iid(60), iid(50)];
    assert_eq!(interface_slot(&ifaces, &iid(50)), Some(0));
    assert_eq!(interface_slot(&ifaces, &iid(60)), Some(1));
    assert_eq!(interface_slot(&ifaces, &iid(70)), None);
    let empty: Vec<Iid> = vec![];
    assert_eq!(interface_slot(&empty, &iid(50)), None);
}
