use com::co_class::{AggDecl, ClassDecl};
use com::iid::InterfaceDecl;
use com::{expand_co_class, failed, iid_iclassfactory, iid_iunknown, Iid};
use com::{ComOutPtr, ComPtr, Runtime};
use com::{CLASS_E_CLASSNOTAVAILABLE, E_INVALIDARG, E_NOINTERFACE, S_FALSE, S_OK};

fn iid(n: u32) -> Iid {
    Iid { data1: n, data2: 0, data3: 0, data4: 0 }
}

fn decl(clsid: Iid, interfaces: Vec<Iid>, aggregates: Vec<AggDecl>) -> ClassDecl {
    ClassDecl {
        clsid,
        interfaces: interfaces
            .into_iter()
            .map(|i| InterfaceDecl { iid: i, user_methods: vec![] })
            .collect(),
        aggregates,
        user_fields: vec![],
    }
}

/// A runtime with one registered class implementing IUnknown and IFoo
/// (`iid(100)`), plus the new instance's identity.
fn simple_setup() -> (Runtime, usize) {
    let mut rt = Runtime::new();
    let def = expand_co_class(&decl(iid(1), vec![iid_iunknown(), iid(100)], vec![])).unwrap();
    let c = rt.register_class(&def).unwrap();
    let factory = rt.classes[c].factory;
    let mut out = ComOutPtr::new();
    let hr = rt.create_instance(factory, None, &iid(100), &mut out);
    assert_eq!(hr, S_OK);
    let p = out.take().unwrap();
    (rt, p.object)
}

#[test]
fn add_ref_then_release_is_a_no_op_pair() {
    let (mut rt, obj) = simple_setup();
    assert_eq!(rt.objects[obj].ref_count, 1);
    let up = rt.add_ref(obj);
    assert_eq!(up, 2);
    let down = rt.release(obj);
    assert_eq!(down, 1);
    assert!(rt.objects[obj].alive);
    // still observable through a successful identity query
    let mut out = ComOutPtr::new();
    let hr = rt.query_interface(obj, &iid(100), &mut out);
    assert_eq!(hr, S_OK);
    assert_eq!(out.take().unwrap().object, obj);
    rt.release(obj);
}

#[test]
fn interface_pointers_are_interchangeable() {
    let (mut rt, obj) = simple_setup();
    let mut out = ComOutPtr::new();
    let hr = rt.query_interface(obj, &iid_iunknown(), &mut out);
    assert_eq!(hr, S_OK);
    let unk = out.take().unwrap();
    assert_eq!(unk.object, obj);
    assert_eq!(unk.slot, 0);
    assert_eq!(rt.objects[obj].ref_count, 2);
    // the pointer obtained by the query behaves exactly like the original:
    // AddRef/Release act on the same shared count, and its own query finds
    // the same interfaces
    let up = rt.add_ref(unk.object);
    assert_eq!(up, 3);
    let down = rt.release(unk.object);
    assert_eq!(down, 2);
    let hr2 = rt.query_interface(unk.object, &iid(100), &mut out);
    assert_eq!(hr2, S_OK);
    let foo = out.take().unwrap();
    assert_eq!(foo.object, obj);
    assert_eq!(foo.slot, 1);
    rt.release(foo.object);
    rt.release(unk.object);
    rt.release(obj);
}

#[test]
fn unimplemented_identity_fails_with_null_output() {
    let (mut rt, obj) = simple_setup();
    let mut out = ComOutPtr::new();
    let hr = rt.query_interface(obj, &iid(999), &mut out);
    assert_eq!(hr, E_NOINTERFACE);
    assert!(failed(hr));
    assert!(out.is_null());
    // the failed query changed nothing
    assert_eq!(rt.objects[obj].ref_count, 1);
    assert!(rt.objects[obj].alive);
    rt.release(obj);
}

#[test]
fn paired_calls_leave_the_count_at_its_prior_value() {
    let (mut rt, obj) = simple_setup();
    let before = rt.objects[obj].ref_count;
    let mut k = 0;
    while k < 1000 {
        rt.add_ref(obj);
        rt.release(obj);
        k += 1;
    }
    assert_eq!(rt.objects[obj].ref_count, before);
    assert!(rt.objects[obj].alive);
    // exactly one release observes the zero transition
    assert_eq!(rt.release(obj), 0);
    assert!(!rt.objects[obj].alive);
}

#[test]
fn aggregation_delegates_lifetime_to_the_outer() {
    let mut rt = Runtime::new();
    // inner class X implements IUnknown and IBar (iid 200)
    let x = expand_co_class(&decl(iid(2), vec![iid_iunknown(), iid(200)], vec![])).unwrap();
    let cx = rt.register_class(&x).unwrap();
    // outer class implements IUnknown and delegates IBar to an inner X
    let outer_decl = decl(
        iid(1),
        vec![iid_iunknown()],
        vec![AggDecl { field: 1, inner_class: iid(2), delegated: vec![iid(200)] }],
    );
    let o = expand_co_class(&outer_decl).unwrap();
    let co = rt.register_class(&o).unwrap();
    let mut out = ComOutPtr::new();
    // construct the outer, then its aggregated inner
    let hr = rt.create_instance(rt.classes[co].factory, None, &iid_iunknown(), &mut out);
    assert_eq!(hr, S_OK);
    let outer_ptr = out.take().unwrap();
    let outer_id = outer_ptr.object;
    let hr2 = rt.create_instance(rt.classes[cx].factory, Some(outer_id), &iid_iunknown(), &mut out);
    assert_eq!(hr2, S_OK);
    let inner_ptr = out.take().unwrap();
    let inner_id = inner_ptr.object;
    assert_ne!(inner_id, outer_id);
    assert_eq!(rt.objects[inner_id].outer, Some(outer_id));
    // querying the outer for the delegated interface reaches the inner
    let hr3 = rt.query_interface(outer_id, &iid(200), &mut out);
    assert_eq!(hr3, S_OK);
    let bar = out.take().unwrap();
    assert_eq!(bar.object, inner_id);
    // ... and the count it raised is the outer's, not the inner's
    assert_eq!(rt.objects[outer_id].ref_count, 2);
    assert_eq!(rt.objects[inner_id].ref_count, 1);
    // AddRef/Release through the delegated pointer govern the outer
    let up = rt.add_ref(bar.object);
    assert_eq!(up, 3);
    assert_eq!(rt.objects[inner_id].ref_count, 1);
    rt.release(bar.object);
    rt.release(bar.object);
    // releasing the outer's last reference tears down outer and inner, once
    assert_eq!(rt.release(outer_id), 0);
    assert!(!rt.objects[outer_id].alive);
    assert!(!rt.objects[inner_id].alive);
    assert_eq!(rt.objects[inner_id].ref_count, 0);
}

#[test]
fn direct_interfaces_win_over_aggregated_inners() {
    let mut rt = Runtime::new();
    let x = expand_co_class(&decl(iid(2), vec![iid_iunknown(), iid(200)], vec![])).unwrap();
    let cx = rt.register_class(&x).unwrap();
    let o = expand_co_class(&decl(iid(1), vec![iid_iunknown()], vec![])).unwrap();
    let co = rt.register_class(&o).unwrap();
    let mut out = ComOutPtr::new();
    assert_eq!(rt.create_instance(rt.classes[co].factory, None, &iid_iunknown(), &mut out), S_OK);
    let outer_id = out.take().unwrap().object;
    assert_eq!(
        rt.create_instance(rt.classes[cx].factory, Some(outer_id), &iid_iunknown(), &mut out),
        S_OK
    );
    let inner_id = out.take().unwrap().object;
    // both the outer and the inner implement the universal interface; a query
    // on the outer answers with the outer's own slot, never the inner's
    assert_eq!(rt.query_interface(outer_id, &iid_iunknown(), &mut out), S_OK);
    let p = out.take().unwrap();
    assert_eq!(p.object, outer_id);
    assert_ne!(p.object, inner_id);
    rt.release(p.object);
    rt.release(outer_id);
}

#[test]
fn scenario_register_create_call_release() {
    // register class C implementing {IUnknown, IFoo}
    let mut rt = Runtime::new();
    let clsid_c = iid(1);
    let mut d = decl(clsid_c, vec![iid_iunknown(), iid(100)], vec![]);
    d.interfaces[1].user_methods = vec![7];
    let def = expand_co_class(&d).unwrap();
    rt.register_class(&def).unwrap();
    // GetClassObject(C, IClassFactory) succeeds
    let mut out = ComOutPtr::new();
    let hr = rt.get_class_object(&clsid_c, &iid_iclassfactory(), &mut out);
    assert_eq!(hr, S_OK);
    assert!(!failed(hr));
    let fac = out.take().unwrap();
    // CreateInstance(null, IFoo) succeeds with a non-null pointer
    let hr2 = rt.create_instance(fac.object, None, &iid(100), &mut out);
    assert_eq!(hr2, S_OK);
    let p = out.take().unwrap();
    assert_eq!(p.slot, 1);
    // the IFoo dispatch table carries the universal operations and the method
    assert_eq!(def.vtables[1].methods.len(), 4);
    // exactly the caller's one reference is outstanding
    assert_eq!(rt.objects[p.object].ref_count, 1);
    // Release drops the count to zero and teardown is observable
    assert_eq!(rt.release(p.object), 0);
    assert!(!rt.objects[p.object].alive);
    rt.release(fac.object);
}

#[test]
fn aggregation_may_only_request_the_universal_interface() {
    let mut rt = Runtime::new();
    let x = expand_co_class(&decl(iid(2), vec![iid_iunknown(), iid(200)], vec![])).unwrap();
    let cx = rt.register_class(&x).unwrap();
    let o = expand_co_class(&decl(iid(1), vec![iid_iunknown()], vec![])).unwrap();
    let co = rt.register_class(&o).unwrap();
    let mut out = ComOutPtr::new();
    let hr = rt.create_instance(rt.classes[co].factory, None, &iid_iunknown(), &mut out);
    assert_eq!(hr, S_OK);
    let outer_id = out.take().unwrap().object;
    let before = rt.objects.len();
    // a non-null outer together with any identity but IUnknown is malformed
    let hr2 = rt.create_instance(rt.classes[cx].factory, Some(outer_id), &iid(200), &mut out);
    assert_eq!(hr2, E_INVALIDARG);
    assert!(failed(hr2));
    assert!(out.is_null());
    assert_eq!(rt.objects.len(), before);
    rt.release(outer_id);
}

#[test]
fn can_unload_now_tracks_outstanding_instances() {
    let mut rt = Runtime::new();
    let def = expand_co_class(&decl(iid(1), vec![iid_iunknown()], vec![])).unwrap();
    let c = rt.register_class(&def).unwrap();
    // a registered factory alone does not pin the module
    assert_eq!(rt.can_unload_now(), S_OK);
    let mut out = ComOutPtr::new();
    let hr = rt.create_instance(rt.classes[c].factory, None, &iid_iunknown(), &mut out);
    assert_eq!(hr, S_OK);
    let p = out.take().unwrap();
    // false while one created instance remains unreleased
    assert_eq!(rt.can_unload_now(), S_FALSE);
    assert_eq!(rt.release(p.object), 0);
    // true again after its release
    assert_eq!(rt.can_unload_now(), S_OK);
}

#[test]
fn lock_server_pins_the_module_without_touching_instances() {
    let mut rt = Runtime::new();
    let def = expand_co_class(&decl(iid(1), vec![iid_iunknown()], vec![])).unwrap();
    let c = rt.register_class(&def).unwrap();
    let factory_count = rt.objects[rt.classes[c].factory].ref_count;
    assert_eq!(rt.lock_server(true), S_OK);
    assert_eq!(rt.can_unload_now(), S_FALSE);
    assert_eq!(rt.objects[rt.classes[c].factory].ref_count, factory_count);
    assert_eq!(rt.lock_server(false), S_OK);
    assert_eq!(rt.can_unload_now(), S_OK);
}

#[test]
fn get_class_object_rejects_an_unregistered_class() {
    let mut rt = Runtime::new();
    let def = expand_co_class(&decl(iid(1), vec![iid_iunknown()], vec![])).unwrap();
    rt.register_class(&def).unwrap();
    let mut out = ComOutPtr::new();
    let hr = rt.get_class_object(&iid(77), &iid_iclassfactory(), &mut out);
    assert_eq!(hr, CLASS_E_CLASSNOTAVAILABLE);
    assert!(failed(hr));
    assert!(out.is_null());
}

#[test]
fn get_class_object_answers_through_the_factory_query() {
    let mut rt = Runtime::new();
    let def = expand_co_class(&decl(iid(1), vec![iid_iunknown()], vec![])).unwrap();
    let c = rt.register_class(&def).unwrap();
    let mut out = ComOutPtr::new();
    // the factory implements IUnknown and IClassFactory, nothing else
    assert_eq!(rt.get_class_object(&iid(1), &iid_iunknown(), &mut out), S_OK);
    assert_eq!(out.take().unwrap().object, rt.classes[c].factory);
    assert_eq!(rt.get_class_object(&iid(1), &iid(999), &mut out), E_NOINTERFACE);
    assert!(out.is_null());
}

#[test]
fn the_registry_recreates_a_released_factory_on_demand() {
    let mut rt = Runtime::new();
    let def = expand_co_class(&decl(iid(1), vec![iid_iunknown()], vec![])).unwrap();
    let c = rt.register_class(&def).unwrap();
    let fid = rt.classes[c].factory;
    // release the registry's own factory reference away
    assert_eq!(rt.release(fid), 0);
    assert!(!rt.objects[fid].alive);
    // the registration survives for the process lifetime: the entry point
    // re-establishes the factory and still answers
    let mut out = ComOutPtr::new();
    assert_eq!(rt.get_class_object(&iid(1), &iid_iclassfactory(), &mut out), S_OK);
    let fac = out.take().unwrap();
    assert_eq!(fac.object, fid);
    assert!(rt.objects[fid].alive);
    rt.release(fac.object);
    rt.uninitialize();
}

#[test]
fn create_instance_rejects_an_unimplemented_identity() {
    let mut rt = Runtime::new();
    let def = expand_co_class(&decl(iid(1), vec![iid_iunknown()], vec![])).unwrap();
    let c = rt.register_class(&def).unwrap();
    let mut out = ComOutPtr::new();
    let hr = rt.create_instance(rt.classes[c].factory, None, &iid(999), &mut out);
    assert_eq!(hr, E_NOINTERFACE);
    assert!(out.is_null());
    // the stillborn instance was torn down again: nothing is outstanding
    assert_eq!(rt.can_unload_now(), S_OK);
}

#[test]
fn registration_rejects_a_duplicate_class_identity() {
    let mut rt = Runtime::new();
    let def = expand_co_class(&decl(iid(1), vec![iid_iunknown()], vec![])).unwrap();
    rt.register_class(&def).unwrap();
    assert_eq!(rt.register_class(&def).unwrap_err(), E_INVALIDARG);
}

#[test]
fn registration_rejects_an_unregistered_aggregation_target() {
    let mut rt = Runtime::new();
    let d = decl(
        iid(1),
        vec![iid_iunknown()],
        vec![AggDecl { field: 1, inner_class: iid(2), delegated: vec![] }],
    );
    let def = expand_co_class(&d).unwrap();
    assert_eq!(rt.register_class(&def).unwrap_err(), CLASS_E_CLASSNOTAVAILABLE);
}

#[test]
fn owning_pointer_duplicates_and_releases_through_the_runtime() {
    let (mut rt, obj) = simple_setup();
    let first = ComPtr::from_raw(com::InterfacePtr { object: obj, slot: 1 });
    // construction from a raw pointer takes the existing reference: count stays
    assert_eq!(rt.objects[obj].ref_count, 1);
    // duplication performs AddRef
    let second = rt.clone_com_ptr(&first);
    assert_eq!(second.as_raw(), first.as_raw());
    assert_eq!(rt.objects[obj].ref_count, 2);
    // each owning pointer is given up exactly once
    assert_eq!(rt.release_com_ptr(second), 1);
    assert_eq!(rt.release_com_ptr(first), 0);
    assert!(!rt.objects[obj].alive);
}

#[test]
fn output_slot_is_written_once_and_transfers_ownership() {
    let (mut rt, obj) = simple_setup();
    let mut out = ComOutPtr::new();
    assert!(out.is_null());
    assert_eq!(rt.query_interface(obj, &iid_iunknown(), &mut out), S_OK);
    assert!(!out.is_null());
    let taken = out.take().unwrap();
    assert!(out.is_null());
    assert_eq!(taken.object, obj);
    // whoever took the pointer owns its reference and releases it
    assert_eq!(rt.release(taken.object), 1);
    rt.release(obj);
}
