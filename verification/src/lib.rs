pub mod class_factory;
pub mod co_class;
pub mod com_struct;
pub mod com_struct_impl;
pub mod comoutptr;
pub mod comptr;
pub mod hresult;
pub mod iid;
pub mod iunknown_impl;
pub mod laws;
pub mod runtime;

pub use co_class::expand_co_class;
pub use comoutptr::ComOutPtr;
pub use comptr::ComPtr;
pub use comptr::InterfacePtr;
pub use hresult::failed;
pub use hresult::CLASS_E_CLASSNOTAVAILABLE;
pub use hresult::E_INVALIDARG;
pub use hresult::E_NOINTERFACE;
pub use hresult::E_NOTIMPL;
pub use hresult::S_FALSE;
pub use hresult::S_OK;
pub use iid::iid_iclassfactory;
pub use iid::iid_iunknown;
pub use iid::ComInterface;
pub use iid::IClassFactory;
pub use iid::IClassFactoryVTable;
pub use iid::IUnknown;
pub use iid::IUnknownVTable;
pub use iid::Iid;
pub use runtime::Runtime;
