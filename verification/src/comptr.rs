use vstd::prelude::*;

verus! {

/// A raw interface pointer: it names one component instance and the
/// dispatch-table-pointer slot, within that instance's fixed layout, of the
/// interface it is typed as. The instance is recovered from the pointer by
/// the `object` part alone, mirroring the fixed-offset recovery of the
/// augmented layout.
#[derive(Clone, Copy, PartialEq, Eq, Structural, Debug)]
pub struct InterfacePtr {
    pub object: usize,
    pub slot: usize,
}

/// An owning interface pointer. Construction from a raw pointer takes
/// ownership without an extra reference-count increment, matching the
/// convention that pointer-returning operations transfer one reference.
/// Duplication must go through the runtime's AddRef and giving the pointer up
/// through the runtime's Release, each exactly once; moving a `ComPtr`
/// transfers ownership without touching the count.
pub struct ComPtr {
    ptr: InterfacePtr,
}

impl ComPtr {
    /// The raw pointer this owning pointer wraps.
    pub closed spec fn raw(self) -> InterfacePtr {
        self.ptr
    }

    /// Takes ownership of a raw pointer whose reference was already counted.
    pub fn from_raw(ptr: InterfacePtr) -> (r: ComPtr)
        ensures
            r.raw() == ptr,
    {
        ComPtr { ptr }
    }

    /// Reads the raw pointer without giving up ownership.
    pub fn as_raw(&self) -> (r: InterfacePtr)
        ensures
            r == self.raw(),
    {
        self.ptr
    }

    /// Gives the raw pointer up; the caller now owns the counted reference.
    pub fn into_raw(self) -> (r: InterfacePtr)
        ensures
            r == self.raw(),
    {
        self.ptr
    }
}

} // verus!
