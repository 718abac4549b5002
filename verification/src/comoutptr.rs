use vstd::prelude::*;

use crate::comptr::InterfacePtr;

verus! {

/// A typed output slot for operations that produce a brand-new counted
/// reference. The producing operation writes it exactly once on success and
/// leaves it null on failure; ownership of a written pointer transfers to
/// whoever takes it out.
pub struct ComOutPtr {
    pub value: Option<InterfacePtr>,
}

impl ComOutPtr {
    /// A fresh, null output slot.
    pub fn new() -> (r: ComOutPtr)
        ensures
            r.value is None,
    {
        ComOutPtr { value: None }
    }

    /// Whether the slot is still null.
    pub fn is_null(&self) -> (r: bool)
        ensures
            r == (self.value is None),
    {
        match self.value {
            Some(_) => false,
            None => true,
        }
    }

    /// Takes the produced pointer out, transferring its counted reference to
    /// the caller and leaving the slot null.
    pub fn take(&mut self) -> (r: Option<InterfacePtr>)
        ensures
            r == old(self).value,
            final(self).value is None,
    {
        let v = self.value;
        self.value = None;
        v
    }
}

} // verus!
