use vstd::prelude::*;

verus! {

// Result codes follow the signed 32-bit convention: negative values signal
// failure, non-negative values signal success.

/// Success.
pub const S_OK: i32 = 0;
/// Success carrying a boolean "false" answer.
pub const S_FALSE: i32 = 1;
/// The requested operation is explicitly stubbed out.
pub const E_NOTIMPL: i32 = -2147467263;
/// The requested interface identity is not implemented.
pub const E_NOINTERFACE: i32 = -2147467262;
/// A malformed request, such as an invalid aggregation creation call.
pub const E_INVALIDARG: i32 = -2147024809;
/// The requested class identifier has no registration.
pub const CLASS_E_CLASSNOTAVAILABLE: i32 = -2147221231;

/// The single predicate callers use on a result code: failure is exactly the
/// sign bit being set.
pub fn failed(result: i32) -> (r: bool)
    ensures
        r == (result < 0),
{
    result < 0
}

} // verus!
