//! Platform-style type aliases used by the wide-character layer.

use vstd::prelude::*;

verus! {

/// Wide-character unit, matching the 32-bit wide character of Unix-like
/// targets.
#[allow(non_camel_case_types)]
pub type wchar_t = i32;

} // verus!
