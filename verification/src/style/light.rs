//! Marker types for the light theme's style families. The GUI layer maps
//! each to its concrete stylesheet; the library only names them.

use vstd::prelude::*;

verus! {

/// The light theme's button family.
#[derive(Debug, Clone, Copy)]
pub struct Button;

} // verus!
