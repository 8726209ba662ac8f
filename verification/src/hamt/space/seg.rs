use vstd::prelude::*;

verus! {

/// Index of a segment within a space.
#[derive(Debug, Clone, Copy, PartialEq, Eq, Structural)]
pub struct Seg(pub u32);

} // verus!
