use vstd::prelude::*;

verus! {

/// An animation that is given by samples; it carries no data.
pub struct SampledAnimation {}

} // verus!
