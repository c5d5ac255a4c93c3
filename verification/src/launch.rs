//! Kernel launch parameters.
use vstd::prelude::*;

verus! {

/// Grid and block dimensions and dynamic shared memory of a kernel launch.
pub struct LaunchConfig {
    pub grid_dim: (u32, u32, u32),
    pub block_dim: (u32, u32, u32),
    pub shared_mem_bytes: u32,
}

/// What follows the probe of a kernel parameter: parameters are probed
/// from index 0 up, and the count is the index of the first one that is
/// not found.
pub enum ParamProbe {
    /// Probe the parameter at this index next.
    Next(usize),
    /// The kernel takes this many parameters.
    Count(usize),
}

/// The step after probing the parameter at `index`: go on to the next index
/// where it was found, else the count is `index`.
pub fn param_probe_step(index: usize, found: bool) -> (step: ParamProbe)
    requires
        found ==> index < usize::MAX,
    ensures
        found ==> step == ParamProbe::Next((index + 1) as usize),
        !found ==> step == ParamProbe::Count(index),
{
    if found {
        ParamProbe::Next(index + 1)
    } else {
        ParamProbe::Count(index)
    }
}

} // verus!
