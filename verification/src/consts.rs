//! Address-space layout and units.

use vstd::prelude::*;

verus! {

/// Virtual address at which physical memory is mapped.
pub const PHYS_OFFSET: u64 = 0xFFFF_8000_0000_0000;

/// Virtual address at which the kernel image is mapped.
pub const KERNEL_OFFSET: u64 = 0xFFFF_FF00_0000_0000;

/// Bytes in a page.
pub const PAGE_SIZE: u64 = 4096;

/// Nanoseconds in a second.
pub const NANOS_PER_SEC: u128 = 1_000_000_000;

/// Affinity fields of `MPIDR_EL1`: Aff3 in bits 39 to 32, Aff2 to Aff0 in bits
/// 23 to 0.
pub const AFFINITY_MASK: u64 = 0xFF_00FF_FFFF;

/// The address at which a physical address is mapped.
pub fn phys_to_virt(phys: u64) -> (virt: u64)
    requires
        phys + PHYS_OFFSET <= u64::MAX,
    ensures
        virt == phys + PHYS_OFFSET,
{
    phys + PHYS_OFFSET
}

/// The affinity of a CPU, without the other bits of its `MPIDR_EL1`.
pub fn affinity(mpidr: u64) -> (aff: u64)
    ensures
        aff == mpidr & AFFINITY_MASK,
{
    mpidr & AFFINITY_MASK
}

} // verus!
