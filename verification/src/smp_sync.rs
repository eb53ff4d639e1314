//! The block of memory by which the processors tell each other that they have
//! started.

use crate::consts::{phys_to_virt, PHYS_OFFSET};
use vstd::prelude::*;

verus! {

/// Number of ready flags in a block.
pub const READY_FLAGS: usize = 16;

/// The block.
#[derive(Clone, Copy, Debug)]
pub struct SmpSyncBlock {
    /// Processors that have entered the kernel. Starts again from zero behind its
    /// last value.
    pub ap_entry_count: u32,
    /// A second counter, for comparison.
    pub ap_entry_volatile: u32,
    /// A flag for each processor.
    pub ap_ready_flags: [u32; READY_FLAGS],
}

impl SmpSyncBlock {
    /// Nothing is counted and no flag is set.
    pub open spec fn is_zero(&self) -> bool {
        &&& self.ap_entry_count == 0
        &&& self.ap_entry_volatile == 0
        &&& forall|i: int| 0 <= i < READY_FLAGS ==> #[trigger] self.ap_ready_flags@[i] == 0
    }

    /// A block with nothing counted and no flag set.
    pub fn new() -> (block: Self)
        ensures
            block.is_zero(),
    {
        SmpSyncBlock {
            ap_entry_count: 0,
            ap_entry_volatile: 0,
            ap_ready_flags: [0; READY_FLAGS],
        }
    }
}

/// A block and where it is.
#[derive(Clone, Copy, Debug)]
pub struct PlacedBlock {
    /// Its virtual address.
    pub address: u64,
    /// The block.
    pub block: SmpSyncBlock,
}

/// The shared block, once there is one.
#[derive(Clone, Copy, Debug)]
pub struct SmpSync {
    /// The block.
    pub placed: Option<PlacedBlock>,
}

impl SmpSync {
    /// There is no block yet.
    pub fn new() -> (sync: Self)
        ensures
            sync.placed is None,
    {
        SmpSync { placed: None }
    }
}

/// Puts a block of zeros into a fresh frame, given its physical address if one
/// could be had. Without a frame everything stays as it is.
pub fn init_smp_sync_normal(sync: &mut SmpSync, frame: Option<u64>) -> (result: Result<
    (),
    &'static str,
>)
    requires
        frame matches Some(phys) ==> phys + PHYS_OFFSET <= u64::MAX,
    ensures
        match frame {
            Some(phys) => {
                &&& result is Ok
                &&& final(sync).placed matches Some(placed) && placed.address == phys
                    + PHYS_OFFSET && placed.block.is_zero()
            },
            None => {
                &&& result matches Err(message) && message@
                    == "Failed to allocate frame for SMP sync"@
                &&& *final(sync) == *old(sync)
            },
        },
{
    match frame {
        Some(phys) => {
            let address: u64 = phys_to_virt(phys);
            sync.placed = Some(PlacedBlock { address, block: SmpSyncBlock::new() });
            Ok(())
        },
        None => Err("Failed to allocate frame for SMP sync"),
    }
}

/// Would put a block into device memory, which cannot be mapped yet: it fails
/// with a frame as well as without one.
pub fn init_smp_sync_device(frame: Option<u64>) -> (result: Result<(), &'static str>)
    ensures
        result matches Err(message) && message@ == (match frame {
            Some(_) => "Device memory mapping not implemented yet"@,
            None => "Failed to allocate frame for SMP device sync"@,
        }),
{
    match frame {
        Some(_) => Err("Device memory mapping not implemented yet"),
        None => Err("Failed to allocate frame for SMP device sync"),
    }
}

/// The address of the block, zero if there is none.
pub fn get_raw_sync_ptr(sync: &SmpSync) -> (address: u64)
    ensures
        address == (match sync.placed {
            Some(placed) => placed.address,
            None => 0,
        }),
{
    match &sync.placed {
        Some(placed) => placed.address,
        None => 0,
    }
}

/// The block, if there is one.
pub fn get_smp_sync(sync: &SmpSync) -> (block: Option<&SmpSyncBlock>)
    ensures
        block == (match sync.placed {
            Some(placed) => Some(&placed.block),
            None => None,
        }),
{
    match &sync.placed {
        Some(placed) => Some(&placed.block),
        None => None,
    }
}

/// The block, to be changed, if there is one.
pub fn get_smp_sync_mut(sync: &mut SmpSync) -> (block: Option<&mut SmpSyncBlock>)
    ensures
        match old(sync).placed {
            Some(placed) => {
                &&& block is Some
                &&& *block->0 == placed.block
                &&& final(sync).placed == Some(
                    PlacedBlock { address: placed.address, block: *final(block->0) },
                )
            },
            None => block is None && *final(sync) == *old(sync),
        },
{
    match &mut sync.placed {
        Some(placed) => Some(&mut placed.block),
        None => None,
    }
}

/// The next value of the counter of a block.
pub open spec fn counted_entry(count: u32) -> u32 {
    if count == u32::MAX {
        0
    } else {
        (count + 1) as u32
    }
}

/// How many processors a state says have entered the kernel.
pub open spec fn entries_of(sync: SmpSync) -> u32 {
    match sync.placed {
        Some(placed) => placed.block.ap_entry_count,
        None => 0,
    }
}

/// The state behind the entry of a processor.
pub open spec fn entered(sync: SmpSync) -> SmpSync {
    match sync.placed {
        Some(placed) => SmpSync {
            placed: Some(
                PlacedBlock {
                    block: SmpSyncBlock {
                        ap_entry_count: counted_entry(placed.block.ap_entry_count),
                        ..placed.block
                    },
                    ..placed
                },
            ),
        },
        None => sync,
    }
}

/// Counts a processor that has entered the kernel, and returns how many had
/// before. Without a block nothing is counted.
pub fn increment_ap_entry(sync: &mut SmpSync) -> (before: u32)
    ensures
        before == entries_of(*old(sync)),
        *final(sync) == entered(*old(sync)),
{
    match get_smp_sync_mut(sync) {
        Some(block) => {
            let before: u32 = block.ap_entry_count;
            block.ap_entry_count = before.wrapping_add(1);
            before
        },
        None => 0,
    }
}

/// How many processors have entered the kernel, none without a block.
pub fn read_ap_entry(sync: &SmpSync) -> (count: u32)
    ensures
        count == entries_of(*sync),
{
    match get_smp_sync(sync) {
        Some(block) => block.ap_entry_count,
        None => 0,
    }
}

/// The state behind the entries of `n` processors.
pub open spec fn entered_times(sync: SmpSync, n: nat) -> SmpSync
    decreases n,
{
    if n == 0 {
        sync
    } else {
        entered(entered_times(sync, (n - 1) as nat))
    }
}

/// A fresh block counts the processors exactly, and keeps its place and its
/// flags.
pub proof fn lemma_entries_are_counted(sync: SmpSync, n: nat)
    requires
        sync.placed matches Some(placed) && placed.block.is_zero(),
        n <= u32::MAX,
    ensures
        entries_of(entered_times(sync, n)) == n,
        entered_times(sync, n).placed matches Some(placed) && {
            &&& placed.address == sync.placed->0.address
            &&& placed.block.ap_ready_flags == sync.placed->0.block.ap_ready_flags
            &&& placed.block.ap_entry_volatile == 0
        },
    decreases n,
{
    if n > 0 {
        lemma_entries_are_counted(sync, (n - 1) as nat);
    }
}

/// Without a block nothing is ever counted.
pub proof fn lemma_nothing_is_counted(sync: SmpSync, n: nat)
    requires
        sync.placed is None,
    ensures
        entered_times(sync, n) == sync,
        entries_of(sync) == 0,
    decreases n,
{
    if n > 0 {
        lemma_nothing_is_counted(sync, (n - 1) as nat);
    }
}

/// One entry is counted as one more, whatever the count stood at: it starts again
/// from zero behind its last value. All else stays.
pub proof fn lemma_what_an_entry_does(sync: SmpSync, placed: PlacedBlock)
    requires
        sync.placed == Some(placed),
    ensures
        entries_of(sync) == placed.block.ap_entry_count,
        entries_of(entered(sync)) == (placed.block.ap_entry_count + 1) % 0x1_0000_0000,
        entered(sync).placed matches Some(after) && {
            &&& after.address == placed.address
            &&& after.block.ap_entry_volatile == placed.block.ap_entry_volatile
            &&& after.block.ap_ready_flags == placed.block.ap_ready_flags
        },
{
}

/// A block of zeros has nothing in any place.
pub proof fn lemma_what_zeros_are(block: SmpSyncBlock, i: int)
    requires
        0 <= i < 16,
    ensures
        block.is_zero() ==> block.ap_entry_count == 0 && block.ap_entry_volatile == 0
            && block.ap_ready_flags@[i] == 0,
{
}

} // verus!
