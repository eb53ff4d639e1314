//! The real-time clock, a PL031.

use crate::consts::{NANOS_PER_SEC, PHYS_OFFSET};
use crate::dtb::tree;
use crate::dtb::tree::{DtDevice, DtRegion};
use crate::dtb::walk;
use vstd::prelude::*;

verus! {

/// Offset of the register that holds the time.
pub const RTC_DR: u64 = 0x000;

/// Physical address of the clock of a QEMU `virt` machine.
pub const QEMU_VIRT_PL031_ADDR: u64 = 0x9010000;

/// A clock at a physical address.
#[derive(Clone, Copy, Debug, PartialEq, Eq, Structural)]
pub struct Pl031rtc {
    /// The address.
    pub phys: u64,
}

impl Pl031rtc {
    /// The address at which a register is read.
    pub open spec fn register(&self, reg: u64) -> int {
        PHYS_OFFSET + self.phys + reg
    }

    /// Reads a register. `read_volatile` reads a word of memory.
    fn read<R: Fn(u64) -> u32>(&self, reg: u64, read_volatile: R) -> (word: u32)
        requires
            self.register(reg) <= u64::MAX,
            call_requires(read_volatile, (self.register(reg) as u64,)),
        ensures
            call_ensures(read_volatile, (self.register(reg) as u64,), word),
    {
        read_volatile(PHYS_OFFSET + self.phys + reg)
    }

    /// Reads the time, in seconds. `read_volatile` reads a word of memory.
    pub fn time<R: Fn(u64) -> u32>(&self, read_volatile: R) -> (seconds: u64)
        requires
            self.register(RTC_DR) <= u64::MAX,
            call_requires(read_volatile, (self.register(RTC_DR) as u64,)),
        ensures
            seconds <= u32::MAX,
            call_ensures(read_volatile, (self.register(RTC_DR) as u64,), seconds as u32),
    {
        self.read(RTC_DR, read_volatile) as u64
    }
}

/// The nanoseconds that a reading of the clock stands for.
pub fn start_of(seconds: u64) -> (nanos: u128)
    ensures
        nanos == seconds * NANOS_PER_SEC,
        nanos == seconds * 1_000_000_000,
{
    assert(seconds * NANOS_PER_SEC <= u64::MAX * NANOS_PER_SEC) by (nonlinear_arith)
        requires
            seconds <= u64::MAX,
    ;
    seconds as u128 * NANOS_PER_SEC
}

/// The first region of a device.
pub open spec fn first_region_of(device: tree::DeviceView) -> Option<DtRegion> {
    match device.1 {
        Some(regions) => if regions.len() > 0 {
            Some(DtRegion { address: regions[0].0, size: regions[0].1 })
        } else {
            None
        },
        None => None,
    }
}

/// Finds the first region of a device.
pub fn first_region(device: &DtDevice) -> (region: Option<DtRegion>)
    ensures
        region == first_region_of(device@),
{
    match &device.reg {
        Some(regions) => {
            if regions.len() > 0 {
                assert(regions@[0]@ == tree::regions_view(regions@)[0]);
                Some(regions[0])
            } else {
                None
            }
        },
        None => None,
    }
}

/// The first region of the clock of a device tree.
pub open spec fn clock_region(dtb: Seq<u8>) -> Option<DtRegion> {
    match tree::fdt_compatible(dtb, seq!["arm,pl031"@]) {
        Some(device) => first_region_of(device),
        None => None,
    }
}

/// Finds the first region of the clock of a device tree.
pub fn find_clock(dtb: &[u8]) -> (region: Option<DtRegion>)
    requires
        walk::readable(dtb@),
    ensures
        region == clock_region(dtb@),
{
    let with: Vec<&str> = vec!["arm,pl031"];
    assert(tree::texts_view(with@) =~= seq!["arm,pl031"@]);
    match tree::compatible_device(dtb, with.as_slice()) {
        Some(device) => first_region(&device),
        None => None,
    }
}

/// The clock at an address can be read.
pub open spec fn is_readable<R: Fn(u64) -> u32>(phys: u64, read_volatile: R) -> bool {
    let rtc = Pl031rtc { phys };
    &&& rtc.register(RTC_DR) <= u64::MAX
    &&& call_requires(read_volatile, (rtc.register(RTC_DR) as u64,))
}

/// `seconds` may be what the clock at an address shows.
pub open spec fn shows<R: Fn(u64) -> u32>(phys: u64, read_volatile: R, seconds: u32) -> bool {
    call_ensures(read_volatile, (Pl031rtc { phys }.register(RTC_DR) as u64,), seconds)
}

/// Sets the time of the start from the clock of a device tree. `mmio_address`
/// gives the address at which a region is reached, if it can be, and
/// `read_volatile` reads a word of memory. Without a clock the time stays as it
/// is.
pub fn init<M: Fn(DtRegion) -> Option<usize>, R: Fn(u64) -> u32>(
    dtb: &[u8],
    mmio_address: M,
    read_volatile: R,
    start: &mut u128,
)
    requires
        walk::readable(dtb@),
        forall|region: DtRegion| call_requires(mmio_address, (region,)),
        forall|region: DtRegion, phys: usize|
            call_ensures(mmio_address, (region,), Some(phys)) ==> is_readable(
                phys as u64,
                read_volatile,
            ),
    ensures
        match clock_region(dtb@) {
            Some(region) => {
                ||| call_ensures(mmio_address, (region,), None) && *final(start) == *old(start)
                ||| exists|phys: usize, seconds: u32| #[trigger]
                    shows(phys as u64, read_volatile, seconds) && call_ensures(
                        mmio_address,
                        (region,),
                        Some(phys),
                    ) && *final(start) == seconds * NANOS_PER_SEC
            },
            None => *final(start) == *old(start),
        },
{
    if let Some(region) = find_clock(dtb) {
        if let Some(phys) = mmio_address(region) {
            assert(is_readable(phys as u64, read_volatile));
            let rtc = Pl031rtc { phys: phys as u64 };
            let seconds: u64 = rtc.time(read_volatile);
            assert(shows(phys as u64, read_volatile, seconds as u32));
            *start = start_of(seconds);
        }
    }
}

/// Sets the time of the start from the clock of a QEMU `virt` machine, where there
/// is no device tree. A clock that shows zero is not there, and the time stays as
/// it is.
pub fn init_qemu_virt<R: Fn(u64) -> u32>(read_volatile: R, start: &mut u128)
    requires
        is_readable(QEMU_VIRT_PL031_ADDR, read_volatile),
    ensures
        exists|seconds: u32| #[trigger]
            shows(QEMU_VIRT_PL031_ADDR, read_volatile, seconds) && *final(start) == (if seconds
                > 0 {
                seconds * NANOS_PER_SEC
            } else {
                *old(start) as int
            }),
{
    let rtc = Pl031rtc { phys: QEMU_VIRT_PL031_ADDR };
    let seconds: u64 = rtc.time(read_volatile);
    assert(shows(QEMU_VIRT_PL031_ADDR, read_volatile, seconds as u32));
    if seconds > 0 {
        *start = start_of(seconds);
    }
}

/// A register is read where its memory is mapped, at its offset from the clock; the
/// time is in the first.
pub proof fn lemma_where_registers_are(phys: u64, reg: u64)
    ensures
        (Pl031rtc { phys }).register(reg) == 0xFFFF_8000_0000_0000 + phys + reg,
        (Pl031rtc { phys }).register(RTC_DR) == 0xFFFF_8000_0000_0000 + phys,
        (Pl031rtc { phys: QEMU_VIRT_PL031_ADDR }).register(RTC_DR) == 0xFFFF_8000_0901_0000,
{
}

/// A clock is readable if the word at its address is, and shows what is read there.
pub proof fn lemma_what_a_clock_shows<R: Fn(u64) -> u32>(phys: u64, read_volatile: R, seconds: u32)
    requires
        phys < 0x8000_0000_0000,
    ensures
        is_readable(phys, read_volatile) <==> call_requires(
            read_volatile,
            ((0xFFFF_8000_0000_0000 + phys) as u64,),
        ),
        shows(phys, read_volatile, seconds) <==> call_ensures(
            read_volatile,
            ((0xFFFF_8000_0000_0000 + phys) as u64,),
            seconds,
        ),
{
}

/// The region of a device is the first that it lists, with its address and its size,
/// and there is none exactly if it lists none.
pub proof fn lemma_region_is_the_first(device: tree::DeviceView)
    ensures
        first_region_of(device) is Some <==> device.1 is Some && device.1->0.len() > 0,
        first_region_of(device) matches Some(region) ==> region.address == device.1->0[0].0
            && region.size == device.1->0[0].1,
{
}

/// The clock of a device tree is the first device that is compatible with
/// `arm,pl031`, and no other.
pub proof fn lemma_which_device_is_the_clock(dtb: Seq<u8>, device: tree::DeviceView)
    ensures
        tree::fdt_compatible(dtb, seq!["arm,pl031"@]) is None ==> clock_region(dtb) is None,
        tree::fdt_compatible(dtb, seq!["arm,pl031"@]) == Some(device) ==> clock_region(dtb)
            == first_region_of(device),
{
}

} // verus!
